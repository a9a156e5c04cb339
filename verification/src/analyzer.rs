//! The tree-walking analyzer. The executable walker [`Micko`] populates the
//! symbol table and reports the first semantic error; the `spec_*` functions
//! form its mathematical mirror, a direct-style account of the whole
//! analysis that every method's contract is stated against.

use vstd::prelude::*;

use crate::ast::{Assignment, Exp, Function, FunctionCall, IdDecl, LitForm, Literal, NumExp,
    Program, Stmt};
use crate::symtab::{Kind, KindSet, SpecSymbol, Symbol, Symbols, Type, spec_lookup};
use crate::Error;

verus! {

/// The model of a semantic error, over character sequences.
pub ghost enum SpecError {
    Redefinition(Seq<char>),
    Undeclared(Seq<char>),
    IncompatibleTypes,
    MissingEntryPoint,
}

impl View for Error {
    type V = SpecError;

    open spec fn view(&self) -> SpecError {
        match self {
            Error::Redefinition(n) => SpecError::Redefinition(n@),
            Error::Undeclared(n) => SpecError::Undeclared(n@),
            Error::IncompatibleTypes => SpecError::IncompatibleTypes,
            Error::MissingEntryPoint => SpecError::MissingEntryPoint,
        }
    }
}

/// The state the walk threads along: the symbol table's model and the
/// per-function ordinal counter for local variables.
pub ghost struct SpecState {
    pub table: Seq<SpecSymbol>,
    pub ordinal: u32,
}

/// The analyzer's starting state: an empty table, ordinal counter at 1.
pub open spec fn init_state() -> SpecState {
    SpecState { table: Seq::empty(), ordinal: 1 }
}

/// The kinds a declaration of kind `kind` must not collide with: a function
/// clashes with visible functions, a parameter or variable with visible
/// parameters and variables.
pub open spec fn decl_mask(kind: Kind) -> KindSet {
    match kind {
        Kind::Function => KindSet::spec_functions(),
        Kind::Parameter => KindSet::spec_values(),
        Kind::Variable => KindSet::spec_values(),
        Kind::Register => KindSet {
            register: true,
            function: false,
            parameter: false,
            variable: false,
            literal: false,
        },
        Kind::Literal => KindSet {
            register: false,
            function: false,
            parameter: false,
            variable: false,
            literal: true,
        },
    }
}

/// The symbol a declaration gives rise to.
pub open spec fn decl_symbol(decl: IdDecl, kind: Kind, ordinal: u32) -> SpecSymbol {
    SpecSymbol { name: decl.name@, kind: kind, s_type: decl.s_type, ordinal: ordinal }
}

/// Declaring a name: a redefinition error if a symbol of a clashing kind is
/// already visible, otherwise the new symbol is pushed.
pub open spec fn spec_id_decl(st: SpecState, decl: IdDecl, kind: Kind, ordinal: u32) -> Result<
    SpecState,
    SpecError,
> {
    if spec_lookup(st.table, decl.name@, decl_mask(kind)) is Some {
        Err(SpecError::Redefinition(decl.name@))
    } else {
        Ok(SpecState { table: st.table.push(decl_symbol(decl, kind, ordinal)), ordinal: st.ordinal })
    }
}

/// The type a literal token's lexical form denotes: plain integer tokens are
/// `Int`, unsigned-suffixed ones are `Unsigned`.
pub open spec fn lit_type(form: LitForm) -> Type {
    match form {
        LitForm::Plain => Type::Int,
        LitForm::Unsigned => Type::Unsigned,
    }
}

/// The fresh symbol a literal occurrence registers: its own text as name,
/// ordinal 0 since literals are not addressed by position.
pub open spec fn lit_symbol(l: Literal) -> SpecSymbol {
    SpecSymbol { name: l.text@, kind: Kind::Literal, s_type: lit_type(l.form), ordinal: 0 }
}

/// Registering a literal: it always succeeds and returns its fresh symbol.
pub open spec fn spec_literal(st: SpecState, l: Literal) -> (SpecState, SpecSymbol) {
    (SpecState { table: st.table.push(lit_symbol(l)), ordinal: st.ordinal }, lit_symbol(l))
}

/// Resolving a reference: the most recent visible symbol matching the mask,
/// or an undeclared-identifier error.
pub open spec fn spec_resolve(st: SpecState, name: Seq<char>, kinds: KindSet) -> Result<
    SpecSymbol,
    SpecError,
> {
    match spec_lookup(st.table, name, kinds) {
        Some(s) => Ok(s),
        None => Err(SpecError::Undeclared(name)),
    }
}

/// Evaluating one operand.
pub open spec fn spec_exp(st: SpecState, e: Exp) -> Result<(SpecState, SpecSymbol), SpecError>
    decreases e,
{
    match e {
        Exp::Call(fc) => spec_function_call(st, fc),
        Exp::Lit(l) => Ok(spec_literal(st, l)),
        Exp::Id(name) => match spec_resolve(st, name@, KindSet::spec_values()) {
            Ok(s) => Ok((st, s)),
            Err(er) => Err(er),
        },
        Exp::Paren(b) => spec_num_exp(st, *b),
    }
}

/// Evaluating the operands after the first: each must have the first
/// operand's type, which is also the whole expression's result type.
pub open spec fn spec_exp_chain(st: SpecState, first: SpecSymbol, rest: Seq<Exp>) -> Result<
    (SpecState, SpecSymbol),
    SpecError,
>
    decreases rest,
{
    if rest.len() == 0 {
        Ok((st, first))
    } else {
        match spec_exp(st, rest[0]) {
            Ok(r) => if first.s_type == r.1.s_type {
                spec_exp_chain(r.0, first, rest.drop_first())
            } else {
                Err(SpecError::IncompatibleTypes)
            },
            Err(er) => Err(er),
        }
    }
}

/// Evaluating a numeric expression: the first operand gives the type, the
/// remaining operands must agree with it.
pub open spec fn spec_num_exp(st: SpecState, n: NumExp) -> Result<(SpecState, SpecSymbol), SpecError>
    decreases n,
{
    match spec_exp(st, n.first) {
        Ok(r) => spec_exp_chain(r.0, r.1, n.rest@),
        Err(er) => Err(er),
    }
}

/// Evaluating a call: the callee must resolve as a function; an argument
/// expression is evaluated only for its own internal consistency, and the
/// call's type is the callee's declared return type.
pub open spec fn spec_function_call(st: SpecState, fc: FunctionCall) -> Result<
    (SpecState, SpecSymbol),
    SpecError,
>
    decreases fc,
{
    match spec_resolve(st, fc.callee@, KindSet::spec_functions()) {
        Ok(fun) => match fc.arg {
            Some(a) => match spec_num_exp(st, *a) {
                Ok(r) => Ok((r.0, fun)),
                Err(er) => Err(er),
            },
            None => Ok((st, fun)),
        },
        Err(er) => Err(er),
    }
}

/// Declaring a local variable: it takes the current ordinal, which then
/// increments.
pub open spec fn spec_variable(st: SpecState, decl: IdDecl) -> Result<SpecState, SpecError> {
    match spec_id_decl(st, decl, Kind::Variable, st.ordinal) {
        Ok(st1) => Ok(SpecState { table: st1.table, ordinal: (st1.ordinal + 1) as u32 }),
        Err(er) => Err(er),
    }
}

/// Checking an assignment: the left-hand side resolves as a parameter or
/// variable, the right-hand expression is evaluated, and their types must
/// agree.
pub open spec fn spec_assignment(st: SpecState, a: Assignment) -> Result<SpecState, SpecError> {
    match spec_resolve(st, a.lhs@, KindSet::spec_values()) {
        Ok(lhs) => match spec_num_exp(st, a.rhs) {
            Ok(r) => if lhs.s_type == r.1.s_type {
                Ok(r.0)
            } else {
                Err(SpecError::IncompatibleTypes)
            },
            Err(er) => Err(er),
        },
        Err(er) => Err(er),
    }
}

/// Checking one statement. Compound, if and return statements are not
/// walked for declarations and leave the state unchanged.
pub open spec fn spec_stmt(st: SpecState, s: Stmt) -> Result<SpecState, SpecError> {
    match s {
        Stmt::Variable(d) => spec_variable(st, d),
        Stmt::Compound => Ok(st),
        Stmt::Assignment(a) => spec_assignment(st, a),
        Stmt::If => Ok(st),
        Stmt::Return => Ok(st),
    }
}

/// Checking a body's immediate children in order, stopping at the first
/// violation.
pub open spec fn spec_body(st: SpecState, stmts: Seq<Stmt>) -> Result<SpecState, SpecError>
    decreases stmts.len(),
{
    if stmts.len() == 0 {
        Ok(st)
    } else {
        match spec_stmt(st, stmts[0]) {
            Ok(st1) => spec_body(st1, stmts.drop_first()),
            Err(er) => Err(er),
        }
    }
}

/// Declaring a function's parameters in order. Every parameter receives the
/// fixed ordinal 1: positions do not increment per parameter, so two
/// parameters of one function share the same index. This looks like a
/// defect, but it is the observable behavior this stage has always had, so
/// it is kept as stated until the owner of the code generator confirms that
/// per-parameter positions are wanted.
pub open spec fn spec_params(st: SpecState, params: Seq<IdDecl>) -> Result<SpecState, SpecError>
    decreases params.len(),
{
    if params.len() == 0 {
        Ok(st)
    } else {
        match spec_id_decl(st, params[0], Kind::Parameter, 1) {
            Ok(st1) => spec_params(st1, params.drop_first()),
            Err(er) => Err(er),
        }
    }
}

/// Analyzing one function: declare its own name (ordinal 0), then its
/// parameters, then walk its body; on success truncate the table back to
/// the function's own symbol — dropping all parameters and locals — and
/// reset the ordinal counter to 1.
pub open spec fn spec_function(st: SpecState, f: Function) -> Result<SpecState, SpecError> {
    let mark = st.table.len() as int;
    match spec_id_decl(st, f.decl, Kind::Function, 0) {
        Ok(st1) => match spec_params(st1, f.params@) {
            Ok(st2) => match spec_body(st2, f.body@) {
                Ok(st3) => Ok(SpecState { table: st3.table.subrange(0, mark + 1), ordinal: 1 }),
                Err(er) => Err(er),
            },
            Err(er) => Err(er),
        },
        Err(er) => Err(er),
    }
}

/// Analyzing the top-level function definitions in order.
pub open spec fn spec_functions(st: SpecState, funs: Seq<Function>) -> Result<SpecState, SpecError>
    decreases funs.len(),
{
    if funs.len() == 0 {
        Ok(st)
    } else {
        match spec_function(st, funs[0]) {
            Ok(st1) => spec_functions(st1, funs.drop_first()),
            Err(er) => Err(er),
        }
    }
}

/// The whole analysis: process every function from the empty state, then
/// require an entry point — a visible function named `main`.
pub open spec fn spec_analysis(p: Program) -> Result<(), SpecError> {
    match spec_functions(init_state(), p.functions@) {
        Ok(st) => if spec_lookup(st.table, "main"@, KindSet::spec_functions()) is Some {
            Ok(())
        } else {
            Err(SpecError::MissingEntryPoint)
        },
        Err(er) => Err(er),
    }
}

/// The machine limit the analyzer needs of its input: each function body
/// must leave the per-function ordinal counter, which starts at 1 and
/// increments once per declared local, below `u32::MAX`.
pub open spec fn wf_program(p: Program) -> bool {
    forall|i: int|
        0 <= i < p.functions@.len() ==> (#[trigger] p.functions@[i]).body@.len() < u32::MAX
}

/// The model of an analysis result.
pub open spec fn spec_of_result(r: Result<(), Error>) -> Result<(), SpecError> {
    match r {
        Ok(u) => Ok(u),
        Err(e) => Err(e@),
    }
}

/// `t1` carries `t0` unchanged as a prefix, and every entry after it is a
/// literal registration: what expression evaluation does to the table.
pub open spec fn extends_with_literals(t0: Seq<SpecSymbol>, t1: Seq<SpecSymbol>) -> bool {
    &&& t0.len() <= t1.len()
    &&& t1.subrange(0, t0.len() as int) == t0
    &&& forall|i: int| t0.len() <= i < t1.len() ==> (#[trigger] t1[i]).kind == Kind::Literal
}

/// `extends_with_literals` composes.
pub proof fn lemma_extends_trans(a: Seq<SpecSymbol>, b: Seq<SpecSymbol>, c: Seq<SpecSymbol>)
    requires
        extends_with_literals(a, b),
        extends_with_literals(b, c),
    ensures
        extends_with_literals(a, c),
{
    assert forall|i: int| 0 <= i < b.len() implies c[i] == b[i] by {
        assert(b[i] == c.subrange(0, b.len() as int)[i]);
    }
    assert(c.subrange(0, a.len() as int) =~= b.subrange(0, a.len() as int));
    assert forall|i: int| a.len() <= i < c.len() implies (#[trigger] c[i]).kind == Kind::Literal
        by {
        if i < b.len() {
            assert(b[i].kind == Kind::Literal);
        }
    }
}

/// Evaluating an operand leaves the ordinal counter unchanged and only adds
/// literal entries to the table.
pub proof fn lemma_exp_frame(st: SpecState, e: Exp)
    ensures
        spec_exp(st, e) matches Ok(r) ==> r.0.ordinal == st.ordinal && extends_with_literals(
            st.table,
            r.0.table,
        ),
    decreases e,
{
    match e {
        Exp::Call(fc) => lemma_function_call_frame(st, fc),
        Exp::Lit(l) => {
            assert(st.table.push(lit_symbol(l)).subrange(0, st.table.len() as int) =~= st.table);
        },
        Exp::Id(name) => {
            assert(st.table.subrange(0, st.table.len() as int) =~= st.table);
        },
        Exp::Paren(b) => lemma_num_exp_frame(st, *b),
    }
}

/// As [`lemma_exp_frame`], for the operands after the first.
pub proof fn lemma_exp_chain_frame(st: SpecState, first: SpecSymbol, rest: Seq<Exp>)
    ensures
        spec_exp_chain(st, first, rest) matches Ok(r) ==> r.0.ordinal == st.ordinal
            && extends_with_literals(st.table, r.0.table),
    decreases rest,
{
    if rest.len() == 0 {
        assert(st.table.subrange(0, st.table.len() as int) =~= st.table);
    } else {
        lemma_exp_frame(st, rest[0]);
        match spec_exp(st, rest[0]) {
            Ok(r) => {
                if first.s_type == r.1.s_type {
                    lemma_exp_chain_frame(r.0, first, rest.drop_first());
                    match spec_exp_chain(r.0, first, rest.drop_first()) {
                        Ok(r2) => lemma_extends_trans(st.table, r.0.table, r2.0.table),
                        Err(_) => {},
                    }
                }
            },
            Err(_) => {},
        }
    }
}

/// As [`lemma_exp_frame`], for a whole numeric expression.
pub proof fn lemma_num_exp_frame(st: SpecState, n: NumExp)
    ensures
        spec_num_exp(st, n) matches Ok(r) ==> r.0.ordinal == st.ordinal && extends_with_literals(
            st.table,
            r.0.table,
        ),
    decreases n,
{
    lemma_exp_frame(st, n.first);
    match spec_exp(st, n.first) {
        Ok(r) => {
            lemma_exp_chain_frame(r.0, r.1, n.rest@);
            match spec_exp_chain(r.0, r.1, n.rest@) {
                Ok(r2) => lemma_extends_trans(st.table, r.0.table, r2.0.table),
                Err(_) => {},
            }
        },
        Err(_) => {},
    }
}

/// As [`lemma_exp_frame`], for a function call.
pub proof fn lemma_function_call_frame(st: SpecState, fc: FunctionCall)
    ensures
        spec_function_call(st, fc) matches Ok(r) ==> r.0.ordinal == st.ordinal
            && extends_with_literals(st.table, r.0.table),
    decreases fc,
{
    assert(st.table.subrange(0, st.table.len() as int) =~= st.table);
    match fc.arg {
        Some(a) => lemma_num_exp_frame(st, *a),
        None => {},
    }
}

/// The tree-walking analyzer: the symbol table and the per-function ordinal
/// counter for declared locals.
pub struct Micko {
    symbols: Symbols,
    ordinal: u32,
}

impl View for Micko {
    type V = SpecState;

    closed spec fn view(&self) -> SpecState {
        SpecState { table: self.symbols@, ordinal: self.ordinal }
    }
}

impl Micko {
    /// A fresh analyzer: empty table, ordinal counter at 1.
    pub fn new() -> (r: Self)
        ensures
            r@ == init_state(),
    {
        let r = Micko { symbols: Symbols::new(), ordinal: 1 };
        proof {
            assert(r@ =~= init_state());
        }
        r
    }

    /// Declares `decl` with the given kind and ordinal, unless a clashing
    /// symbol is already visible.
    fn id_decl(&mut self, decl: &IdDecl, kind: Kind, ordinal: u32) -> (r: Result<(), Error>)
        ensures
            match r {
                Ok(u) => spec_id_decl(old(self)@, *decl, kind, ordinal) == Ok::<SpecState, SpecError>(
                    final(self)@,
                ),
                Err(er) => spec_id_decl(old(self)@, *decl, kind, ordinal) == Err::<
                    SpecState,
                    SpecError,
                >(er@),
            },
    {
        let kinds = match kind {
            Kind::Function => KindSet::functions(),
            Kind::Parameter => KindSet::values(),
            Kind::Variable => KindSet::values(),
            Kind::Register => KindSet {
                register: true,
                function: false,
                parameter: false,
                variable: false,
                literal: false,
            },
            Kind::Literal => KindSet {
                register: false,
                function: false,
                parameter: false,
                variable: false,
                literal: true,
            },
        };
        if self.symbols.lookup(decl.name.as_str(), kinds).is_some() {
            return Err(Error::Redefinition(decl.name.clone()));
        }
        self.symbols.push(
            Symbol { name: decl.name.clone(), kind: kind, s_type: decl.s_type, ordinal: ordinal },
        );
        Ok(())
    }

    /// Resolves a referenced name against the mask, cloning the found symbol.
    fn id(&self, name: &str, kinds: KindSet) -> (r: Result<Symbol, Error>)
        ensures
            match r {
                Ok(s) => spec_resolve(self@, name@, kinds) == Ok::<SpecSymbol, SpecError>(s@),
                Err(er) => spec_resolve(self@, name@, kinds) == Err::<SpecSymbol, SpecError>(er@),
            },
    {
        match self.symbols.lookup(name, kinds) {
            Some(s) => Ok(s.clone()),
            None => Err(Error::Undeclared(name.to_owned())),
        }
    }

    /// Registers a literal occurrence and returns its fresh symbol.
    fn literal(&mut self, l: &Literal) -> (r: Symbol)
        ensures
            spec_literal(old(self)@, *l) == (final(self)@, r@),
    {
        let s_type = match l.form {
            LitForm::Plain => Type::Int,
            LitForm::Unsigned => Type::Unsigned,
        };
        let sym = Symbol { name: l.text.clone(), kind: Kind::Literal, s_type: s_type, ordinal: 0 };
        let stored = self.symbols.push(sym);
        stored.clone()
    }

    /// Evaluates one operand.
    fn exp(&mut self, e: &Exp) -> (r: Result<Symbol, Error>)
        ensures
            match r {
                Ok(s) => spec_exp(old(self)@, *e) == Ok::<(SpecState, SpecSymbol), SpecError>(
                    (final(self)@, s@),
                ),
                Err(er) => spec_exp(old(self)@, *e) == Err::<(SpecState, SpecSymbol), SpecError>(
                    er@,
                ),
            },
        decreases *e,
    {
        match e {
            Exp::Call(fc) => self.function_call(fc),
            Exp::Lit(l) => Ok(self.literal(l)),
            Exp::Id(name) => self.id(name.as_str(), KindSet::values()),
            Exp::Paren(b) => self.num_exp(b),
        }
    }

    /// Evaluates a numeric expression: the first operand fixes the type,
    /// every further operand must agree with it.
    #[verifier::loop_isolation(false)]
    fn num_exp(&mut self, n: &NumExp) -> (r: Result<Symbol, Error>)
        ensures
            match r {
                Ok(s) => spec_num_exp(old(self)@, *n) == Ok::<(SpecState, SpecSymbol), SpecError>(
                    (final(self)@, s@),
                ),
                Err(er) => spec_num_exp(old(self)@, *n) == Err::<
                    (SpecState, SpecSymbol),
                    SpecError,
                >(er@),
            },
        decreases *n,
    {
        let first = match self.exp(&n.first) {
            Ok(s) => s,
            Err(er) => {
                return Err(er);
            },
        };
        let ghost st1 = self@;
        let ghost full = n.rest@;
        let mut i: usize = 0;
        proof {
            assert(full.subrange(0, full.len() as int) =~= full);
        }
        while i < n.rest.len()
            invariant
                i <= n.rest@.len(),
                n.rest@ == full,
                spec_exp_chain(self@, first@, full.subrange(i as int, full.len() as int))
                    == spec_exp_chain(st1, first@, full),
            decreases n.rest@.len() - i,
        {
            let ghost tail = full.subrange(i as int, full.len() as int);
            proof {
                assert(tail[0] == full[i as int]);
                assert(tail.drop_first() =~= full.subrange(i as int + 1, full.len() as int));
                assert(decreases_to!(*n => n.rest@[i as int]));
            }
            let e = match self.exp(&n.rest[i]) {
                Ok(s) => s,
                Err(er) => {
                    return Err(er);
                },
            };
            if first.s_type != e.s_type {
                return Err(Error::IncompatibleTypes);
            }
            i = i + 1;
        }
        proof {
            assert(full.subrange(full.len() as int, full.len() as int) =~= Seq::<Exp>::empty());
        }
        Ok(first)
    }

    /// Evaluates a call: the callee resolves as a function, an argument
    /// expression is checked for its own consistency, and the result takes
    /// the callee's declared return type.
    fn function_call(&mut self, fc: &FunctionCall) -> (r: Result<Symbol, Error>)
        ensures
            match r {
                Ok(s) => spec_function_call(old(self)@, *fc) == Ok::<
                    (SpecState, SpecSymbol),
                    SpecError,
                >((final(self)@, s@)),
                Err(er) => spec_function_call(old(self)@, *fc) == Err::<
                    (SpecState, SpecSymbol),
                    SpecError,
                >(er@),
            },
        decreases *fc,
    {
        let fun = match self.id(fc.callee.as_str(), KindSet::functions()) {
            Ok(s) => s,
            Err(er) => {
                return Err(er);
            },
        };
        match &fc.arg {
            Some(a) => match self.num_exp(a) {
                Ok(_) => Ok(fun),
                Err(er) => Err(er),
            },
            None => Ok(fun),
        }
    }

    /// Declares a local variable with the current ordinal, then increments
    /// the counter.
    fn variable(&mut self, decl: &IdDecl) -> (r: Result<(), Error>)
        requires
            old(self)@.ordinal < u32::MAX,
        ensures
            match r {
                Ok(u) => spec_variable(old(self)@, *decl) == Ok::<SpecState, SpecError>(
                    final(self)@,
                ),
                Err(er) => spec_variable(old(self)@, *decl) == Err::<SpecState, SpecError>(er@),
            },
    {
        let ord = self.ordinal;
        match self.id_decl(decl, Kind::Variable, ord) {
            Ok(u) => {
                self.ordinal = self.ordinal + 1;
                Ok(())
            },
            Err(er) => Err(er),
        }
    }

    /// Checks an assignment: left-hand side resolves as a parameter or
    /// variable, and its declared type must equal the right-hand
    /// expression's resolved type.
    fn assignment_statement(&mut self, a: &Assignment) -> (r: Result<(), Error>)
        ensures
            match r {
                Ok(u) => spec_assignment(old(self)@, *a) == Ok::<SpecState, SpecError>(
                    final(self)@,
                ),
                Err(er) => spec_assignment(old(self)@, *a) == Err::<SpecState, SpecError>(er@),
            },
    {
        let lhs = match self.id(a.lhs.as_str(), KindSet::values()) {
            Ok(s) => s,
            Err(er) => {
                return Err(er);
            },
        };
        let rhs = match self.num_exp(&a.rhs) {
            Ok(s) => s,
            Err(er) => {
                return Err(er);
            },
        };
        if lhs.s_type != rhs.s_type {
            return Err(Error::IncompatibleTypes);
        }
        Ok(())
    }

    /// Walks a body's immediate children in order.
    #[verifier::loop_isolation(false)]
    fn body(&mut self, stmts: &Vec<Stmt>) -> (r: Result<(), Error>)
        requires
            old(self)@.ordinal + stmts@.len() <= u32::MAX,
        ensures
            match r {
                Ok(u) => spec_body(old(self)@, stmts@) == Ok::<SpecState, SpecError>(final(self)@),
                Err(er) => spec_body(old(self)@, stmts@) == Err::<SpecState, SpecError>(er@),
            },
    {
        let ghost st0 = self@;
        let ghost full = stmts@;
        let mut i: usize = 0;
        proof {
            assert(full.subrange(0, full.len() as int) =~= full);
        }
        while i < stmts.len()
            invariant
                i <= full.len(),
                stmts@ == full,
                self@.ordinal + (full.len() - i) <= u32::MAX,
                spec_body(self@, full.subrange(i as int, full.len() as int)) == spec_body(
                    st0,
                    full,
                ),
            decreases full.len() - i,
        {
            let ghost pre = self@;
            let ghost tail = full.subrange(i as int, full.len() as int);
            proof {
                assert(tail[0] == full[i as int]);
                assert(tail.drop_first() =~= full.subrange(i as int + 1, full.len() as int));
            }
            let stmt = &stmts[i];
            match stmt {
                Stmt::Variable(d) => {
                    match self.variable(d) {
                        Ok(u) => {},
                        Err(er) => {
                            return Err(er);
                        },
                    }
                },
                Stmt::Compound => {},
                Stmt::Assignment(a) => {
                    let res = self.assignment_statement(a);
                    proof {
                        if res is Ok {
                            match spec_resolve(pre, a.lhs@, KindSet::spec_values()) {
                                Ok(lhs) => {
                                    lemma_num_exp_frame(pre, a.rhs);
                                },
                                Err(er) => {},
                            }
                        }
                    }
                    match res {
                        Ok(u) => {},
                        Err(er) => {
                            return Err(er);
                        },
                    }
                },
                Stmt::If => {},
                Stmt::Return => {},
            }
            i = i + 1;
        }
        proof {
            assert(full.subrange(full.len() as int, full.len() as int) =~= Seq::<Stmt>::empty());
        }
        Ok(())
    }

    /// Analyzes one function definition: declare the function, then its
    /// parameters, then walk the body; finally drop the function's scope
    /// from the table and reset the ordinal counter.
    #[verifier::loop_isolation(false)]
    fn function(&mut self, f: &Function) -> (r: Result<(), Error>)
        requires
            old(self)@.ordinal + f.body@.len() <= u32::MAX,
        ensures
            match r {
                Ok(u) => spec_function(old(self)@, *f) == Ok::<SpecState, SpecError>(final(self)@),
                Err(er) => spec_function(old(self)@, *f) == Err::<SpecState, SpecError>(er@),
            },
    {
        let mark = self.symbols.len();
        match self.id_decl(&f.decl, Kind::Function, 0) {
            Ok(u) => {},
            Err(er) => {
                return Err(er);
            },
        }
        let ghost stp = self@;
        let ghost fullp = f.params@;
        let mut i: usize = 0;
        proof {
            assert(fullp.subrange(0, fullp.len() as int) =~= fullp);
        }
        while i < f.params.len()
            invariant
                i <= fullp.len(),
                f.params@ == fullp,
                self@.ordinal == stp.ordinal,
                self@.table.len() >= stp.table.len(),
                spec_params(self@, fullp.subrange(i as int, fullp.len() as int)) == spec_params(
                    stp,
                    fullp,
                ),
            decreases fullp.len() - i,
        {
            let ghost tail = fullp.subrange(i as int, fullp.len() as int);
            proof {
                assert(tail[0] == fullp[i as int]);
                assert(tail.drop_first() =~= fullp.subrange(i as int + 1, fullp.len() as int));
            }
            match self.id_decl(&f.params[i], Kind::Parameter, 1) {
                Ok(u) => {},
                Err(er) => {
                    return Err(er);
                },
            }
            i = i + 1;
        }
        proof {
            assert(fullp.subrange(fullp.len() as int, fullp.len() as int) =~= Seq::<
                IdDecl,
            >::empty());
        }
        match self.body(&f.body) {
            Ok(u) => {},
            Err(er) => {
                return Err(er);
            },
        }
        let len_now = self.symbols.len();
        proof {
            let st1 = stp;
            let st2 = (match spec_params(st1, f.params@) {
                Ok(s) => s,
                Err(_) => st1,
            });
            lemma_params_prefix(st1, f.params@);
            lemma_body_prefix(st2, f.body@);
            assert(st1.table.len() == mark + 1);
            assert(len_now >= mark + 1);
            assert(self@.table.subrange(0, mark + 1) =~= st2.table.subrange(0, mark + 1));
            assert(st2.table.subrange(0, mark + 1) =~= st1.table);
        }
        self.symbols.truncate(mark + 1);
        self.ordinal = 1;
        proof {
            assert(self@.table =~= stp.table);
        }
        Ok(())
    }

    /// The top-level driver: analyze every function definition, then demand
    /// an entry point named `main`.
    #[verifier::loop_isolation(false)]
    pub fn code_gen(&mut self, program: &Program) -> (r: Result<(), Error>)
        requires
            old(self)@ == init_state(),
            wf_program(*program),
        ensures
            spec_of_result(r) == spec_analysis(*program),
    {
        let ghost full = program.functions@;
        let mut i: usize = 0;
        proof {
            assert(full.subrange(0, full.len() as int) =~= full);
        }
        while i < program.functions.len()
            invariant
                i <= full.len(),
                program.functions@ == full,
                wf_program(*program),
                self@.ordinal == 1,
                spec_functions(self@, full.subrange(i as int, full.len() as int))
                    == spec_functions(init_state(), full),
            decreases full.len() - i,
        {
            let ghost tail = full.subrange(i as int, full.len() as int);
            proof {
                assert(tail[0] == full[i as int]);
                assert(tail.drop_first() =~= full.subrange(i as int + 1, full.len() as int));
            }
            match self.function(&program.functions[i]) {
                Ok(u) => {},
                Err(er) => {
                    return Err(er);
                },
            }
            i = i + 1;
        }
        proof {
            assert(full.subrange(full.len() as int, full.len() as int) =~= Seq::<
                Function,
            >::empty());
        }
        if self.symbols.lookup("main", KindSet::functions()).is_some() {
            Ok(())
        } else {
            Err(Error::MissingEntryPoint)
        }
    }
}

/// Checking one statement never discards table entries: the old table stays
/// as a prefix.
pub proof fn lemma_stmt_prefix(st: SpecState, s: Stmt)
    ensures
        spec_stmt(st, s) matches Ok(r) ==> st.table.len() <= r.table.len() && r.table.subrange(
            0,
            st.table.len() as int,
        ) == st.table,
{
    match s {
        Stmt::Variable(d) => {
            match spec_stmt(st, s) {
                Ok(r) => {
                    assert(r.table.subrange(0, st.table.len() as int) =~= st.table);
                },
                Err(_) => {},
            }
        },
        Stmt::Assignment(a) => {
            lemma_num_exp_frame(st, a.rhs);
            match spec_stmt(st, s) {
                Ok(r) => {},
                Err(_) => {},
            }
        },
        _ => {
            match spec_stmt(st, s) {
                Ok(r) => {
                    assert(r.table.subrange(0, st.table.len() as int) =~= st.table);
                },
                Err(_) => {},
            }
        },
    }
}

/// Walking a body never discards table entries.
pub proof fn lemma_body_prefix(st: SpecState, stmts: Seq<Stmt>)
    ensures
        spec_body(st, stmts) matches Ok(r) ==> st.table.len() <= r.table.len()
            && r.table.subrange(0, st.table.len() as int) == st.table,
    decreases stmts.len(),
{
    if stmts.len() == 0 {
        assert(st.table.subrange(0, st.table.len() as int) =~= st.table);
    } else {
        lemma_stmt_prefix(st, stmts[0]);
        match spec_stmt(st, stmts[0]) {
            Ok(st1) => {
                lemma_body_prefix(st1, stmts.drop_first());
                match spec_body(st1, stmts.drop_first()) {
                    Ok(r) => {
                        assert(r.table.subrange(0, st.table.len() as int) =~= st1.table.subrange(
                            0,
                            st.table.len() as int,
                        ));
                    },
                    Err(_) => {},
                }
            },
            Err(_) => {},
        }
    }
}

/// Declaring parameters never discards table entries.
pub proof fn lemma_params_prefix(st: SpecState, params: Seq<IdDecl>)
    ensures
        spec_params(st, params) matches Ok(r) ==> st.table.len() <= r.table.len()
            && r.table.subrange(0, st.table.len() as int) == st.table,
    decreases params.len(),
{
    if params.len() == 0 {
        assert(st.table.subrange(0, st.table.len() as int) =~= st.table);
    } else {
        match spec_id_decl(st, params[0], Kind::Parameter, 1) {
            Ok(st1) => {
                assert(st1.table.subrange(0, st.table.len() as int) =~= st.table);
                lemma_params_prefix(st1, params.drop_first());
                match spec_params(st1, params.drop_first()) {
                    Ok(r) => {
                        assert(r.table.subrange(0, st.table.len() as int) =~= st1.table.subrange(
                            0,
                            st.table.len() as int,
                        ));
                    },
                    Err(_) => {},
                }
            },
            Err(_) => {},
        }
    }
}

} // verus!
