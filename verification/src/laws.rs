//! The laws the analysis obeys, stated over the mirror in `analyzer` and
//! proved once and for all: what the table looks like after a function,
//! that a missing entry point always fails, that redefinitions and
//! undeclared references are always rejected, how assignments type-check,
//! how literals are typed, and that a function's locals stay invisible to
//! later functions.

use vstd::prelude::*;

use crate::ast::{Assignment, Exp, Function, FunctionCall, IdDecl, Literal, NumExp, Program, Stmt};
use crate::symtab::{Kind, KindSet, SpecSymbol, Type, lemma_lookup_some_iff_match, spec_lookup,
    sym_match};
use crate::analyzer::{SpecError, SpecState, decl_symbol, extends_with_literals, init_state,
    lemma_num_exp_frame, lemma_params_prefix, lemma_stmt_prefix, lit_type, spec_analysis,
    spec_assignment, spec_body, spec_exp, spec_exp_chain, spec_function, spec_function_call,
    spec_functions, spec_id_decl, spec_literal, spec_num_exp, spec_params, spec_resolve, spec_stmt};

verus! {

/// The symbol a function definition leaves in the global scope.
pub open spec fn fun_symbol(f: Function) -> SpecSymbol {
    decl_symbol(f.decl, Kind::Function, 0)
}

/// The symbol a parameter declaration pushes.
pub open spec fn par_symbol(d: IdDecl) -> SpecSymbol {
    decl_symbol(d, Kind::Parameter, 1)
}

/// A successful function analysis leaves exactly one trace: the function's
/// own symbol appended to the table it started from; every parameter, local
/// and literal of the function is gone, and the ordinal counter is reset.
pub proof fn lemma_function_shape(st: SpecState, f: Function)
    ensures
        spec_function(st, f) matches Ok(r) ==> r.table == st.table.push(fun_symbol(f))
            && r.ordinal == 1,
{
    let mark = st.table.len() as int;
    match spec_id_decl(st, f.decl, Kind::Function, 0) {
        Ok(st1) => {
            lemma_params_prefix(st1, f.params@);
            match spec_params(st1, f.params@) {
                Ok(st2) => {
                    crate::analyzer::lemma_body_prefix(st2, f.body@);
                    match spec_body(st2, f.body@) {
                        Ok(st3) => {
                            assert forall|i: int| 0 <= i < mark + 1 implies st3.table[i]
                                == st1.table[i] by {
                                assert(st2.table[i] == st2.table.subrange(0, mark + 1)[i]);
                                assert(st3.table[i] == st3.table.subrange(
                                    0,
                                    st2.table.len() as int,
                                )[i]);
                            }
                            assert(st3.table.subrange(0, mark + 1) =~= st.table.push(
                                fun_symbol(f),
                            ));
                        },
                        Err(_) => {},
                    }
                },
                Err(_) => {},
            }
        },
        Err(_) => {},
    }
}

/// A successful pass over a list of function definitions appends exactly
/// their symbols, in order.
pub proof fn lemma_functions_shape(st: SpecState, funs: Seq<Function>)
    ensures
        spec_functions(st, funs) matches Ok(r) ==> r.table == st.table + funs.map_values(
            |f: Function| fun_symbol(f),
        ),
    decreases funs.len(),
{
    if funs.len() == 0 {
        match spec_functions(st, funs) {
            Ok(r) => {
                assert(r.table =~= st.table + funs.map_values(|f: Function| fun_symbol(f)));
            },
            Err(_) => {},
        }
    } else {
        lemma_function_shape(st, funs[0]);
        match spec_function(st, funs[0]) {
            Ok(st1) => {
                lemma_functions_shape(st1, funs.drop_first());
                match spec_functions(st1, funs.drop_first()) {
                    Ok(r) => {
                        assert(r.table =~= st.table + funs.map_values(
                            |f: Function| fun_symbol(f),
                        ));
                    },
                    Err(_) => {},
                }
            },
            Err(_) => {},
        }
    }
}

/// Successful parameter declaration appends exactly the parameters'
/// symbols, in order.
pub proof fn lemma_params_shape(st: SpecState, params: Seq<IdDecl>)
    ensures
        spec_params(st, params) matches Ok(r) ==> r.table == st.table + params.map_values(
            |d: IdDecl| par_symbol(d),
        ) && r.ordinal == st.ordinal,
    decreases params.len(),
{
    if params.len() == 0 {
        match spec_params(st, params) {
            Ok(r) => {
                assert(r.table =~= st.table + params.map_values(|d: IdDecl| par_symbol(d)));
            },
            Err(_) => {},
        }
    } else {
        match spec_id_decl(st, params[0], Kind::Parameter, 1) {
            Ok(st1) => {
                lemma_params_shape(st1, params.drop_first());
                match spec_params(st1, params.drop_first()) {
                    Ok(r) => {
                        assert(r.table =~= st.table + params.map_values(
                            |d: IdDecl| par_symbol(d),
                        ));
                    },
                    Err(_) => {},
                }
            },
            Err(_) => {},
        }
    }
}

/// If no top-level function is named `main`, analysis never succeeds; and
/// whenever every function definition itself passes, the reported error is
/// precisely the missing entry point.
pub proof fn lemma_missing_entry_point(p: Program)
    requires
        forall|i: int|
            0 <= i < p.functions@.len() ==> (#[trigger] p.functions@[i]).decl.name@ != "main"@,
    ensures
        spec_analysis(p) is Err,
        spec_functions(init_state(), p.functions@) is Ok ==> spec_analysis(p) == Err::<
            (),
            SpecError,
        >(SpecError::MissingEntryPoint),
{
    match spec_functions(init_state(), p.functions@) {
        Ok(st) => {
            lemma_functions_shape(init_state(), p.functions@);
            lemma_lookup_some_iff_match(st.table, "main"@, KindSet::spec_functions());
            if spec_lookup(st.table, "main"@, KindSet::spec_functions()) is Some {
                let i = choose|i: int|
                    0 <= i < st.table.len() && sym_match(
                        st.table[i],
                        "main"@,
                        KindSet::spec_functions(),
                    );
                assert(st.table[i] == fun_symbol(p.functions@[i]));
                assert(false);
            }
        },
        Err(_) => {},
    }
}

/// Scope isolation: a name not visible as a parameter or variable before a
/// function is analyzed is still not visible as one afterwards — in
/// particular every local of that function is gone while any later function
/// is analyzed.
pub proof fn lemma_scope_isolation(st: SpecState, f: Function, name: Seq<char>)
    requires
        spec_function(st, f) is Ok,
        spec_lookup(st.table, name, KindSet::spec_values()) is None,
    ensures
        spec_lookup(
            (spec_function(st, f)->Ok_0).table,
            name,
            KindSet::spec_values(),
        ) is None,
{
    lemma_function_shape(st, f);
    let t = st.table.push(fun_symbol(f));
    assert(!sym_match(t.last(), name, KindSet::spec_values()));
    assert(t.drop_last() =~= st.table);
}

/// Assignment type checking: once both sides resolve, the statement is
/// accepted exactly when the left-hand symbol's declared type equals the
/// right-hand expression's resolved type, and a mismatch is reported as
/// incompatible types.
pub proof fn lemma_assignment_type_check(st: SpecState, a: Assignment)
    requires
        spec_resolve(st, a.lhs@, KindSet::spec_values()) is Ok,
        spec_num_exp(st, a.rhs) is Ok,
    ensures
        spec_assignment(st, a) is Ok <==> (spec_resolve(st, a.lhs@, KindSet::spec_values())->Ok_0).s_type
            == (spec_num_exp(st, a.rhs)->Ok_0).1.s_type,
        (spec_resolve(st, a.lhs@, KindSet::spec_values())->Ok_0).s_type != (spec_num_exp(
            st,
            a.rhs,
        )->Ok_0).1.s_type ==> spec_assignment(st, a) == Err::<SpecState, SpecError>(
            SpecError::IncompatibleTypes,
        ),
{
}

/// Literal typing: a literal's resolved type depends on its lexical form
/// alone — plain tokens are `Int`, unsigned-suffixed ones `Unsigned` — in
/// any state, independent of surrounding expression context.
pub proof fn lemma_literal_typing(st: SpecState, l: Literal)
    ensures
        spec_literal(st, l).1.s_type == lit_type(l.form),
        spec_literal(st, l).1.s_type == Type::Int <==> l.form
            == crate::ast::LitForm::Plain,
        spec_literal(st, l).1.s_type == Type::Unsigned <==> l.form
            == crate::ast::LitForm::Unsigned,
{
}

/// If some visible function symbol already carries the name of the `j`-th
/// definition in the list, the pass over the list fails.
proof fn lemma_function_redeclared(st: SpecState, funs: Seq<Function>, j: int)
    requires
        0 <= j < funs.len(),
        exists|k: int|
            0 <= k < st.table.len() && sym_match(
                #[trigger] st.table[k],
                funs[j].decl.name@,
                KindSet::spec_functions(),
            ),
    ensures
        spec_functions(st, funs) is Err,
    decreases funs.len(),
{
    if j == 0 {
        lemma_lookup_some_iff_match(st.table, funs[0].decl.name@, KindSet::spec_functions());
    } else {
        lemma_lookup_some_iff_match(st.table, funs[0].decl.name@, KindSet::spec_functions());
        lemma_function_shape(st, funs[0]);
        match spec_function(st, funs[0]) {
            Ok(st1) => {
                let k = choose|k: int|
                    0 <= k < st.table.len() && sym_match(
                        #[trigger] st.table[k],
                        funs[j].decl.name@,
                        KindSet::spec_functions(),
                    );
                assert(st1.table[k] == st.table[k]);
                assert(sym_match(
                    st1.table[k],
                    funs.drop_first()[j - 1].decl.name@,
                    KindSet::spec_functions(),
                ));
                lemma_function_redeclared(st1, funs.drop_first(), j - 1);
            },
            Err(_) => {},
        }
    }
}

/// Two top-level functions sharing one name are a redefinition: analysis of
/// the whole program never succeeds.
pub proof fn lemma_duplicate_function_rejected(p: Program, i: int, j: int)
    requires
        0 <= i < j < p.functions@.len(),
        p.functions@[i].decl.name@ == p.functions@[j].decl.name@,
    ensures
        spec_analysis(p) is Err,
{
    lemma_funs_dup(init_state(), p.functions@, i, j);
}

/// If the definitions before the `j`-th all pass and the `j`-th then
/// fails, its error is the whole pass's error.
proof fn lemma_error_at(st: SpecState, funs: Seq<Function>, j: int)
    requires
        0 <= j < funs.len(),
        spec_functions(st, funs.take(j)) is Ok,
    ensures
        spec_function(spec_functions(st, funs.take(j))->Ok_0, funs[j]) matches Err(e)
            ==> spec_functions(st, funs) == Err::<SpecState, SpecError>(e),
    decreases j,
{
    if j == 0 {
        assert(funs.take(0) =~= Seq::<Function>::empty());
    } else {
        assert(funs.take(j)[0] == funs[0]);
        match spec_function(st, funs[0]) {
            Ok(st1) => {
                assert(funs.take(j).drop_first() =~= funs.drop_first().take(j - 1));
                lemma_error_at(st1, funs.drop_first(), j - 1);
            },
            Err(_) => {},
        }
    }
}

/// The exact shape of the function-redefinition failure: when every
/// definition before the `j`-th passes and an earlier one bears the same
/// name, the analysis reports precisely a redefinition naming it.
pub proof fn lemma_duplicate_function_error(p: Program, i: int, j: int)
    requires
        0 <= i < j < p.functions@.len(),
        p.functions@[i].decl.name@ == p.functions@[j].decl.name@,
        spec_functions(init_state(), p.functions@.take(j)) is Ok,
    ensures
        spec_analysis(p) == Err::<(), SpecError>(
            SpecError::Redefinition(p.functions@[j].decl.name@),
        ),
{
    let funs = p.functions@;
    let stj = spec_functions(init_state(), funs.take(j))->Ok_0;
    lemma_functions_shape(init_state(), funs.take(j));
    assert(stj.table[i] == funs.take(j).map_values(|f: Function| fun_symbol(f))[i]);
    assert(sym_match(stj.table[i], funs[j].decl.name@, KindSet::spec_functions()));
    lemma_lookup_some_iff_match(stj.table, funs[j].decl.name@, KindSet::spec_functions());
    assert(spec_function(stj, funs[j]) == Err::<SpecState, SpecError>(
        SpecError::Redefinition(funs[j].decl.name@),
    ));
    lemma_error_at(init_state(), funs, j);
}

/// As [`lemma_duplicate_function_rejected`], from any starting state.
proof fn lemma_funs_dup(st: SpecState, funs: Seq<Function>, i: int, j: int)
    requires
        0 <= i < j < funs.len(),
        funs[i].decl.name@ == funs[j].decl.name@,
    ensures
        spec_functions(st, funs) is Err,
    decreases i,
{
    lemma_function_shape(st, funs[0]);
    match spec_function(st, funs[0]) {
        Ok(st1) => {
            if i == 0 {
                assert(st1.table[st.table.len() as int] == fun_symbol(funs[0]));
                assert(sym_match(
                    st1.table[st.table.len() as int],
                    funs.drop_first()[j - 1].decl.name@,
                    KindSet::spec_functions(),
                ));
                lemma_function_redeclared(st1, funs.drop_first(), j - 1);
            } else {
                lemma_funs_dup(st1, funs.drop_first(), i - 1, j - 1);
            }
        },
        Err(_) => {},
    }
}

/// If some visible parameter or variable symbol already carries the name of
/// the `j`-th parameter in the list, declaring the parameters fails.
proof fn lemma_param_redeclared(st: SpecState, params: Seq<IdDecl>, j: int)
    requires
        0 <= j < params.len(),
        exists|k: int|
            0 <= k < st.table.len() && sym_match(
                #[trigger] st.table[k],
                params[j].name@,
                KindSet::spec_values(),
            ),
    ensures
        spec_params(st, params) is Err,
    decreases params.len(),
{
    if j == 0 {
        lemma_lookup_some_iff_match(st.table, params[0].name@, KindSet::spec_values());
    } else {
        match spec_id_decl(st, params[0], Kind::Parameter, 1) {
            Ok(st1) => {
                let k = choose|k: int|
                    0 <= k < st.table.len() && sym_match(
                        #[trigger] st.table[k],
                        params[j].name@,
                        KindSet::spec_values(),
                    );
                assert(st1.table[k] == st.table[k]);
                assert(sym_match(
                    st1.table[k],
                    params.drop_first()[j - 1].name@,
                    KindSet::spec_values(),
                ));
                lemma_param_redeclared(st1, params.drop_first(), j - 1);
            },
            Err(_) => {},
        }
    }
}

/// If some visible parameter or variable symbol already carries the name
/// declared by the `k`-th statement, which is a variable declaration, the
/// body walk fails.
proof fn lemma_local_redeclared(st: SpecState, stmts: Seq<Stmt>, k: int)
    requires
        0 <= k < stmts.len(),
        stmts[k] is Variable,
        exists|x: int|
            0 <= x < st.table.len() && sym_match(
                #[trigger] st.table[x],
                (stmts[k]->Variable_0).name@,
                KindSet::spec_values(),
            ),
    ensures
        spec_body(st, stmts) is Err,
    decreases k,
{
    if k == 0 {
        lemma_lookup_some_iff_match(st.table, (stmts[0]->Variable_0).name@, KindSet::spec_values());
    } else {
        lemma_stmt_prefix(st, stmts[0]);
        match spec_stmt(st, stmts[0]) {
            Ok(st1) => {
                let x = choose|x: int|
                    0 <= x < st.table.len() && sym_match(
                        #[trigger] st.table[x],
                        (stmts[k]->Variable_0).name@,
                        KindSet::spec_values(),
                    );
                assert(st1.table[x] == st1.table.subrange(0, st.table.len() as int)[x]);
                assert(sym_match(
                    st1.table[x],
                    (stmts.drop_first()[k - 1]->Variable_0).name@,
                    KindSet::spec_values(),
                ));
                lemma_local_redeclared(st1, stmts.drop_first(), k - 1);
            },
            Err(_) => {},
        }
    }
}

/// Two parameters of one function sharing a name are a redefinition: the
/// function's analysis never succeeds.
pub proof fn lemma_duplicate_parameter_rejected(st: SpecState, f: Function, i: int, j: int)
    requires
        0 <= i < j < f.params@.len(),
        f.params@[i].name@ == f.params@[j].name@,
    ensures
        spec_function(st, f) is Err,
{
    match spec_id_decl(st, f.decl, Kind::Function, 0) {
        Ok(st1) => {
            lemma_params_dup(st1, f.params@, i, j);
        },
        Err(_) => {},
    }
}

/// As [`lemma_duplicate_parameter_rejected`], over the parameter list.
proof fn lemma_params_dup(st: SpecState, params: Seq<IdDecl>, i: int, j: int)
    requires
        0 <= i < j < params.len(),
        params[i].name@ == params[j].name@,
    ensures
        spec_params(st, params) is Err,
    decreases i,
{
    match spec_id_decl(st, params[0], Kind::Parameter, 1) {
        Ok(st1) => {
            if i == 0 {
                assert(st1.table[st.table.len() as int] == par_symbol(params[0]));
                assert(sym_match(
                    st1.table[st.table.len() as int],
                    params.drop_first()[j - 1].name@,
                    KindSet::spec_values(),
                ));
                lemma_param_redeclared(st1, params.drop_first(), j - 1);
            } else {
                lemma_params_dup(st1, params.drop_first(), i - 1, j - 1);
            }
        },
        Err(_) => {},
    }
}

/// A local variable declared with the name of one of the function's own
/// parameters is a redefinition: the function's analysis never succeeds.
pub proof fn lemma_parameter_variable_clash_rejected(st: SpecState, f: Function, i: int, k: int)
    requires
        0 <= i < f.params@.len(),
        0 <= k < f.body@.len(),
        f.body@[k] is Variable,
        (f.body@[k]->Variable_0).name@ == f.params@[i].name@,
    ensures
        spec_function(st, f) is Err,
{
    match spec_id_decl(st, f.decl, Kind::Function, 0) {
        Ok(st1) => {
            lemma_params_shape(st1, f.params@);
            match spec_params(st1, f.params@) {
                Ok(st2) => {
                    let x = st1.table.len() + i;
                    assert(st2.table[x as int] == f.params@.map_values(
                        |d: IdDecl| par_symbol(d),
                    )[i]);
                    assert(sym_match(
                        st2.table[x as int],
                        (f.body@[k]->Variable_0).name@,
                        KindSet::spec_values(),
                    ));
                    lemma_local_redeclared(st2, f.body@, k);
                },
                Err(_) => {},
            }
        },
        Err(_) => {},
    }
}

/// Two local variables of one function sharing a name are a redefinition:
/// the function's analysis never succeeds.
pub proof fn lemma_duplicate_variable_rejected(st: SpecState, f: Function, k1: int, k2: int)
    requires
        0 <= k1 < k2 < f.body@.len(),
        f.body@[k1] is Variable,
        f.body@[k2] is Variable,
        (f.body@[k1]->Variable_0).name@ == (f.body@[k2]->Variable_0).name@,
    ensures
        spec_function(st, f) is Err,
{
    match spec_id_decl(st, f.decl, Kind::Function, 0) {
        Ok(st1) => {
            match spec_params(st1, f.params@) {
                Ok(st2) => {
                    lemma_body_var_dup(st2, f.body@, k1, k2);
                },
                Err(_) => {},
            }
        },
        Err(_) => {},
    }
}

/// As [`lemma_duplicate_variable_rejected`], over the statement list.
proof fn lemma_body_var_dup(st: SpecState, stmts: Seq<Stmt>, k1: int, k2: int)
    requires
        0 <= k1 < k2 < stmts.len(),
        stmts[k1] is Variable,
        stmts[k2] is Variable,
        (stmts[k1]->Variable_0).name@ == (stmts[k2]->Variable_0).name@,
    ensures
        spec_body(st, stmts) is Err,
    decreases k1,
{
    match spec_stmt(st, stmts[0]) {
        Ok(st1) => {
            if k1 == 0 {
                assert(st1.table[st.table.len() as int] == decl_symbol(
                    stmts[0]->Variable_0,
                    Kind::Variable,
                    st.ordinal,
                ));
                assert(sym_match(
                    st1.table[st.table.len() as int],
                    (stmts.drop_first()[k2 - 1]->Variable_0).name@,
                    KindSet::spec_values(),
                ));
                lemma_local_redeclared(st1, stmts.drop_first(), k2 - 1);
            } else {
                lemma_body_var_dup(st1, stmts.drop_first(), k1 - 1, k2 - 1);
            }
        },
        Err(_) => {},
    }
}

/// Whether an operand contains a reference — an `id` use or a callee — to
/// the name `n`.
pub open spec fn exp_refs(e: Exp, n: Seq<char>) -> bool
    decreases e,
{
    match e {
        Exp::Call(fc) => call_refs(fc, n),
        Exp::Lit(l) => false,
        Exp::Id(name) => name@ == n,
        Exp::Paren(b) => num_refs(*b, n),
    }
}

/// Whether a call references `n`: as its callee or inside its argument.
pub open spec fn call_refs(fc: FunctionCall, n: Seq<char>) -> bool
    decreases fc,
{
    fc.callee@ == n || (match fc.arg {
        Some(a) => num_refs(*a, n),
        None => false,
    })
}

/// Whether any operand of the list references `n`.
pub open spec fn chain_refs(rest: Seq<Exp>, n: Seq<char>) -> bool
    decreases rest,
{
    rest.len() > 0 && (exp_refs(rest[0], n) || chain_refs(rest.drop_first(), n))
}

/// Whether a numeric expression references `n`.
pub open spec fn num_refs(ne: NumExp, n: Seq<char>) -> bool
    decreases ne,
{
    exp_refs(ne.first, n) || chain_refs(ne.rest@, n)
}

/// Whether a statement references `n`: only assignments do, on either side.
pub open spec fn stmt_refs(s: Stmt, n: Seq<char>) -> bool {
    match s {
        Stmt::Assignment(a) => a.lhs@ == n || num_refs(a.rhs, n),
        _ => false,
    }
}

/// Whether any statement of the body references `n`.
pub open spec fn body_refs(stmts: Seq<Stmt>, n: Seq<char>) -> bool
    decreases stmts.len(),
{
    stmts.len() > 0 && (stmt_refs(stmts[0], n) || body_refs(stmts.drop_first(), n))
}

/// Whether some statement of the body declares a local variable named `n`.
pub open spec fn declares_local(stmts: Seq<Stmt>, n: Seq<char>) -> bool {
    exists|k: int|
        0 <= k < stmts.len() && #[trigger] stmts[k] is Variable && (stmts[k]->Variable_0).name@
            == n
}

/// The kinds a declaration can give a name: what a reference of any sort
/// could resolve against.
pub open spec fn declared_mask() -> KindSet {
    KindSet { register: false, function: true, parameter: true, variable: true, literal: false }
}

/// No table entry declares the name `n`: literal entries are allowed to
/// carry it, since no lookup mask used for references matches them.
pub open spec fn undeclared_in(t: Seq<SpecSymbol>, n: Seq<char>) -> bool {
    forall|i: int| 0 <= i < t.len() ==> !sym_match(#[trigger] t[i], n, declared_mask())
}

/// Expression evaluation only registers literals, so it cannot make an
/// undeclared name declared.
proof fn lemma_undeclared_extends(t0: Seq<SpecSymbol>, t1: Seq<SpecSymbol>, n: Seq<char>)
    requires
        extends_with_literals(t0, t1),
        undeclared_in(t0, n),
    ensures
        undeclared_in(t1, n),
{
    assert forall|i: int| 0 <= i < t1.len() implies !sym_match(
        #[trigger] t1[i],
        n,
        declared_mask(),
    ) by {
        if i < t0.len() {
            assert(t1[i] == t1.subrange(0, t0.len() as int)[i]);
        }
    }
}

/// An operand that references an undeclared name never evaluates
/// successfully.
proof fn lemma_exp_undeclared(st: SpecState, e: Exp, n: Seq<char>)
    requires
        undeclared_in(st.table, n),
        exp_refs(e, n),
    ensures
        spec_exp(st, e) is Err,
    decreases e,
{
    match e {
        Exp::Call(fc) => lemma_call_undeclared(st, fc, n),
        Exp::Lit(l) => {},
        Exp::Id(name) => {
            lemma_lookup_some_iff_match(st.table, n, KindSet::spec_values());
            if spec_lookup(st.table, n, KindSet::spec_values()) is Some {
                let k = choose|k: int|
                    0 <= k < st.table.len() && sym_match(st.table[k], n, KindSet::spec_values());
                assert(sym_match(st.table[k], n, declared_mask()));
            }
        },
        Exp::Paren(b) => lemma_num_undeclared(st, *b, n),
    }
}

/// As [`lemma_exp_undeclared`], for the operands after the first.
proof fn lemma_chain_undeclared(st: SpecState, first: SpecSymbol, rest: Seq<Exp>, n: Seq<char>)
    requires
        undeclared_in(st.table, n),
        chain_refs(rest, n),
    ensures
        spec_exp_chain(st, first, rest) is Err,
    decreases rest,
{
    if exp_refs(rest[0], n) {
        lemma_exp_undeclared(st, rest[0], n);
    } else {
        lemma_exp_extends(st, rest[0]);
        match spec_exp(st, rest[0]) {
            Ok(r) => {
                if first.s_type == r.1.s_type {
                    lemma_undeclared_extends(st.table, r.0.table, n);
                    lemma_chain_undeclared(r.0, first, rest.drop_first(), n);
                }
            },
            Err(_) => {},
        }
    }
}

/// As [`lemma_exp_undeclared`], for a whole numeric expression.
proof fn lemma_num_undeclared(st: SpecState, ne: NumExp, n: Seq<char>)
    requires
        undeclared_in(st.table, n),
        num_refs(ne, n),
    ensures
        spec_num_exp(st, ne) is Err,
    decreases ne,
{
    if exp_refs(ne.first, n) {
        lemma_exp_undeclared(st, ne.first, n);
    } else {
        lemma_exp_extends(st, ne.first);
        match spec_exp(st, ne.first) {
            Ok(r) => {
                lemma_undeclared_extends(st.table, r.0.table, n);
                lemma_chain_undeclared(r.0, r.1, ne.rest@, n);
            },
            Err(_) => {},
        }
    }
}

/// As [`lemma_exp_undeclared`], for a function call.
proof fn lemma_call_undeclared(st: SpecState, fc: FunctionCall, n: Seq<char>)
    requires
        undeclared_in(st.table, n),
        call_refs(fc, n),
    ensures
        spec_function_call(st, fc) is Err,
    decreases fc,
{
    if fc.callee@ == n {
        lemma_lookup_some_iff_match(st.table, n, KindSet::spec_functions());
        if spec_lookup(st.table, n, KindSet::spec_functions()) is Some {
            let k = choose|k: int|
                0 <= k < st.table.len() && sym_match(st.table[k], n, KindSet::spec_functions());
            assert(sym_match(st.table[k], n, declared_mask()));
        }
    } else {
        match spec_resolve(st, fc.callee@, KindSet::spec_functions()) {
            Ok(fun) => {
                match fc.arg {
                    Some(a) => lemma_num_undeclared(st, *a, n),
                    None => {},
                }
            },
            Err(_) => {},
        }
    }
}

/// Frame fact for one operand: on success the table is only extended with
/// literal entries.
proof fn lemma_exp_extends(st: SpecState, e: Exp)
    ensures
        spec_exp(st, e) matches Ok(r) ==> extends_with_literals(st.table, r.0.table),
{
    crate::analyzer::lemma_exp_frame(st, e);
}

/// A statement that references an undeclared name never checks
/// successfully.
proof fn lemma_stmt_undeclared(st: SpecState, s: Stmt, n: Seq<char>)
    requires
        undeclared_in(st.table, n),
        stmt_refs(s, n),
    ensures
        spec_stmt(st, s) is Err,
{
    match s {
        Stmt::Assignment(a) => {
            if a.lhs@ == n {
                lemma_lookup_some_iff_match(st.table, n, KindSet::spec_values());
                if spec_lookup(st.table, n, KindSet::spec_values()) is Some {
                    let k = choose|k: int|
                        0 <= k < st.table.len() && sym_match(
                            st.table[k],
                            n,
                            KindSet::spec_values(),
                        );
                    assert(sym_match(st.table[k], n, declared_mask()));
                }
            } else {
                match spec_resolve(st, a.lhs@, KindSet::spec_values()) {
                    Ok(lhs) => lemma_num_undeclared(st, a.rhs, n),
                    Err(_) => {},
                }
            }
        },
        _ => {},
    }
}

/// A statement that does not declare `n` keeps `n` undeclared.
proof fn lemma_stmt_preserves_undeclared(st: SpecState, s: Stmt, n: Seq<char>)
    requires
        undeclared_in(st.table, n),
        s is Variable ==> (s->Variable_0).name@ != n,
    ensures
        spec_stmt(st, s) matches Ok(r) ==> undeclared_in(r.table, n),
{
    match s {
        Stmt::Variable(d) => {
            match spec_stmt(st, s) {
                Ok(r) => {
                    assert forall|i: int| 0 <= i < r.table.len() implies !sym_match(
                        #[trigger] r.table[i],
                        n,
                        declared_mask(),
                    ) by {
                        if i < st.table.len() {
                            assert(r.table[i] == st.table[i]);
                        } else {
                            assert(r.table[i] == decl_symbol(d, Kind::Variable, st.ordinal));
                        }
                    }
                },
                Err(_) => {},
            }
        },
        Stmt::Assignment(a) => {
            lemma_num_exp_frame(st, a.rhs);
            match spec_stmt(st, s) {
                Ok(r) => {
                    lemma_undeclared_extends(st.table, r.table, n);
                },
                Err(_) => {},
            }
        },
        _ => {},
    }
}

/// A body that references `n` while never declaring it fails, as long as
/// `n` was undeclared when the body walk began.
proof fn lemma_body_undeclared(st: SpecState, stmts: Seq<Stmt>, n: Seq<char>)
    requires
        undeclared_in(st.table, n),
        body_refs(stmts, n),
        !declares_local(stmts, n),
    ensures
        spec_body(st, stmts) is Err,
    decreases stmts.len(),
{
    assert(!(stmts[0] is Variable && (stmts[0]->Variable_0).name@ == n));
    if stmt_refs(stmts[0], n) {
        lemma_stmt_undeclared(st, stmts[0], n);
    } else {
        lemma_stmt_preserves_undeclared(st, stmts[0], n);
        match spec_stmt(st, stmts[0]) {
            Ok(st1) => {
                assert(!declares_local(stmts.drop_first(), n)) by {
                    if declares_local(stmts.drop_first(), n) {
                        let k = choose|k: int|
                            0 <= k < stmts.drop_first().len() && #[trigger] stmts.drop_first()[k]
                                is Variable && (stmts.drop_first()[k]->Variable_0).name@ == n;
                        assert(stmts[k + 1] is Variable && (stmts[k + 1]->Variable_0).name@ == n);
                    }
                }
                lemma_body_undeclared(st1, stmts.drop_first(), n);
            },
            Err(_) => {},
        }
    }
}

/// Parameters whose names all differ from `n` keep `n` undeclared.
proof fn lemma_params_preserve_undeclared(st: SpecState, params: Seq<IdDecl>, n: Seq<char>)
    requires
        undeclared_in(st.table, n),
        forall|i: int| 0 <= i < params.len() ==> (#[trigger] params[i]).name@ != n,
    ensures
        spec_params(st, params) matches Ok(r) ==> undeclared_in(r.table, n),
{
    lemma_params_shape(st, params);
    match spec_params(st, params) {
        Ok(r) => {
            assert forall|i: int| 0 <= i < r.table.len() implies !sym_match(
                #[trigger] r.table[i],
                n,
                declared_mask(),
            ) by {
                if i >= st.table.len() {
                    assert(r.table[i] == par_symbol(params[i - st.table.len()]));
                }
            }
        },
        Err(_) => {},
    }
}

/// A function whose body references a name that nothing visible declares —
/// not an enclosing declaration, not the function itself, none of its
/// parameters, no local — never analyzes successfully.
pub proof fn lemma_undeclared_reference_in_function(st: SpecState, f: Function, n: Seq<char>)
    requires
        undeclared_in(st.table, n),
        f.decl.name@ != n,
        forall|i: int| 0 <= i < f.params@.len() ==> (#[trigger] f.params@[i]).name@ != n,
        !declares_local(f.body@, n),
        body_refs(f.body@, n),
    ensures
        spec_function(st, f) is Err,
{
    match spec_id_decl(st, f.decl, Kind::Function, 0) {
        Ok(st1) => {
            assert forall|i: int| 0 <= i < st1.table.len() implies !sym_match(
                #[trigger] st1.table[i],
                n,
                declared_mask(),
            ) by {
                if i < st.table.len() {
                    assert(st1.table[i] == st.table[i]);
                } else {
                    assert(st1.table[i] == decl_symbol(f.decl, Kind::Function, 0));
                }
            }
            lemma_params_preserve_undeclared(st1, f.params@, n);
            match spec_params(st1, f.params@) {
                Ok(st2) => {
                    lemma_body_undeclared(st2, f.body@, n);
                },
                Err(_) => {},
            }
        },
        Err(_) => {},
    }
}

/// Declaration-before-use at the whole-program level: if the `i`-th
/// function's body references a name that no function up to and including
/// itself bears, that none of its parameters bears, and that none of its
/// locals declares, the analysis of the program never succeeds.
pub proof fn lemma_undeclared_reference(p: Program, i: int, n: Seq<char>)
    requires
        0 <= i < p.functions@.len(),
        body_refs(p.functions@[i].body@, n),
        forall|j: int| 0 <= j <= i ==> (#[trigger] p.functions@[j]).decl.name@ != n,
        forall|j: int|
            0 <= j < p.functions@[i].params@.len() ==> (#[trigger] p.functions@[i].params@[j]).name@
                != n,
        !declares_local(p.functions@[i].body@, n),
    ensures
        spec_analysis(p) is Err,
{
    lemma_funs_undeclared(init_state(), p.functions@, i, n);
}

/// As [`lemma_undeclared_reference`], from any starting state in which `n`
/// is undeclared.
proof fn lemma_funs_undeclared(st: SpecState, funs: Seq<Function>, i: int, n: Seq<char>)
    requires
        undeclared_in(st.table, n),
        0 <= i < funs.len(),
        body_refs(funs[i].body@, n),
        forall|j: int| 0 <= j <= i ==> (#[trigger] funs[j]).decl.name@ != n,
        forall|j: int| 0 <= j < funs[i].params@.len() ==> (#[trigger] funs[i].params@[j]).name@ != n,
        !declares_local(funs[i].body@, n),
    ensures
        spec_functions(st, funs) is Err,
    decreases i,
{
    if i == 0 {
        lemma_undeclared_reference_in_function(st, funs[0], n);
    } else {
        lemma_function_shape(st, funs[0]);
        match spec_function(st, funs[0]) {
            Ok(st1) => {
                assert forall|x: int| 0 <= x < st1.table.len() implies !sym_match(
                    #[trigger] st1.table[x],
                    n,
                    declared_mask(),
                ) by {
                    if x < st.table.len() {
                        assert(st1.table[x] == st.table[x]);
                    } else {
                        assert(st1.table[x] == fun_symbol(funs[0]));
                    }
                }
                lemma_funs_undeclared(st1, funs.drop_first(), i - 1, n);
            },
            Err(_) => {},
        }
    }
}

} // verus!
