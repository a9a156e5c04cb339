//! The symbol table: an ordered sequence of symbols acting as a single
//! global stack. Function scopes are suffixes of the same sequence, entered
//! by recording the current length and exited by truncating back to it.

use vstd::prelude::*;

verus! {

/// What a symbol stands for. Lookups match a symbol against a set of kinds
/// ([`KindSet`]), so one primitive serves both "resolve as a function" and
/// "resolve as a variable or parameter".
#[derive(Copy, Clone, Debug, PartialEq, Eq, Structural)]
pub enum Kind {
    Register,
    Function,
    Parameter,
    Variable,
    Literal,
}

/// One of the two primitive types of the language.
#[derive(Copy, Clone, Debug, PartialEq, Eq, Structural)]
pub enum Type {
    Int,
    Unsigned,
}

impl Type {
    /// The type a type-annotation token denotes, if any.
    pub open spec fn spec_of_token(s: Seq<char>) -> Option<Type> {
        if s == "int"@ {
            Some(Type::Int)
        } else if s == "unsigned"@ {
            Some(Type::Unsigned)
        } else {
            None
        }
    }

    /// Parses a type-annotation token: `int` or `unsigned`.
    pub fn from_str(s: &str) -> (r: Option<Type>)
        ensures
            r == Type::spec_of_token(s@),
    {
        if str_eq(s, "int") {
            Some(Type::Int)
        } else if str_eq(s, "unsigned") {
            Some(Type::Unsigned)
        } else {
            None
        }
    }
}

/// A set of symbol kinds, used as the mask of a lookup: the lookup returns
/// the most recent symbol whose kind is a member of the set.
#[derive(Copy, Clone, Debug, PartialEq, Eq, Structural)]
pub struct KindSet {
    pub register: bool,
    pub function: bool,
    pub parameter: bool,
    pub variable: bool,
    pub literal: bool,
}

impl KindSet {
    /// Membership of one kind in the set.
    pub open spec fn spec_has(self, k: Kind) -> bool {
        match k {
            Kind::Register => self.register,
            Kind::Function => self.function,
            Kind::Parameter => self.parameter,
            Kind::Variable => self.variable,
            Kind::Literal => self.literal,
        }
    }

    /// Tests whether `k` is a member of the set.
    pub fn has(self, k: Kind) -> (r: bool)
        ensures
            r == self.spec_has(k),
    {
        match k {
            Kind::Register => self.register,
            Kind::Function => self.function,
            Kind::Parameter => self.parameter,
            Kind::Variable => self.variable,
            Kind::Literal => self.literal,
        }
    }

    /// The set holding `Function` alone: the mask for resolving a callee or
    /// for checking a function declaration against earlier ones.
    pub open spec fn spec_functions() -> KindSet {
        KindSet {
            register: false,
            function: true,
            parameter: false,
            variable: false,
            literal: false,
        }
    }

    /// The set holding `Parameter` and `Variable`: the mask for resolving a
    /// name used as a value, and for checking a new local declaration.
    pub open spec fn spec_values() -> KindSet {
        KindSet {
            register: false,
            function: false,
            parameter: true,
            variable: true,
            literal: false,
        }
    }

    /// Builds [`KindSet::spec_functions`].
    pub fn functions() -> (r: KindSet)
        ensures
            r == KindSet::spec_functions(),
    {
        KindSet {
            register: false,
            function: true,
            parameter: false,
            variable: false,
            literal: false,
        }
    }

    /// Builds [`KindSet::spec_values`].
    pub fn values() -> (r: KindSet)
        ensures
            r == KindSet::spec_values(),
    {
        KindSet {
            register: false,
            function: false,
            parameter: true,
            variable: true,
            literal: false,
        }
    }
}

/// The mathematical model of a [`Symbol`]: its name as a character sequence
/// together with the three plain fields.
pub ghost struct SpecSymbol {
    pub name: Seq<char>,
    pub kind: Kind,
    pub s_type: Type,
    pub ordinal: u32,
}

/// One declared or literal name: an immutable record of its identifier text,
/// kind, type, and position index for later code generation.
pub struct Symbol {
    pub name: String,
    pub kind: Kind,
    pub s_type: Type,
    pub ordinal: u32,
}

impl View for Symbol {
    type V = SpecSymbol;

    open spec fn view(&self) -> SpecSymbol {
        SpecSymbol {
            name: self.name@,
            kind: self.kind,
            s_type: self.s_type,
            ordinal: self.ordinal,
        }
    }
}

impl Clone for Symbol {
    fn clone(&self) -> (r: Self)
        ensures
            r@ == self@,
    {
        Symbol {
            name: self.name.clone(),
            kind: self.kind,
            s_type: self.s_type,
            ordinal: self.ordinal,
        }
    }
}

/// Whether a symbol matches a lookup for `name` under the mask `kinds`.
pub open spec fn sym_match(s: SpecSymbol, name: Seq<char>, kinds: KindSet) -> bool {
    s.name == name && kinds.spec_has(s.kind)
}

/// The result of scanning a table from its most recent entry backward for
/// the first symbol matching `name` under `kinds`: the model of
/// [`Symbols::lookup`], realizing lexical shadowing.
pub open spec fn spec_lookup(t: Seq<SpecSymbol>, name: Seq<char>, kinds: KindSet) -> Option<
    SpecSymbol,
>
    decreases t.len(),
{
    if t.len() == 0 {
        None
    } else if sym_match(t.last(), name, kinds) {
        Some(t.last())
    } else {
        spec_lookup(t.drop_last(), name, kinds)
    }
}

/// A lookup succeeds exactly when some entry of the table matches.
pub proof fn lemma_lookup_some_iff_match(t: Seq<SpecSymbol>, name: Seq<char>, kinds: KindSet)
    ensures
        spec_lookup(t, name, kinds) is Some <==> exists|i: int|
            0 <= i < t.len() && sym_match(t[i], name, kinds),
    decreases t.len(),
{
    if t.len() > 0 {
        if sym_match(t.last(), name, kinds) {
            assert(sym_match(t[t.len() - 1], name, kinds));
        } else {
            lemma_lookup_some_iff_match(t.drop_last(), name, kinds);
            if exists|i: int| 0 <= i < t.len() && sym_match(t[i], name, kinds) {
                let i = choose|i: int| 0 <= i < t.len() && sym_match(t[i], name, kinds);
                assert(i < t.len() - 1);
                assert(sym_match(t.drop_last()[i], name, kinds));
            }
        }
    }
}

/// Relies on `<str as PartialEq>::eq`: two string slices are equal exactly
/// when they hold the same characters.
#[verifier::external_body]
fn str_eq(a: &str, b: &str) -> (r: bool)
    ensures
        r == (a@ == b@),
{
    a == b
}

/// Symbol table.
pub struct Symbols {
    entries: Vec<Symbol>,
}

impl View for Symbols {
    type V = Seq<SpecSymbol>;

    closed spec fn view(&self) -> Seq<SpecSymbol> {
        self.entries@.map(|i: int, s: Symbol| s@)
    }
}

impl Symbols {
    /// Constructs a new, empty symbol table.
    pub fn new() -> (r: Self)
        ensures
            r@ == Seq::<SpecSymbol>::empty(),
    {
        let r = Symbols { entries: Vec::new() };
        proof {
            assert(r@ =~= Seq::<SpecSymbol>::empty());
        }
        r
    }

    /// Appends a symbol to the symbol table; returns a handle to the stored
    /// entry, so the caller can read back its canonical form immediately.
    pub fn push(&mut self, symbol: Symbol) -> (r: &Symbol)
        ensures
            final(self)@ == old(self)@.push(symbol@),
            r@ == symbol@,
    {
        self.entries.push(symbol);
        proof {
            assert(self@ =~= old(self)@.push(symbol@));
        }
        let i = self.entries.len() - 1;
        &self.entries[i]
    }

    /// Search for the most recently pushed symbol with the given `name`
    /// whose kind is in `kinds`; later declarations shadow earlier ones.
    /// Returns `None` if there is no such symbol in the symbol table.
    pub fn lookup(&self, name: &str, kinds: KindSet) -> (r: Option<&Symbol>)
        ensures
            match r {
                Some(s) => spec_lookup(self@, name@, kinds) == Some(s@),
                None => spec_lookup(self@, name@, kinds) is None,
            },
    {
        let mut i = self.entries.len();
        proof {
            assert(self@.subrange(0, i as int) =~= self@);
        }
        while i > 0
            invariant
                i <= self.entries.len(),
                spec_lookup(self@, name@, kinds) == spec_lookup(
                    self@.subrange(0, i as int),
                    name@,
                    kinds,
                ),
            decreases i,
        {
            i = i - 1;
            let s = &self.entries[i];
            proof {
                let pre = self@.subrange(0, i + 1);
                assert(pre.last() == s@);
                assert(pre.drop_last() =~= self@.subrange(0, i as int));
            }
            if str_eq(s.name.as_str(), name) && kinds.has(s.kind) {
                return Some(s);
            }
        }
        proof {
            assert(self@.subrange(0, 0) =~= Seq::<SpecSymbol>::empty());
        }
        None
    }

    /// Returns the number of elements in the symbol table.
    pub fn len(&self) -> (r: usize)
        ensures
            r == self@.len(),
    {
        self.entries.len()
    }

    /// Shortens the symbol table, keeping the first `len` elements and
    /// dropping the rest; used to exit a function's scope.
    pub fn truncate(&mut self, len: usize)
        ensures
            len <= old(self)@.len() ==> final(self)@ == old(self)@.subrange(0, len as int),
            len > old(self)@.len() ==> final(self)@ == old(self)@,
    {
        self.entries.truncate(len);
        proof {
            if len <= old(self)@.len() {
                assert(self@ =~= old(self)@.subrange(0, len as int));
            } else {
                assert(self@ =~= old(self)@);
            }
        }
    }
}

} // verus!
