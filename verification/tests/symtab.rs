use micko_peg::symtab::{Kind, KindSet, Symbol, Symbols, Type};

fn sym(name: &str, kind: Kind, s_type: Type, ordinal: u32) -> Symbol {
    Symbol { name: String::from(name), kind, s_type, ordinal }
}

fn values() -> KindSet {
    KindSet::values()
}

fn functions() -> KindSet {
    KindSet::functions()
}

#[test]
fn empty_table_finds_nothing() {
    let t = Symbols::new();
    assert_eq!(t.len(), 0);
    assert!(t.lookup("main", functions()).is_none());
}

#[test]
fn push_then_lookup() {
    let mut t = Symbols::new();
    t.push(sym("x", Kind::Variable, Type::Int, 1));
    let found = t.lookup("x", values()).expect("x should be visible");
    assert_eq!(found.name, "x");
    assert_eq!(found.s_type, Type::Int);
    assert_eq!(found.ordinal, 1);
}

#[test]
fn lookup_respects_name() {
    let mut t = Symbols::new();
    t.push(sym("x", Kind::Variable, Type::Int, 1));
    assert!(t.lookup("y", values()).is_none());
}

#[test]
fn lookup_respects_kind_mask() {
    let mut t = Symbols::new();
    t.push(sym("f", Kind::Function, Type::Int, 0));
    assert!(t.lookup("f", functions()).is_some());
    assert!(t.lookup("f", values()).is_none());
}

#[test]
fn literal_entries_do_not_resolve_as_values() {
    let mut t = Symbols::new();
    t.push(sym("1", Kind::Literal, Type::Int, 0));
    assert!(t.lookup("1", values()).is_none());
    assert!(t.lookup("1", functions()).is_none());
}

#[test]
fn later_declaration_shadows_earlier() {
    let mut t = Symbols::new();
    t.push(sym("x", Kind::Parameter, Type::Int, 1));
    t.push(sym("x", Kind::Variable, Type::Unsigned, 2));
    let found = t.lookup("x", values()).expect("x should be visible");
    assert_eq!(found.kind, Kind::Variable);
    assert_eq!(found.s_type, Type::Unsigned);
    assert_eq!(found.ordinal, 2);
}

#[test]
fn mask_with_several_kinds_matches_either() {
    let mut t = Symbols::new();
    t.push(sym("a", Kind::Parameter, Type::Int, 1));
    t.push(sym("b", Kind::Variable, Type::Int, 1));
    assert!(t.lookup("a", values()).is_some());
    assert!(t.lookup("b", values()).is_some());
}

#[test]
fn truncate_drops_scope_suffix() {
    let mut t = Symbols::new();
    t.push(sym("f", Kind::Function, Type::Int, 0));
    let mark = t.len();
    t.push(sym("x", Kind::Variable, Type::Int, 1));
    t.push(sym("y", Kind::Variable, Type::Int, 2));
    assert_eq!(t.len(), 3);
    t.truncate(mark);
    assert_eq!(t.len(), 1);
    assert!(t.lookup("x", values()).is_none());
    assert!(t.lookup("y", values()).is_none());
    assert!(t.lookup("f", functions()).is_some());
}

#[test]
fn push_returns_stored_entry() {
    let mut t = Symbols::new();
    let stored = t.push(sym("7", Kind::Literal, Type::Unsigned, 0));
    assert_eq!(stored.name, "7");
    assert_eq!(stored.s_type, Type::Unsigned);
}

#[test]
fn type_from_str_parses_the_two_types() {
    assert_eq!(Type::from_str("int"), Some(Type::Int));
    assert_eq!(Type::from_str("unsigned"), Some(Type::Unsigned));
    assert_eq!(Type::from_str("float"), None);
    assert_eq!(Type::from_str(""), None);
}
