use micko_peg::analyzer::Micko;
use micko_peg::ast::{Assignment, Exp, Function, FunctionCall, IdDecl, LitForm, Literal, NumExp,
    Program, Stmt};
use micko_peg::symtab::Type;
use micko_peg::{run, Error};

fn decl(s_type: Type, name: &str) -> IdDecl {
    IdDecl { s_type, name: String::from(name) }
}

fn fun(s_type: Type, name: &str, params: Vec<IdDecl>, body: Vec<Stmt>) -> Function {
    Function { decl: decl(s_type, name), params, body }
}

fn lit(text: &str, form: LitForm) -> Exp {
    Exp::Lit(Literal { text: String::from(text), form })
}

fn int_lit(text: &str) -> Exp {
    lit(text, LitForm::Plain)
}

fn uint_lit(text: &str) -> Exp {
    lit(text, LitForm::Unsigned)
}

fn ident(name: &str) -> Exp {
    Exp::Id(String::from(name))
}

fn num(first: Exp, rest: Vec<Exp>) -> NumExp {
    NumExp { first, rest }
}

fn assign(lhs: &str, rhs: NumExp) -> Stmt {
    Stmt::Assignment(Assignment { lhs: String::from(lhs), rhs })
}

fn var(s_type: Type, name: &str) -> Stmt {
    Stmt::Variable(decl(s_type, name))
}

fn call(callee: &str, arg: Option<NumExp>) -> Exp {
    Exp::Call(FunctionCall { callee: String::from(callee), arg: arg.map(Box::new) })
}

fn program(functions: Vec<Function>) -> Program {
    Program { functions }
}

#[test]
fn well_formed_program_with_main_passes() {
    // int main(){ return; }
    let p = program(vec![fun(Type::Int, "main", vec![], vec![Stmt::Return])]);
    assert!(run(&p).is_ok());
}

#[test]
fn missing_entry_point_is_reported() {
    // int f(){ return; }
    let p = program(vec![fun(Type::Int, "f", vec![], vec![Stmt::Return])]);
    assert!(matches!(run(&p), Err(Error::MissingEntryPoint)));
}

#[test]
fn empty_program_lacks_entry_point() {
    let p = program(vec![]);
    assert!(matches!(run(&p), Err(Error::MissingEntryPoint)));
}

#[test]
fn duplicate_variable_is_a_redefinition() {
    // int main(){ int x; int x; return; }
    let p = program(vec![fun(
        Type::Int,
        "main",
        vec![],
        vec![var(Type::Int, "x"), var(Type::Int, "x"), Stmt::Return],
    )]);
    match run(&p) {
        Err(Error::Redefinition(name)) => assert_eq!(name, "x"),
        other => panic!("expected a redefinition of x, got {:?}", result_tag(&other)),
    }
}

#[test]
fn duplicate_function_is_a_redefinition() {
    // int f(){ return; } int f(){ return; } int main(){ return; }
    let p = program(vec![
        fun(Type::Int, "f", vec![], vec![Stmt::Return]),
        fun(Type::Int, "f", vec![], vec![Stmt::Return]),
        fun(Type::Int, "main", vec![], vec![Stmt::Return]),
    ]);
    match run(&p) {
        Err(Error::Redefinition(name)) => assert_eq!(name, "f"),
        other => panic!("expected a redefinition of f, got {:?}", result_tag(&other)),
    }
}

#[test]
fn parameter_reused_as_variable_is_a_redefinition() {
    // int main(int a){ int a; return; }
    let p = program(vec![fun(
        Type::Int,
        "main",
        vec![decl(Type::Int, "a")],
        vec![var(Type::Int, "a"), Stmt::Return],
    )]);
    match run(&p) {
        Err(Error::Redefinition(name)) => assert_eq!(name, "a"),
        other => panic!("expected a redefinition of a, got {:?}", result_tag(&other)),
    }
}

#[test]
fn variable_may_share_a_function_name() {
    // int f(){ return; } int main(){ int f; return; }
    let p = program(vec![
        fun(Type::Int, "f", vec![], vec![Stmt::Return]),
        fun(Type::Int, "main", vec![], vec![var(Type::Int, "f"), Stmt::Return]),
    ]);
    assert!(run(&p).is_ok());
}

#[test]
fn assignment_to_undeclared_name_is_reported() {
    // int main(){ x = 1; return; }
    let p = program(vec![fun(
        Type::Int,
        "main",
        vec![],
        vec![assign("x", num(int_lit("1"), vec![])), Stmt::Return],
    )]);
    match run(&p) {
        Err(Error::Undeclared(name)) => assert_eq!(name, "x"),
        other => panic!("expected x to be undeclared, got {:?}", result_tag(&other)),
    }
}

#[test]
fn undeclared_operand_is_reported() {
    // int main(){ int x; x = 1 + y; return; }
    let p = program(vec![fun(
        Type::Int,
        "main",
        vec![],
        vec![
            var(Type::Int, "x"),
            assign("x", num(int_lit("1"), vec![ident("y")])),
            Stmt::Return,
        ],
    )]);
    match run(&p) {
        Err(Error::Undeclared(name)) => assert_eq!(name, "y"),
        other => panic!("expected y to be undeclared, got {:?}", result_tag(&other)),
    }
}

#[test]
fn undeclared_callee_is_reported() {
    // int main(){ int x; x = g(); return; }
    let p = program(vec![fun(
        Type::Int,
        "main",
        vec![],
        vec![
            var(Type::Int, "x"),
            assign("x", num(call("g", None), vec![])),
            Stmt::Return,
        ],
    )]);
    match run(&p) {
        Err(Error::Undeclared(name)) => assert_eq!(name, "g"),
        other => panic!("expected g to be undeclared, got {:?}", result_tag(&other)),
    }
}

#[test]
fn assignment_with_mismatched_types_is_reported() {
    // int main(){ int x; unsigned y; x = y; return; }
    let p = program(vec![fun(
        Type::Int,
        "main",
        vec![],
        vec![
            var(Type::Int, "x"),
            var(Type::Unsigned, "y"),
            assign("x", num(ident("y"), vec![])),
            Stmt::Return,
        ],
    )]);
    assert!(matches!(run(&p), Err(Error::IncompatibleTypes)));
}

#[test]
fn assignment_with_matching_types_passes() {
    // int main(){ int x; x = 1 + 2; return; }
    let p = program(vec![fun(
        Type::Int,
        "main",
        vec![],
        vec![
            var(Type::Int, "x"),
            assign("x", num(int_lit("1"), vec![int_lit("2")])),
            Stmt::Return,
        ],
    )]);
    assert!(run(&p).is_ok());
}

#[test]
fn mixed_operand_types_are_reported() {
    // int main(){ int x; x = 1 + 2u; return; }
    let p = program(vec![fun(
        Type::Int,
        "main",
        vec![],
        vec![
            var(Type::Int, "x"),
            assign("x", num(int_lit("1"), vec![uint_lit("2u")])),
            Stmt::Return,
        ],
    )]);
    assert!(matches!(run(&p), Err(Error::IncompatibleTypes)));
}

#[test]
fn plain_literal_types_as_int() {
    // int main(){ int x; x = 5; return; }  and the unsigned counterpart fails
    let ok = program(vec![fun(
        Type::Int,
        "main",
        vec![],
        vec![var(Type::Int, "x"), assign("x", num(int_lit("5"), vec![])), Stmt::Return],
    )]);
    assert!(run(&ok).is_ok());
    let bad = program(vec![fun(
        Type::Unsigned,
        "main",
        vec![],
        vec![var(Type::Unsigned, "x"), assign("x", num(int_lit("5"), vec![])), Stmt::Return],
    )]);
    assert!(matches!(run(&bad), Err(Error::IncompatibleTypes)));
}

#[test]
fn unsigned_literal_types_as_unsigned() {
    // unsigned main(){ unsigned x; x = 5u; return; }  and the int counterpart fails
    let ok = program(vec![fun(
        Type::Unsigned,
        "main",
        vec![],
        vec![
            var(Type::Unsigned, "x"),
            assign("x", num(uint_lit("5u"), vec![])),
            Stmt::Return,
        ],
    )]);
    assert!(run(&ok).is_ok());
    let bad = program(vec![fun(
        Type::Int,
        "main",
        vec![],
        vec![var(Type::Int, "x"), assign("x", num(uint_lit("5u"), vec![])), Stmt::Return],
    )]);
    assert!(matches!(run(&bad), Err(Error::IncompatibleTypes)));
}

#[test]
fn locals_of_one_function_are_invisible_to_the_next() {
    // int f(){ int x; return; } int main(){ x = 1; return; }
    let p = program(vec![
        fun(Type::Int, "f", vec![], vec![var(Type::Int, "x"), Stmt::Return]),
        fun(
            Type::Int,
            "main",
            vec![],
            vec![assign("x", num(int_lit("1"), vec![])), Stmt::Return],
        ),
    ]);
    match run(&p) {
        Err(Error::Undeclared(name)) => assert_eq!(name, "x"),
        other => panic!("expected x to be undeclared in main, got {:?}", result_tag(&other)),
    }
}

#[test]
fn same_local_name_in_two_functions_passes() {
    // int f(){ int x; return; } int main(){ int x; return; }
    let p = program(vec![
        fun(Type::Int, "f", vec![], vec![var(Type::Int, "x"), Stmt::Return]),
        fun(Type::Int, "main", vec![], vec![var(Type::Int, "x"), Stmt::Return]),
    ]);
    assert!(run(&p).is_ok());
}

#[test]
fn call_takes_the_callee_return_type() {
    // unsigned f(){ return; } int main(){ int x; x = f(); return; }
    let p = program(vec![
        fun(Type::Unsigned, "f", vec![], vec![Stmt::Return]),
        fun(
            Type::Int,
            "main",
            vec![],
            vec![var(Type::Int, "x"), assign("x", num(call("f", None), vec![])), Stmt::Return],
        ),
    ]);
    assert!(matches!(run(&p), Err(Error::IncompatibleTypes)));
    let matching = program(vec![
        fun(Type::Int, "f", vec![], vec![Stmt::Return]),
        fun(
            Type::Int,
            "main",
            vec![],
            vec![var(Type::Int, "x"), assign("x", num(call("f", None), vec![])), Stmt::Return],
        ),
    ]);
    assert!(run(&matching).is_ok());
}

#[test]
fn call_argument_is_checked_for_its_own_consistency() {
    // int f(int a){ return; } int main(){ int x; x = f(1 + 2u); return; }
    let p = program(vec![
        fun(Type::Int, "f", vec![decl(Type::Int, "a")], vec![Stmt::Return]),
        fun(
            Type::Int,
            "main",
            vec![],
            vec![
                var(Type::Int, "x"),
                assign("x", num(call("f", Some(num(int_lit("1"), vec![uint_lit("2u")]))), vec![])),
                Stmt::Return,
            ],
        ),
    ]);
    assert!(matches!(run(&p), Err(Error::IncompatibleTypes)));
}

#[test]
fn call_argument_type_is_not_held_against_the_parameter() {
    // Arity and per-parameter types are not validated: f(1u) passes though
    // f's parameter is int.
    let p = program(vec![
        fun(Type::Int, "f", vec![decl(Type::Int, "a")], vec![Stmt::Return]),
        fun(
            Type::Int,
            "main",
            vec![],
            vec![
                var(Type::Int, "x"),
                assign("x", num(call("f", Some(num(uint_lit("1u"), vec![]))), vec![])),
                Stmt::Return,
            ],
        ),
    ]);
    assert!(run(&p).is_ok());
}

#[test]
fn parenthesized_expressions_recurse() {
    // int main(){ int x; x = (1 + 2) + 3; return; }
    let inner = num(int_lit("1"), vec![int_lit("2")]);
    let p = program(vec![fun(
        Type::Int,
        "main",
        vec![],
        vec![
            var(Type::Int, "x"),
            assign("x", num(Exp::Paren(Box::new(inner)), vec![int_lit("3")])),
            Stmt::Return,
        ],
    )]);
    assert!(run(&p).is_ok());
}

#[test]
fn parameters_resolve_as_values() {
    // int main(int a){ a = 2; return; }
    let p = program(vec![fun(
        Type::Int,
        "main",
        vec![decl(Type::Int, "a")],
        vec![assign("a", num(int_lit("2"), vec![])), Stmt::Return],
    )]);
    assert!(run(&p).is_ok());
}

#[test]
fn unwalked_statements_have_no_effect() {
    // int main(){ if ...; { ... } return; } — if and compound statements
    // produce no symbols and no errors.
    let p = program(vec![fun(
        Type::Int,
        "main",
        vec![],
        vec![Stmt::If, Stmt::Compound, Stmt::Return],
    )]);
    assert!(run(&p).is_ok());
}

#[test]
fn analysis_stops_at_the_first_violation() {
    // int main(){ x = 1; int y; int y; return; } — the undeclared x is
    // reported, not the later redefinition.
    let p = program(vec![fun(
        Type::Int,
        "main",
        vec![],
        vec![
            assign("x", num(int_lit("1"), vec![])),
            var(Type::Int, "y"),
            var(Type::Int, "y"),
            Stmt::Return,
        ],
    )]);
    match run(&p) {
        Err(Error::Undeclared(name)) => assert_eq!(name, "x"),
        other => panic!("expected x to be undeclared first, got {:?}", result_tag(&other)),
    }
}

#[test]
fn a_fresh_analyzer_behaves_like_run() {
    let p = program(vec![fun(Type::Int, "main", vec![], vec![Stmt::Return])]);
    let mut analyzer = Micko::new();
    assert!(analyzer.code_gen(&p).is_ok());
}

fn result_tag(r: &Result<(), Error>) -> &'static str {
    match r {
        Ok(()) => "success",
        Err(Error::Redefinition(_)) => "redefinition",
        Err(Error::Undeclared(_)) => "undeclared",
        Err(Error::IncompatibleTypes) => "incompatible types",
        Err(Error::MissingEntryPoint) => "missing entry point",
    }
}
