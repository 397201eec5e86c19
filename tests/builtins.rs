use vinal::compiler::Compiler;
use vinal::expr::{Expr, ExprT};

fn ident(s: &str, line: usize, column: usize) -> Expr {
    Expr::new(ExprT::Identifier(s.to_string()), line, column)
}

fn sym(s: &str, line: usize, column: usize) -> Expr {
    Expr::new(ExprT::Symbol(s.to_string()), line, column)
}

fn num(n: i32) -> Expr {
    Expr::new(ExprT::Number(n), 1, 1)
}

fn string(s: &str, line: usize, column: usize) -> Expr {
    Expr::new(ExprT::String(s.to_string()), line, column)
}

#[test]
fn let_with_scope() {
    let mut c = Compiler::new();
    let r = c.let_(vec![ident("x", 1, 6), num(1), sym("global", 1, 16)]);
    assert_eq!(r, Ok("let g:x = 1".to_string()));
}

#[test]
fn let_without_scope() {
    let mut c = Compiler::new();
    assert_eq!(c.let_(vec![ident("x", 1, 6), num(1)]), Ok("let x = 1".to_string()));
}

#[test]
fn let_every_scope() {
    let cases = [
        ("global", "g"),
        ("script", "s"),
        ("window", "w"),
        ("tab", "t"),
        ("buffer", "b"),
        ("function", "l"),
    ];
    for (name, prefix) in cases {
        let mut c = Compiler::new();
        let r = c.let_(vec![ident("v", 1, 1), num(7), sym(name, 1, 1)]);
        assert_eq!(r, Ok(format!("let {}:v = 7", prefix)));
    }
}

#[test]
fn let_arity() {
    let mut c = Compiler::new();
    let r = c.let_(vec![ident("x", 1, 6)]);
    let m = r.unwrap_err();
    assert!(m.contains("1 arguments were supplied"));
    assert_eq!(m, "Function 'let' takes 2 or 3 arguments, but 1 arguments were supplied.");
    let r = c.let_(vec![ident("x", 1, 1), num(1), sym("tab", 1, 1), num(2)]);
    assert_eq!(
        r,
        Err("Function 'let' takes 2 or 3 arguments, but 4 arguments were supplied.".to_string())
    );
}

#[test]
fn let_name_must_be_identifier() {
    let mut c = Compiler::new();
    let r = c.let_(vec![sym("x", 3, 4), num(1)]);
    let m = r.unwrap_err();
    assert!(m.contains("found Symbol"));
    assert_eq!(m, "3:4 | Expected Identifier, found Symbol.");
}

#[test]
fn let_unknown_scope() {
    let mut c = Compiler::new();
    let r = c.let_(vec![ident("x", 1, 6), num(1), sym("notascope", 1, 18)]);
    assert_eq!(r, Err("1:18 | notascope: Unknown symbol.".to_string()));
}

#[test]
fn let_scope_must_be_symbol() {
    let mut c = Compiler::new();
    let r = c.let_(vec![ident("x", 1, 6), num(1), ident("global", 2, 9)]);
    assert_eq!(r, Err("2:9 | Expected Symbol, found Identifier.".to_string()));
}

#[test]
fn let_value_is_compiled() {
    let mut c = Compiler::new();
    let r = c.let_(vec![ident("x", 1, 1), string("hi", 1, 5)]);
    assert_eq!(r, Ok("let x = \"hi\"".to_string()));
    let r = c.let_(vec![ident("x", 1, 1), num(-12)]);
    assert_eq!(r, Ok("let x = -12".to_string()));
    let r = c.let_(vec![ident("x", 1, 1), Expr::new(ExprT::Float("2.5".to_string()), 1, 3)]);
    assert_eq!(r, Ok("let x = 2.5".to_string()));
    let r = c.let_(vec![ident("x", 1, 1), ident("y", 1, 3)]);
    assert_eq!(r, Ok("let x = y".to_string()));
}

#[test]
fn let_value_error_propagates() {
    let mut c = Compiler::new();
    let r = c.let_(vec![ident("x", 1, 1), sym("oops", 4, 2), sym("global", 1, 1)]);
    assert_eq!(r, Err("4:2 | oops: Unexpected symbol.".to_string()));
}

#[test]
fn nested_call_is_dispatched() {
    let mut c = Compiler::new();
    let inner = Expr::new(
        ExprT::List(vec![ident("colorscheme", 2, 3), string("nord", 2, 10)]),
        2,
        1,
    );
    let r = c.let_(vec![ident("x", 1, 1), inner]);
    assert_eq!(r, Ok("let x = colorscheme nord".to_string()));
    let form = Expr::new(
        ExprT::List(vec![ident("let", 1, 2), ident("y", 1, 6), num(3), sym("buffer", 1, 9)]),
        1,
        1,
    );
    assert_eq!(c.compile_expr(&form), Ok("let b:y = 3".to_string()));
}

#[test]
fn unknown_function_and_empty_call() {
    let c = Compiler::new();
    let form = Expr::new(ExprT::List(vec![ident("frob", 5, 2)]), 5, 1);
    assert_eq!(c.compile_expr(&form), Err("5:2 | frob: Unknown function.".to_string()));
    let empty = Expr::new(ExprT::List(vec![]), 6, 1);
    assert_eq!(c.compile_expr(&empty), Err("6:1 | Empty call.".to_string()));
    let bad_head = Expr::new(ExprT::List(vec![num(1)]), 7, 1);
    assert_eq!(c.compile_expr(&bad_head), Err("1:1 | Expected Identifier, found Number.".to_string()));
}

#[test]
fn colorscheme_without_argument() {
    let mut c = Compiler::new();
    assert_eq!(c.colorscheme(vec![]), Ok("colorscheme".to_string()));
}

#[test]
fn colorscheme_with_name() {
    let mut c = Compiler::new();
    assert_eq!(c.colorscheme(vec![string("nord", 1, 14)]), Ok("colorscheme nord".to_string()));
}

#[test]
fn colorscheme_errors() {
    let mut c = Compiler::new();
    let r = c.colorscheme(vec![ident("nord", 2, 13)]);
    assert_eq!(r, Err("2:13 | Expected String, found Identifier.".to_string()));
    let r = c.colorscheme(vec![string("a", 1, 1), string("b", 1, 5)]);
    assert_eq!(
        r,
        Err("Function 'colorscheme' takes 0 or 1 arguments, but 2 arguments were supplied.".to_string())
    );
}

#[test]
fn expression_shape_names() {
    assert_eq!(sym("a", 1, 1).get_type(), "Symbol");
    assert_eq!(string("a", 1, 1).get_type(), "String");
    assert_eq!(Expr::new(ExprT::List(vec![]), 1, 1).get_type(), "List");
    assert_eq!(num(3).get_type(), "Number");
}
