use wordlang::ast::Stmt;
use wordlang::environment::{Environment, Function, Value};
use wordlang::interpreter::{interpret, Interp};
use wordlang::lexer::Lexer;
use wordlang::numbers::{parse_number, plus_number, render_number, same_number, not_equal_number};
use wordlang::parser::Parser;
use wordlang::token::Token;

fn run_source(src: &str, modules: Vec<(String, Value)>) -> Interp {
    let mut lx = Lexer::new(src);
    let toks = lx.tokenize().expect("lexing failed");
    let mut p = Parser::new(toks);
    let prog: Vec<Stmt> = p.parse_program();
    let env = Environment::new();
    let mut it = Interp::new(env, modules);
    interpret(&prog, &mut it, 64);
    it
}

fn http_registry() -> Vec<(String, Value)> {
    vec![(
        String::from("http_request"),
        Value::Func(Function { params: vec![String::from("url")], types: vec![], body: vec![], scope: 0 }),
    )]
}

#[test]
fn number_round_trip() {
    let v = parse_number("12.5").unwrap();
    assert_eq!(render_number(v), "12.5");
    let w = parse_number(&render_number(v)).unwrap();
    assert_eq!(v, w);
    assert_eq!(render_number(parse_number("3").unwrap()), "3");
}

#[test]
fn number_malformed_is_rejected() {
    assert!(parse_number("1.2.3").is_none());
    assert!(parse_number("").is_none());
    assert!(parse_number("12.5").is_some());
}

#[test]
fn plus_commutes_and_concatenates() {
    let a = parse_number("1.5").unwrap();
    let b = parse_number("2.25").unwrap();
    assert_eq!(plus_number(a, b), plus_number(b, a));
    assert_eq!(render_number(plus_number(a, b)), "3.75");
}

#[test]
fn same_within_tolerance() {
    let a = parse_number("1.0000000001").unwrap();
    let b = parse_number("1.0").unwrap();
    assert!(same_number(a, b));
    let c = parse_number("1.01").unwrap();
    assert!(!same_number(c, b));
    assert!(not_equal_number(c, b));
    assert!(!not_equal_number(a, b));
}

#[test]
fn lexer_fatal_on_unterminated_string() {
    let mut lx = Lexer::new("run \"abc");
    assert!(lx.tokenize().is_err());
}

#[test]
fn lexer_tokens_for_import_line() {
    let mut lx = Lexer::new("import request from http_request");
    let toks = lx.tokenize().unwrap();
    assert!(matches!(toks[0], Token::Import));
    assert!(matches!(toks[1], Token::Identifier(_)));
    assert!(matches!(toks[2], Token::From));
    assert!(matches!(toks[4], Token::Eof));
}

#[test]
fn import_binds_module_function() {
    let it = run_source("import request from http_request", http_registry());
    let v = it.env.get("request").expect("request must be bound");
    assert!(matches!(v, Value::Func(_)));
}

#[test]
fn import_alias_binds_alias_not_name() {
    let it = run_source("import request -> req from http_request", http_registry());
    assert!(matches!(it.env.get("req"), Some(Value::Func(_))));
    assert!(it.env.get("request").is_none());
}

#[test]
fn unknown_module_binds_null() {
    let it = run_source("import x from unknown_module", http_registry());
    assert!(matches!(it.env.get("x"), Some(Value::Null)));
}

#[test]
fn unknown_tokens_never_abort() {
    let it = run_source("@#$ %^& run nothing_bound ~~", http_registry());
    assert!(it.env.get("nothing_bound").is_none());
}

#[test]
fn function_definition_registers_under_generated_name() {
    let it = run_source("__fn = (a,b) ret a __", http_registry());
    assert_eq!(it.log.len(), 1);
}
