//! End-to-end and unit tests: programs in, printed lines and
//! diagnostics out.

use paslox::environment::Environment;
use paslox::expr::{Binary, Expr, Literal, Logical};
use paslox::interpreter::eval_expr;
use paslox::interpreter::Interpreter;
use paslox::report;
use paslox::run;
use paslox::scanner::Scanner;
use paslox::text::u32_dec;
use paslox::token::{Token, TokenType};
use paslox::value::Value;

fn run_lines(src: &str) -> Vec<String> {
    let mut i = Interpreter::new();
    let mut out: Vec<String> = Vec::new();
    let _ = run(&src.to_string(), &mut i, &mut out);
    out
}

fn run_ok(src: &str) -> (Vec<String>, bool) {
    let mut i = Interpreter::new();
    let mut out: Vec<String> = Vec::new();
    let r = run(&src.to_string(), &mut i, &mut out);
    (out, r.is_ok())
}

#[test]
fn arithmetic_and_precedence() {
    let out = run_lines("print 1 + 2 * 3;\nprint (1 + 2) * 3;\n");
    assert_eq!(out, vec!["7".to_string(), "9".to_string()]);
}

#[test]
fn integer_vs_real_typing() {
    let out = run_lines("int a = 5;\nreal b = 2.0;\nprint a / 2;\nprint b / 2.0;\n");
    assert_eq!(out, vec!["2".to_string(), "1".to_string()]);
}

#[test]
fn scope_and_shadowing() {
    let out = run_lines("int x = 1;\n{ int x = 2; print x; }\nprint x;\n");
    assert_eq!(out, vec!["2".to_string(), "1".to_string()]);
}

#[test]
fn if_else_with_boolean_condition() {
    let out = run_lines("int n = 3;\nif (n > 0) print 1; else print 0;\n");
    assert_eq!(out, vec!["1".to_string()]);
}

#[test]
fn type_error_on_assignment() {
    let (out, ok) = run_ok("int a = 1;\na = \"hi\";\n");
    assert!(ok);
    assert_eq!(out, vec!["type mismatch in 1 and hi".to_string()]);
}

#[test]
fn undefined_variable() {
    let out = run_lines("print zzz;\n");
    assert_eq!(out, vec!["undefined variable zzz".to_string()]);
}

#[test]
fn while_counts_up() {
    let out = run_lines("int i = 0;\nwhile (i < 3) { print i; i = i + 1; }\n");
    assert_eq!(out, vec!["0".to_string(), "1".to_string(), "2".to_string()]);
}

#[test]
fn assignment_in_block_persists() {
    let out = run_lines("int x = 1;\n{ x = 5; }\nprint x;\n");
    assert_eq!(out, vec!["5".to_string()]);
}

#[test]
fn short_circuit_and_skips_right() {
    let env = Environment::new(None);
    let faulty = Expr::Binary(Box::new(Binary::new(
        Expr::Literal(Literal::IntLit(1)),
        Token::new(TokenType::Slash, "/".to_string(), 1),
        Expr::Literal(Literal::IntLit(0)),
    )));
    let e = Expr::Logical(Box::new(Logical::new(
        Expr::Literal(Literal::BoolLit(false)),
        Token::new(TokenType::And, "and".to_string(), 1),
        faulty,
    )));
    let mut out: Vec<String> = Vec::new();
    let (_, r) = eval_expr(env, &e, &mut out);
    assert!(matches!(r, Ok(Value::BoolVal(false))));
    assert!(out.is_empty());
}

#[test]
fn short_circuit_or_skips_right() {
    let env = Environment::new(None);
    let faulty = Expr::Binary(Box::new(Binary::new(
        Expr::Literal(Literal::IntLit(1)),
        Token::new(TokenType::Slash, "/".to_string(), 1),
        Expr::Literal(Literal::IntLit(0)),
    )));
    let e = Expr::Logical(Box::new(Logical::new(
        Expr::Literal(Literal::BoolLit(true)),
        Token::new(TokenType::Or, "or".to_string(), 1),
        faulty,
    )));
    let mut out: Vec<String> = Vec::new();
    let (_, r) = eval_expr(env, &e, &mut out);
    assert!(matches!(r, Ok(Value::BoolVal(true))));
    assert!(out.is_empty());
}

#[test]
fn logical_or_short_circuits_end_to_end() {
    let out = run_lines("print true or zzz;\n");
    assert_eq!(out, vec!["true".to_string()]);
}

#[test]
fn logical_and_short_circuits_end_to_end() {
    let out = run_lines("print false and (1 / 0 == 0);\n");
    assert_eq!(out, vec!["false".to_string()]);
}

#[test]
fn logical_operators_evaluate_the_right_when_needed() {
    let out = run_lines("print false or true;\nprint true and false;\n");
    assert_eq!(out, vec!["true".to_string(), "false".to_string()]);
}

#[test]
fn logical_precedence_binds_and_tighter() {
    let out = run_lines("print true or false and false;\n");
    assert_eq!(out, vec!["true".to_string()]);
}

#[test]
fn non_boolean_logical_operand_is_an_error() {
    let out = run_lines("print 1 and true;\n");
    assert_eq!(
        out,
        vec!["1: Error  at 'and': non boolean value in logical expression".to_string()]
    );
}

#[test]
fn integer_division_by_zero_is_an_error() {
    let out = run_lines("print 1 / 0;\n");
    assert_eq!(
        out,
        vec!["1: Error  at '/': integer division by zero".to_string()]
    );
}

#[test]
fn real_division_by_zero_is_infinite() {
    let out = run_lines("real r = 1.0;\nprint r / 0.0;\n");
    assert_eq!(out, vec!["+Inf".to_string()]);
}

#[test]
fn real_arithmetic() {
    let out = run_lines("real r = 1.5 + 0.25;\nprint r;\n");
    assert_eq!(out, vec!["1.75".to_string()]);
}

#[test]
fn unary_minus_on_real() {
    let out = run_lines("print -(2.5);\n");
    assert_eq!(out, vec!["-2.5".to_string()]);
}

#[test]
fn unary_minus_on_int_is_an_error() {
    let out = run_lines("print -(2);\n");
    assert_eq!(
        out,
        vec!["1: Error  at '-': type incompatible with operator".to_string()]
    );
}

#[test]
fn unary_bang_on_boolean() {
    let out = run_lines("print !true;\n");
    assert_eq!(out, vec!["false".to_string()]);
}

#[test]
fn strings_print_unquoted() {
    let out = run_lines("str s = \"hi there\";\nprint s;\n");
    assert_eq!(out, vec!["hi there".to_string()]);
}

#[test]
fn equality_on_same_types() {
    let out = run_lines("print 1 == 1;\nprint nil == nil;\nprint true != false;\n");
    assert_eq!(
        out,
        vec!["true".to_string(), "true".to_string(), "true".to_string()]
    );
}

#[test]
fn nil_is_never_unequal_to_nil() {
    let out = run_lines("print nil != nil;\n");
    assert_eq!(out, vec!["false".to_string()]);
}

#[test]
fn mixed_type_equality_is_an_error() {
    let out = run_lines("print 1 == true;\n");
    assert_eq!(
        out,
        vec!["1: Error  at '==': binary expression type mismatch".to_string()]
    );
}

#[test]
fn declarations_default_to_zero_values() {
    let out = run_lines("int a;\nreal b;\nstr c;\nprint a;\nprint b;\nprint c;\n");
    assert_eq!(
        out,
        vec!["0".to_string(), "0".to_string(), "".to_string()]
    );
}

#[test]
fn redeclaration_overwrites_silently() {
    let out = run_lines("int x = 1;\nint x = 2;\nprint x;\n");
    assert_eq!(out, vec!["2".to_string()]);
}

#[test]
fn integer_arithmetic_wraps() {
    let out = run_lines("print 0 - 1;\n");
    assert_eq!(out, vec!["4294967295".to_string()]);
}

#[test]
fn declaration_initializer_type_mismatch() {
    let out = run_lines("int a = \"oops\";\n");
    assert_eq!(out, vec!["mismatched types a and oops".to_string()]);
}

#[test]
fn non_boolean_condition_is_an_error() {
    let out = run_lines("if (1) print 1;\n");
    assert_eq!(
        out,
        vec!["conditional expression must be boolean".to_string()]
    );
}

#[test]
fn syntax_error_stops_the_run() {
    let (out, ok) = run_ok("print ;\n");
    assert!(!ok);
    assert_eq!(
        out,
        vec!["1: Error  at ';': expression expected".to_string()]
    );
}

#[test]
fn invalid_lvalue_is_a_syntax_error() {
    let (out, ok) = run_ok("1 = 2;\n");
    assert!(!ok);
    assert_eq!(out, vec!["1: Error  at '=': invalid l-value".to_string()]);
}

#[test]
fn unknown_character_is_reported_and_scanning_continues() {
    let (out, ok) = run_ok("@\nprint 1;\n");
    assert!(ok);
    assert_eq!(
        out,
        vec!["1: Error : Unexpected character".to_string(), "1".to_string()]
    );
}

#[test]
fn unterminated_string_is_reported() {
    let (out, ok) = run_ok("str s = \"oops;\n");
    assert!(!ok);
    assert_eq!(out.len(), 2);
    assert_eq!(out[0], "2: Error : Unterminated string".to_string());
}

#[test]
fn stray_colon_is_reported() {
    let out = run_lines(": print 1;\n");
    assert_eq!(out.len(), 2);
    assert_eq!(
        out[0],
        "1: Error : Unexpected character following ':'".to_string()
    );
    assert_eq!(out[1], "1".to_string());
}

#[test]
fn comments_are_skipped() {
    let out = run_lines("// nothing here\nprint 2; // trailing\n");
    assert_eq!(out, vec!["2".to_string()]);
}

#[test]
fn assignment_is_an_expression() {
    let out = run_lines("int x = 1;\nprint x = 7;\nprint x;\n");
    assert_eq!(out, vec!["7".to_string(), "7".to_string()]);
}

#[test]
fn interpreter_state_persists_across_runs() {
    let mut i = Interpreter::new();
    let mut out: Vec<String> = Vec::new();
    let r1 = run(&"int x = 41;".to_string(), &mut i, &mut out);
    assert!(r1.is_ok());
    let r2 = run(&"print x + 1;".to_string(), &mut i, &mut out);
    assert!(r2.is_ok());
    assert_eq!(out, vec!["42".to_string()]);
}

#[test]
fn oversized_integer_literal_is_a_lexical_error() {
    let (out, ok) = run_ok("print 99999999999999999999;\n");
    assert!(!ok);
    assert_eq!(out.len(), 2);
    assert_eq!(out[0], "1: Error : malformed numeric literal".to_string());
}

#[test]
fn scanner_token_kinds() {
    let mut s = Scanner::new("int x = 12 + 3.5; // c\n".to_string());
    s.scan_tokens();
    assert!(s.diags.is_empty());
    let kinds: Vec<&TokenType> = s.tokens.iter().map(|t| &t.t_type).collect();
    assert!(matches!(kinds[0], TokenType::Int));
    assert!(matches!(kinds[1], TokenType::Ident));
    assert!(matches!(kinds[2], TokenType::Equal));
    assert!(matches!(kinds[3], TokenType::IntLit(12)));
    assert!(matches!(kinds[4], TokenType::Plus));
    match kinds[5] {
        TokenType::RealLit(bits) => assert_eq!(*bits, 3.5f32.to_bits()),
        _ => panic!("expected a real literal"),
    }
    assert!(matches!(kinds[6], TokenType::Semicolon));
    assert!(matches!(kinds[7], TokenType::EOF));
    assert_eq!(s.tokens[1].lexeme, "x".to_string());
    assert_eq!(s.tokens[1].line, 1);
}

#[test]
fn scanner_two_char_operators() {
    let mut s = Scanner::new("== != <= >= := < > = !".to_string());
    s.scan_tokens();
    assert!(s.diags.is_empty());
    let kinds: Vec<&TokenType> = s.tokens.iter().map(|t| &t.t_type).collect();
    assert!(matches!(kinds[0], TokenType::EqualEqual));
    assert!(matches!(kinds[1], TokenType::BangEqual));
    assert!(matches!(kinds[2], TokenType::LessEqual));
    assert!(matches!(kinds[3], TokenType::GreaterEqual));
    assert!(matches!(kinds[4], TokenType::LetEqual));
    assert!(matches!(kinds[5], TokenType::Less));
    assert!(matches!(kinds[6], TokenType::Greater));
    assert!(matches!(kinds[7], TokenType::Equal));
    assert!(matches!(kinds[8], TokenType::Bang));
}

#[test]
fn ast_pretty_printing() {
    let mut s = Scanner::new("print 1 + 2 * 3;".to_string());
    s.scan_tokens();
    let mut p = paslox::parser::Parser::new(s.tokens);
    let ast = p.parse().expect("the program parses");
    assert_eq!(ast.len(), 1);
    assert_eq!(ast[0].print(), "(print (+ 1 (* 2 3)))".to_string());
}

#[test]
fn ast_pretty_printing_of_blocks() {
    let mut s = Scanner::new("{ int x = 1; print x; }".to_string());
    s.scan_tokens();
    let mut p = paslox::parser::Parser::new(s.tokens);
    let ast = p.parse().expect("the program parses");
    assert_eq!(ast.len(), 1);
    assert_eq!(
        ast[0].print(),
        "(block\n  (int x 1)\n  (print x)\n)".to_string()
    );
}

#[test]
fn ast_pretty_printing_of_if_and_assignment() {
    let mut s = Scanner::new("if (x == 1) x = 2.5; else print x and y;".to_string());
    s.scan_tokens();
    let mut p = paslox::parser::Parser::new(s.tokens);
    let ast = p.parse().expect("the program parses");
    assert_eq!(ast.len(), 1);
    assert_eq!(
        ast[0].print(),
        "(if (== x 1)\n  (= x 2.5)\n(else \n  (print (and x y))\n))".to_string()
    );
}

#[test]
fn environment_define_get_assign() {
    let mut e = Environment::new(None);
    let name = "x".to_string();
    e.define(&name, Value::IntVal(1));
    match e.get(&name) {
        Ok(Value::IntVal(1)) => {}
        _ => panic!("expected the defined value"),
    }
    assert!(e.assign(&name, &Value::IntVal(9)).is_ok());
    match e.get(&name) {
        Ok(Value::IntVal(9)) => {}
        _ => panic!("expected the assigned value"),
    }
    let other = "y".to_string();
    assert!(e.assign(&other, &Value::IntVal(0)).is_err());
    assert!(e.get(&other).is_err());
}

#[test]
fn environment_shadowing_and_parent_fallback() {
    let mut parent = Environment::new(None);
    let name = "x".to_string();
    parent.define(&name, Value::IntVal(1));
    let mut child = Environment::new(Some(Box::new(parent)));
    match child.get(&name) {
        Ok(Value::IntVal(1)) => {}
        _ => panic!("expected the outer binding through the chain"),
    }
    child.define(&name, Value::IntVal(2));
    match child.get(&name) {
        Ok(Value::IntVal(2)) => {}
        _ => panic!("expected the shadowing binding"),
    }
    let parent_back = *child.into_parent().expect("the parent scope is kept");
    match parent_back.get(&name) {
        Ok(Value::IntVal(1)) => {}
        _ => panic!("expected the outer binding untouched"),
    }
}

#[test]
fn diagnostic_line_format() {
    assert_eq!(report(3, " at 'x'", "oops"), "3: Error  at 'x': oops".to_string());
    assert_eq!(paslox::prerror(7, "bad"), "7: Error : bad".to_string());
}

#[test]
fn decimal_rendering() {
    assert_eq!(u32_dec(0), "0".to_string());
    assert_eq!(u32_dec(1234), "1234".to_string());
    assert_eq!(u32_dec(4294967295), "4294967295".to_string());
}

#[test]
fn value_textual_forms() {
    assert_eq!(Value::IntVal(7).to_text(), "7".to_string());
    assert_eq!(Value::BoolVal(true).to_text(), "true".to_string());
    assert_eq!(Value::NilVal.to_text(), "nil".to_string());
    assert_eq!(Value::StrVal("s".to_string()).to_text(), "s".to_string());
    assert_eq!(Value::RealVal(1.5f32.to_bits()).to_text(), "1.5".to_string());
}

#[test]
fn token_display() {
    let t = Token::new(TokenType::RealLit(2.5f32.to_bits()), "2.5".to_string(), 1);
    assert_eq!(t.to_string(), "2.5".to_string());
    let s = Token::new(TokenType::StrLit("abc".to_string()), "\"abc\"".to_string(), 1);
    assert_eq!(s.to_string(), "abc".to_string());
    let p = Token::new(TokenType::Plus, "+".to_string(), 1);
    assert_eq!(p.to_string(), "+".to_string());
}
