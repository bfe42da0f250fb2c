use calc::context::Context;
use calc::lexer::Operator;
use calc::lexer::Token;
use calc::lexer::tokenize;
use calc::num::Num;
use calc::parser::Ast;
use calc::parser::parse_additive;
use calc::parser::parse_multiplicative;
use calc::parser::parse_terminal;

fn toks(src: &str) -> Vec<Token> {
    tokenize(src).unwrap()
}

fn n(x: f32) -> Num {
    Num { bits: x.to_bits() }
}

#[test]
fn test_terminal_number() {
    let tokens = toks("10");
    let (number, _) = parse_terminal(&tokens, 0, &Context::new()).unwrap();
    let expected = Ast::Value(n(10.0));
    assert!(expected.is_same(&number));
}

#[test]
fn test_terminal_assignment() {
    let tokens = toks("a = 10 + 2");
    let (assign, _) = parse_terminal(&tokens, 0, &Context::new()).unwrap();
    let expected = Ast::Assign("a".to_string(), Box::new(Ast::Value(n(12.0))));
    assert!(expected.is_same(&assign));

    let tokens = toks("2 + a = 10");
    let (assign, _) = parse_additive(&tokens, 0, &Context::new()).unwrap();
    let expected = Ast::Op(
        Operator::Add,
        Box::new(Ast::Value(n(2.0))),
        Box::new(Ast::Assign("a".to_string(), Box::new(Ast::Value(n(10.0))))),
    );
    assert!(expected.is_same(&assign));
}

#[test]
fn text_op_expr_mul() {
    let tokens = toks("10");
    let (expr, _) = parse_multiplicative(&tokens, 0, &Context::new()).unwrap();
    let expected = Ast::Value(n(10.0));
    assert!(expected.is_same(&expr));

    let tokens = toks("10 * 2");
    let (expr, _) = parse_multiplicative(&tokens, 0, &Context::new()).unwrap();
    let expected = Ast::Value(n(20.0));
    assert!(expected.is_same(&expr));

    let tokens = toks("10 / 2");
    let (expr, _) = parse_multiplicative(&tokens, 0, &Context::new()).unwrap();
    let expected = Ast::Value(n(5.0));
    assert!(expected.is_same(&expr));

    let tokens = toks("10 % 2");
    let (expr, _) = parse_multiplicative(&tokens, 0, &Context::new()).unwrap();
    let expected = Ast::Value(n(0.0));
    assert!(expected.is_same(&expr));

    let tokens = toks("11 % 2 * 5 / 3");
    let (expr, _) = parse_multiplicative(&tokens, 0, &Context::new()).unwrap();
    let expected = Ast::Value(n(5.0f32 / 3.0f32));
    assert!(expected.is_same(&expr));
}

#[test]
fn text_op_expr_add() {
    let tokens = toks("10");
    let (expr, _) = parse_additive(&tokens, 0, &Context::new()).unwrap();
    let expected = Ast::Value(n(10.0));
    assert!(expected.is_same(&expr));

    let tokens = toks("10 + 2");
    let (expr, _) = parse_additive(&tokens, 0, &Context::new()).unwrap();
    let expected = Ast::Value(n(12.0));
    assert!(expected.is_same(&expr));

    let tokens = toks("10 - 2");
    let (expr, _) = parse_additive(&tokens, 0, &Context::new()).unwrap();
    let expected = Ast::Value(n(8.0));
    assert!(expected.is_same(&expr));

    let tokens = toks("11 + 2 - 5");
    let (expr, _) = parse_additive(&tokens, 0, &Context::new()).unwrap();
    let expected = Ast::Value(n(8.0f32));
    assert!(expected.is_same(&expr));

    let tokens = toks("10 * 3 - 6 / 2");
    let (expr, _) = parse_additive(&tokens, 0, &Context::new()).unwrap();
    let expected = Ast::Value(n(27.0));
    assert!(expected.is_same(&expr));
}

#[test]
fn folding_matches_literal() {
    let ctx = Context::new();
    let t1 = ctx.parse(toks("10 + 2")).unwrap();
    let t2 = ctx.parse(toks("12")).unwrap();
    assert!(t1.is_same(&t2));
    assert_eq!(Some(n(12.0)), t1.value());
    assert_eq!(Some(n(12.0)), t2.value());
}

#[test]
fn folding_keeps_dynamic_subtrees() {
    let ctx = Context::new();
    // An assignment has no static value, so the operator node stays.
    let t = ctx.parse(toks("2 + a = 10")).unwrap();
    assert_eq!(None, t.value());
}
