use calc::CalcError;
use calc::context::Context;
use calc::num::Num;
use calc::run;

fn n(x: f32) -> Num {
    Num { bits: x.to_bits() }
}

#[test]
fn precedence() {
    let mut ctx = Context::new();
    assert_eq!(Ok(Some(n(27.0))), run("10 * 3 - 6 / 2", &mut ctx));
    assert_eq!(Ok(Some(n(5.0f32 / 3.0f32))), run("11 % 2 * 5 / 3", &mut ctx));
}

#[test]
fn brackets_group() {
    let mut ctx = Context::new();
    assert_eq!(Ok(Some(n(8.0))), run("(10 - 6) * 2", &mut ctx));
    assert_eq!(Ok(Some(n(14.0))), run("10 - (6 * 2) + 16", &mut ctx));
}

#[test]
fn assignment_is_expression() {
    let mut ctx = Context::new();
    assert_eq!(Ok(Some(n(10.0))), run("a = 10", &mut ctx));
    assert_eq!(Ok(Some(n(10.0))), run("a", &mut ctx));
    assert_eq!(Some(n(10.0)), ctx.get_var("a"));
    assert_eq!(Ok(Some(n(7.0))), run("a = 3 + 4", &mut ctx));
    assert_eq!(Some(n(7.0)), ctx.get_var("a"));
}

#[test]
fn function_definition_and_call() {
    let mut ctx = Context::new();
    assert_eq!(Ok(None), run("add x y => x + y", &mut ctx));
    assert_eq!(Ok(Some(n(7.0))), run("add 3 4", &mut ctx));
    assert_eq!(Ok(Some(n(12.0))), run("add 2 add 4 6", &mut ctx));
}

#[test]
fn function_body_hides_outer_variables() {
    let mut ctx = Context::new();
    assert_eq!(Ok(Some(n(5.0))), run("v = 5", &mut ctx));
    assert_eq!(Err(CalcError::UnresolvedSymbol), run("f x => x + v", &mut ctx));
}

#[test]
fn function_body_sees_other_functions() {
    let mut ctx = Context::new();
    assert_eq!(Ok(None), run("double x => x + x", &mut ctx));
    assert_eq!(Ok(None), run("quad x => double double x", &mut ctx));
    assert_eq!(Ok(Some(n(12.0))), run("quad 3", &mut ctx));
}

#[test]
fn trailing_tokens_fail() {
    let mut ctx = Context::new();
    assert_eq!(Err(CalcError::TrailingTokens), run("10 10", &mut ctx));
}

#[test]
fn redefinition_replaces_arity_and_body() {
    let mut ctx = Context::new();
    assert_eq!(Ok(None), run("add x y => x + y", &mut ctx));
    assert_eq!(Ok(Some(n(7.0))), run("add 3 4", &mut ctx));
    assert_eq!(Ok(None), run("add x => x * 2", &mut ctx));
    assert_eq!(Some(1), ctx.get_arity("add"));
    assert_eq!(Ok(Some(n(6.0))), run("add 3", &mut ctx));
    // The old two-argument shape is gone: a second operand is now left
    // over after a complete parse.
    assert_eq!(Err(CalcError::TrailingTokens), run("add 3 4", &mut ctx));
}

#[test]
fn variable_substitution_is_eager() {
    let mut ctx = Context::new();
    assert_eq!(Ok(Some(n(2.0))), run("b = 2", &mut ctx));
    let tree = ctx.parse(calc::lexer::tokenize("b + 1").unwrap()).unwrap();
    // The variable's value was substituted at parse time, so the tree
    // already knows its value.
    assert_eq!(Some(n(3.0)), tree.value());
    // Changing the variable later does not change the parsed tree.
    assert_eq!(Ok(Some(n(9.0))), run("b = 9", &mut ctx));
    assert_eq!(Some(n(3.0)), tree.evaluate(&mut ctx, &Vec::new()));
}

#[test]
fn lexical_errors() {
    let mut ctx = Context::new();
    assert_eq!(Err(CalcError::InvalidToken), run("^", &mut ctx));
    assert_eq!(Err(CalcError::InvalidToken), run("10 + ^", &mut ctx));
    assert_eq!(Err(CalcError::MultipleDots), run("10.4.5", &mut ctx));
    assert_eq!(Err(CalcError::InvalidNumber), run(".", &mut ctx));
}

#[test]
fn parse_errors() {
    let mut ctx = Context::new();
    assert_eq!(Err(CalcError::UnexpectedEnd), run("10 +", &mut ctx));
    assert_eq!(Err(CalcError::UnexpectedToken), run("10 + )", &mut ctx));
    assert_eq!(Err(CalcError::ExpectedRBracket), run("(10", &mut ctx));
    assert_eq!(Err(CalcError::NoSuchFunction), run("mystery", &mut ctx));
    assert_eq!(Err(CalcError::ExpectedFunctionName), run("=> 3", &mut ctx));
    assert_eq!(Err(CalcError::ExpectedArrow), run("f ( => 3", &mut ctx));

    assert_eq!(Ok(None), run("f x => x", &mut ctx));
    assert_eq!(Err(CalcError::AssignToNonVariable), run("f = 3", &mut ctx));

    assert_eq!(Ok(Some(n(1.0))), run("a = 1", &mut ctx));
    assert_eq!(Err(CalcError::NotAFunction), run("a x => x", &mut ctx));
}

#[test]
fn remainder_by_zero_yields_nothing() {
    let mut ctx = Context::new();
    assert_eq!(Ok(None), run("5 % 0", &mut ctx));
    assert_eq!(Ok(None), run("5 % 0.9", &mut ctx));
}

#[test]
fn update_var_keeps_other_kinds() {
    let mut ctx = Context::new();
    assert_eq!(Ok(None), run("f x => x", &mut ctx));
    ctx.update_var("f", n(3.0));
    assert_eq!(None, ctx.get_var("f"));
    assert_eq!(Some(1), ctx.get_arity("f"));
}

#[test]
fn function_ctx_scoping() {
    let mut parent = Context::new();
    assert_eq!(Ok(Some(n(5.0))), run("v = 5", &mut parent));
    assert_eq!(Ok(None), run("g x => x", &mut parent));
    let child = Context::function_ctx(vec!["p".to_string(), "q".to_string()], &parent);
    assert_eq!(Some(0), child.get_arg("p"));
    assert_eq!(Some(1), child.get_arg("q"));
    assert_eq!(None, child.get_var("v"));
    assert_eq!(Some(1), child.get_arity("g"));
    // A parameter that repeats keeps its last position.
    let shadow = Context::function_ctx(vec!["p".to_string(), "p".to_string()], &parent);
    assert_eq!(Some(1), shadow.get_arg("p"));
}

#[test]
fn division_by_zero_is_infinite() {
    let mut ctx = Context::new();
    assert_eq!(Ok(Some(Num { bits: (5.0f32 / 0.0f32).to_bits() })), run("5 / 0", &mut ctx));
}

#[test]
fn decimal_parsing_is_exact() {
    let mut ctx = Context::new();
    assert_eq!(Ok(Some(n(0.1f32))), run("0.1", &mut ctx));
    assert_eq!(Ok(Some(n(10.3f32))), run("10.3", &mut ctx));
    assert_eq!(Ok(Some(n(3.4028235e38f32))), run("340282350000000000000000000000000000000", &mut ctx));
}
