use interpreter::expr::{EvalErr, Expr, ParseErr, Val};
use interpreter::symtab::SymbolTable;

#[test]
fn test_parse_literal() {
    let val = "42".parse::<Val>();
    assert_eq!(val, Ok(Val::Lit(42)));
}

#[test]
fn test_parse_variable() {
    let val = "a".parse::<Val>();
    assert_eq!(val, Ok(Val::Var("a".to_string())));
}

#[test]
fn test_parse_invalid() {
    let val = "-1".parse::<Val>();
    assert_eq!(val, Err(ParseErr));
}

#[test]
fn test_eval_lit() {
    // Evaluation of a constant should be its own value
    let ctx = SymbolTable::new();
    let val = Val::Lit(42);
    let result = val.eval(&ctx);
    assert_eq!(result, Ok(42));
}

#[test]
fn test_eval_var_initialized() {
    // Evaluation of a variable should be its value in the sym table
    let mut ctx = SymbolTable::new();
    ctx.insert("x".to_string(), 10);
    let val = Val::Var("x".to_string());
    let result = val.eval(&ctx);
    assert_eq!(result, Ok(10));
}

#[test]
fn test_eval_var_uninitialized() {
    // Evaluation of an uninitialized variable should report an error
    let ctx = SymbolTable::new();
    let val = Val::Var("y".to_string());
    let result = val.eval(&ctx);
    assert_eq!(result, Err(EvalErr::UninitializedVar("y".to_string())));
}
