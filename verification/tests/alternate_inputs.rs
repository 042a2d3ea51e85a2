use interpreter::assign;
use interpreter::expr::{AddExpr, EvalErr, Expr, Expression, MulExpr, ParseErr, Val};
use interpreter::interp::{Interpreter, InterpretErr};
use interpreter::stmt::Statement;
use interpreter::symtab::SymbolTable;
use interpreter::vecs::add_a_and_a_plus_2;
use std::collections::VecDeque;

#[test]
fn test_1_test_add_a_and_a_plus_2() {
    let mut x = Vec::new();
    x = add_a_and_a_plus_2(x, -2);
    assert_eq!(x, [-2, 0]);
}

#[test]
fn test_1_test_correct1() {
    let c = assign::parse("c=142");
    assert_eq!(
        c,
        Ok(assign::Assignment {
            name: "c",
            val: 142
        })
    );
}

#[test]
fn test_1_test_correct2() {
    let c = assign::parse("a=askdjfas");
    assert_eq!(c, Err(assign::ParserError));
}

#[test]
fn test_1_test_incorrect1() {
    let c = assign::parse("r=");
    assert_eq!(c, Err(assign::ParserError));
}

#[test]
fn test_1_test_incorrect2() {
    let c = assign::parse("x=142=136");
    assert_eq!(c, Err(assign::ParserError));
}

#[test]
fn test_1_test_incorrect3() {
    let c = assign::parse("rr=142");
    assert_eq!(c, Err(assign::ParserError));
}

#[test]
fn test_1_test_incorrect4() {
    let c = assign::parse("Z=42");
    assert_eq!(c, Err(assign::ParserError));
}

#[test]
fn test_1_test_parse_literal() {
    let val = "142".parse::<Val>();
    assert_eq!(val, Ok(Val::Lit(142)));
}

#[test]
fn test_1_test_parse_variable() {
    let val = "z".parse::<Val>();
    assert_eq!(val, Ok(Val::Var("z".to_string())));
}

#[test]
fn test_1_test_parse_invalid() {
    let val = "-123".parse::<Val>();
    assert_eq!(val, Err(ParseErr));
}

#[test]
fn test_1_test_eval_lit() {
    // Evaluation of a constant should be its own value
    let ctx = SymbolTable::new();
    let val = Val::Lit(142);
    let result = val.eval(&ctx);
    assert_eq!(result, Ok(142));
}

#[test]
fn test_1_test_eval_var_initialized() {
    // Evaluation of a variable should be its value in the sym table
    let mut ctx = SymbolTable::new();
    ctx.insert("y".to_string(), 50);
    let val = Val::Var("y".to_string());
    let result = val.eval(&ctx);
    assert_eq!(result, Ok(50));
}

#[test]
fn test_1_test_eval_var_uninitialized() {
    // Evaluation of an uninitialized variable should report an error
    let ctx = SymbolTable::new();
    let val = Val::Var("z".to_string());
    let result = val.eval(&ctx);
    assert_eq!(result, Err(EvalErr::UninitializedVar("z".to_string())));
}

#[test]
fn test_1_test_parse_add_expr() {
    let exp = "100+200+300".parse::<AddExpr>();
    assert_eq!(
        exp,
        Ok(AddExpr(vec![Val::Lit(100), Val::Lit(200), Val::Lit(300)]))
    );
    let exp = "100+200+z".parse::<AddExpr>();
    assert_eq!(
        exp,
        Ok(AddExpr(vec![
            Val::Lit(100),
            Val::Lit(200),
            Val::Var("z".to_string())
        ]))
    );
}

#[test]
fn test_1_test_parse_mul_expr() {
    let exp = "100*200*300".parse::<MulExpr>();
    assert_eq!(
        exp,
        Ok(MulExpr(vec![Val::Lit(100), Val::Lit(200), Val::Lit(300)]))
    );
    let exp = "100*200*z".parse::<MulExpr>();
    assert_eq!(
        exp,
        Ok(MulExpr(vec![
            Val::Lit(100),
            Val::Lit(200),
            Val::Var("z".to_string())
        ]))
    );
}

#[test]
fn test_1_test_parse_invalid_expr() {
    let exp = "10*200+3000".parse::<MulExpr>();
    assert_eq!(exp, Err(ParseErr));
    let exp = "10*200+3000".parse::<AddExpr>();
    assert_eq!(exp, Err(ParseErr));
}

#[test]
fn test_1_test_eval_expr_val_lit() {
    let ctx = SymbolTable::new();
    let expr = Val::Lit(500);
    assert_eq!(expr.eval(&ctx), Ok(500));
}

#[test]
fn test_1_test_eval_expr_val_var() {
    let mut ctx = SymbolTable::new();
    ctx.insert("z".to_string(), 100);
    let expr = Val::Var("z".to_string());
    assert_eq!(expr.eval(&ctx), Ok(100));
}

#[test]
fn test_1_test_eval_expr_add_literals() {
    let ctx = SymbolTable::new();
    let expr = AddExpr(vec![Val::Lit(100), Val::Lit(200), Val::Lit(300)]);
    assert_eq!(expr.eval(&ctx), Ok(600));
}

#[test]
fn test_1_test_eval_expr_add_mixed() {
    let mut ctx = SymbolTable::new();
    ctx.insert("c".to_string(), 400);
    let expr = AddExpr(vec![
        Val::Lit(100),
        Val::Var("c".to_string()),
        Val::Lit(500),
    ]);
    assert_eq!(expr.eval(&ctx), Ok(1000));
}

#[test]
fn test_1_test_eval_expr_mul_literals() {
    let ctx = SymbolTable::new();
    let expr = MulExpr(vec![Val::Lit(20), Val::Lit(30), Val::Lit(40)]);
    assert_eq!(expr.eval(&ctx), Ok(24000));
}

#[test]
fn test_1_test_eval_expr_mul_mixed() {
    let mut ctx = SymbolTable::new();
    ctx.insert("t".to_string(), 50);
    let expr = MulExpr(vec![Val::Lit(20), Val::Var("t".to_string()), Val::Lit(30)]);
    assert_eq!(expr.eval(&ctx), Ok(30_000));
}

#[test]
fn test_1_test_eval_expr_add_uninitialized() {
    let ctx = SymbolTable::new();
    let expr = AddExpr(vec![Val::Lit(100), Val::Var("t".to_string())]);
    assert_eq!(
        expr.eval(&ctx),
        Err(EvalErr::UninitializedVar("t".to_string()))
    );
}

#[test]
fn test_1_test_eval_expr_mul_uninitialized() {
    let ctx = SymbolTable::new();
    let expr = MulExpr(vec![Val::Lit(300), Val::Var("s".to_string())]);
    assert_eq!(
        expr.eval(&ctx),
        Err(EvalErr::UninitializedVar("s".to_string()))
    );
}

#[test]
fn test_1_test_parse_literal_assignment() {
    let stmt = "r=420".parse::<Statement>();
    assert!(stmt.is_ok());
    assert_eq!(stmt.unwrap().lhs, "r");
}

#[test]
fn test_1_test_parse_variable_assignment() {
    let stmt = "x=a".parse::<Statement>();
    assert!(stmt.is_ok());
    assert_eq!(stmt.unwrap().lhs, "x");
}

#[test]
fn test_parse_add_expr2() {
    let stmt = "x=1+2+3".parse::<Statement>();
    assert!(stmt.is_ok());
    assert_eq!(stmt.unwrap().lhs, "x");
}

#[test]
fn test_parse_mul_expr2() {
    let stmt = "x=2*3*4".parse::<Statement>();
    assert!(stmt.is_ok());
    assert_eq!(stmt.unwrap().lhs, "x");
}

#[test]
fn test_1_test_parse_invalid_mixed_ops() {
    let result = "x=1+2*3".parse::<Statement>();
    assert!(result.is_err());
}

#[test]
fn test_1_test_parse_invalid_lhs() {
    let result = "bar=1".parse::<Statement>();
    assert!(result.is_err());
}

#[test]
fn test_1_test_parse_invalid_rhs() {
    let result = "x=%".parse::<Statement>();
    assert!(result.is_err());
}

#[test]
fn test_1_test_parse_empty_expr() {
    let result = "x=".parse::<Statement>();
    assert!(result.is_err());
}

#[test]
fn test_1_test_parse_no_equals() {
    let result = "x420".parse::<Statement>();
    assert!(result.is_err());
}

#[test]
fn test_1_test_execute_literal_assignment() {
    let mut ctx = SymbolTable::new();
    let stmt = Statement::new("r", Expression::Val(Val::Lit(100)));
    let result = stmt.execute(&mut ctx);

    assert!(result.is_ok());
    assert_eq!(ctx.get("r"), Some(100));
}

#[test]
fn test_1_test_execute_expr_assignment() {
    let mut ctx = SymbolTable::new();
    ctx.insert("x".to_string(), 20);
    ctx.insert("y".to_string(), 30);

    let expr = AddExpr(vec![
        Val::Var("x".into()),
        Val::Var("y".into()),
        Val::Lit(50),
    ]);
    let stmt = Statement::new("t", Expression::Add(expr));
    let result = stmt.execute(&mut ctx);
    assert!(result.is_ok());
    assert_eq!(ctx.get("t"), Some(100));

    let expr = MulExpr(vec![
        Val::Var("x".into()),
        Val::Var("y".into()),
        Val::Lit(50),
    ]);
    let stmt = Statement::new("t", Expression::Mul(expr));
    let result = stmt.execute(&mut ctx);
    assert!(result.is_ok());
    assert_eq!(ctx.get("t"), Some(30_000));
}

#[test]
fn test_1_test_single_step_assignment() {
    let program: VecDeque<Statement> = vec![Statement {
        lhs: "z".to_string(),
        rhs: Expression::Val(Val::Lit(100)),
    }]
    .into();
    let mut interpreter = Interpreter::new(program);
    let result = interpreter.step();
    assert!(result.is_ok());
    assert_eq!(result.unwrap().get("z"), Some(100));
}

#[test]
fn test_1_test_step_multiple_statements() {
    let program: VecDeque<Statement> = vec![
        Statement::new("z", Expression::Val(Val::Lit(100))),
        Statement::new(
            "z",
            Expression::Add(AddExpr(vec![Val::Lit(300), Val::Lit(400)])),
        ),
    ]
    .into();

    let mut interpreter = Interpreter::new(program);

    interpreter.step().unwrap();
    assert_eq!(interpreter.st.get("z"), Some(100));

    interpreter.step().unwrap();
    assert_eq!(interpreter.st.get("z"), Some(700));
}

#[test]
fn test_1_test_step_till_end() {
    let program: VecDeque<Statement> = vec![
        Statement::new("a", Expression::Val(Val::Lit(100))),
        Statement::new(
            "a",
            Expression::Add(AddExpr(vec![Val::Lit(300), Val::Lit(400)])),
        ),
    ]
    .into();

    let final_state = Interpreter::new(program).step_till_end();
    assert!(final_state.is_ok());
    let final_state = final_state.unwrap();
    assert_eq!(final_state.get("a"), Some(700));
}

#[test]
fn test_1_test_uninitialized_variable_error() {
    let program: VecDeque<Statement> = vec![Statement::new(
        "s",
        Expression::Val(Val::Var("t".to_string())),
    )]
    .into();
    let mut interpreter = Interpreter::new(program);
    let result = interpreter.step();

    assert_eq!(
        result,
        Err(InterpretErr::EvalErr(EvalErr::UninitializedVar(
            "t".to_string()
        )))
    );
}

#[test]
fn test_1_test_program_already_exitted() {
    let program: VecDeque<Statement> =
        vec![Statement::new("z", Expression::Val(Val::Lit(100)))].into();

    let mut interpreter = Interpreter::new(program);
    interpreter.step().unwrap();
    let result = interpreter.step();
    assert_eq!(result, Err(InterpretErr::ProgramAlreadyExitted));
}

#[test]
fn test_1_test_without_macro() {
    let stmts: VecDeque<Statement> =
        vec!["a=100".parse().unwrap(), "a=132".parse().unwrap()].into();
    let interpreter = Interpreter::new(stmts);
    let final_state = interpreter.step_till_end();
    assert!(final_state.is_ok());
    let final_state = final_state.unwrap();
    assert_eq!(final_state.get("a"), Some(132));

    let stmts: VecDeque<Statement> = vec!["a=20*30*50".parse().unwrap()].into();
    let mut interpreter = Interpreter::new(stmts);
    let result = interpreter.step();
    assert!(result.is_ok());
    assert_eq!(result.unwrap().get("a"), Some(30_000));

    let result = interpreter.step();
    assert!(result.is_err());
}

#[test]
fn test_1_test_assign() {
    let stmts: VecDeque<Statement> = vec![
        "a=100".parse::<Statement>().unwrap(),
        "a=132".parse::<Statement>().unwrap(),
        "b=12".parse::<Statement>().unwrap(),
    ]
    .into();
    let mut interpreter = Interpreter::new(stmts);

    let symtab = interpreter.step().unwrap();
    assert_eq!(symtab.get("a"), Some(100));

    let symtab = interpreter.step().unwrap();
    assert_eq!(symtab.get("a"), Some(132));

    let symtab = interpreter.step().unwrap();
    assert_eq!(symtab.get("b"), Some(12));
}

#[test]
fn test_1_test_const_arith() {
    let stmts: VecDeque<Statement> = vec![
        "a=20*30*50".parse::<Statement>().unwrap(),
        "a=20+30+50".parse::<Statement>().unwrap(),
    ]
    .into();
    let mut interpreter = Interpreter::new(stmts);

    let symtab = interpreter.step().unwrap();
    assert_eq!(symtab.get("a"), Some(30_000));

    let symtab = interpreter.step().unwrap();
    assert_eq!(symtab.get("a"), Some(100));
}

#[test]
fn test_1_test_complex() {
    let stmts: VecDeque<Statement> = vec![
        "a=20".parse::<Statement>().unwrap(),
        "b=30".parse::<Statement>().unwrap(),
        "c=10".parse::<Statement>().unwrap(),
        "a=a+b+c".parse::<Statement>().unwrap(),
        "b=b*c".parse::<Statement>().unwrap(),
    ]
    .into();
    let mut interpreter = Interpreter::new(stmts);

    let symtab = interpreter.step().unwrap();
    assert_eq!(symtab.get("a"), Some(20));

    let symtab = interpreter.step().unwrap();
    assert_eq!(symtab.get("a"), Some(20));
    assert_eq!(symtab.get("b"), Some(30));

    let symtab = interpreter.step().unwrap();
    assert_eq!(symtab.get("a"), Some(20));
    assert_eq!(symtab.get("b"), Some(30));
    assert_eq!(symtab.get("c"), Some(10));

    let symtab = interpreter.step().unwrap();
    assert_eq!(symtab.get("a"), Some(60));
    assert_eq!(symtab.get("b"), Some(30));
    assert_eq!(symtab.get("c"), Some(10));

    let symtab = interpreter.step().unwrap();
    assert_eq!(symtab.get("a"), Some(60));
    assert_eq!(symtab.get("b"), Some(300));
    assert_eq!(symtab.get("c"), Some(10));
}
