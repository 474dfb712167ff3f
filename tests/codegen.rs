use haumea::text::{EPILOG, PROLOG};
use haumea::{
    compile_ast, compile_expression, compile_function, compile_statement, get_c_name,
    integer_literal, replicate, write_newline, Expression, Function, Operator, OwnershipViolation,
    Statement,
};
use std::rc::Rc;

fn ident(name: &str) -> Expression {
    Expression::Ident(name.to_string())
}

fn binary(operator: Operator, left: Expression, right: Expression) -> Expression {
    Expression::BinaryOp { operator, left: Rc::new(left), right: Rc::new(right) }
}

fn block(statements: Vec<Statement>) -> Statement {
    Statement::Do(statements.into_iter().map(Rc::new).collect())
}

fn expression_text(e: Expression) -> String {
    compile_expression(e).unwrap()
}

fn statement_text(s: Statement, indent: i32) -> String {
    let mut out = String::new();
    compile_statement(&mut out, s, indent).unwrap();
    out
}

fn function_text(f: Function) -> String {
    let mut out = String::new();
    compile_function(&mut out, f).unwrap();
    out
}

#[test]
fn add_function_header_and_body() {
    let f = Function {
        name: "add".to_string(),
        signature: Some(vec!["a".to_string(), "b".to_string()]),
        code: block(vec![Statement::Return(binary(Operator::Add, ident("a"), ident("b")))]),
    };
    assert_eq!(function_text(f), "\nlong add(long a, long b)\n{\n    return (a + b);\n}\n");
}

#[test]
fn empty_main_function() {
    let f = Function { name: "main".to_string(), signature: None, code: block(vec![]) };
    assert_eq!(function_text(f), "\nint main()\n{\n\n}\n");
}

#[test]
fn empty_signature_gives_empty_parentheses() {
    let f = Function { name: "f".to_string(), signature: Some(vec![]), code: block(vec![]) };
    assert_eq!(function_text(f), "\nlong f()\n{\n\n}\n");
}

#[test]
fn return_type_depends_on_name_only() {
    let named = |name: &str| Function {
        name: name.to_string(),
        signature: Some(vec!["x".to_string()]),
        code: block(vec![]),
    };
    assert!(function_text(named("main")).starts_with("\nint main(long x)"));
    assert!(function_text(named("mainly")).starts_with("\nlong mainly(long x)"));
    assert!(function_text(named("Main")).starts_with("\nlong Main(long x)"));
}

#[test]
fn program_is_framed_by_prolog_and_epilog() {
    let program = vec![
        Function { name: "first".to_string(), signature: None, code: block(vec![]) },
        Function {
            name: "main".to_string(),
            signature: None,
            code: block(vec![Statement::Return(Expression::Integer(0))]),
        },
    ];
    let mut out = String::from("// head\n");
    compile_ast(&mut out, program).unwrap();
    let expected = format!(
        "// head\n{}{}{}{}",
        PROLOG,
        "\nlong first()\n{\n\n}\n",
        "\nint main()\n{\n    return 0l;\n}\n",
        EPILOG
    );
    assert_eq!(out, expected);
    assert!(PROLOG.contains("#include <stdio.h>"));
    assert!(PROLOG.contains("long display(long n)"));
}

#[test]
fn empty_program_is_prolog_then_epilog() {
    let mut out = String::new();
    compile_ast(&mut out, vec![]).unwrap();
    assert_eq!(out, format!("{}{}", PROLOG, EPILOG));
}

#[test]
fn integer_literals() {
    assert_eq!(integer_literal(5), "5l");
    assert_eq!(integer_literal(0), "0l");
    assert_eq!(integer_literal(-42), "-42l");
    assert_eq!(integer_literal(1000), "1000l");
    assert_eq!(integer_literal(i64::MAX), "9223372036854775807l");
    assert_eq!(integer_literal(i64::MIN), "-9223372036854775808l");
    assert_eq!(expression_text(Expression::Integer(-7)), "-7l");
}

#[test]
fn integer_literals_round_trip() {
    for v in [0i64, 1, -1, 9, 10, -10, 123456789, i64::MAX, i64::MIN] {
        let text = integer_literal(v);
        assert!(text.ends_with('l'));
        assert_eq!(text[..text.len() - 1].parse::<i64>().unwrap(), v);
    }
}

#[test]
fn identifier_is_verbatim() {
    assert_eq!(expression_text(ident("counter_1")), "counter_1");
}

#[test]
fn binary_operations_are_fully_parenthesized() {
    let e = binary(
        Operator::Mul,
        binary(Operator::Add, Expression::Integer(1), Expression::Integer(2)),
        Expression::Integer(3),
    );
    assert_eq!(expression_text(e), "((1l + 2l) * 3l)");
    let e = binary(
        Operator::Sub,
        ident("a"),
        binary(Operator::Sub, ident("b"), ident("c")),
    );
    assert_eq!(expression_text(e), "(a - (b - c))");
}

#[test]
fn unary_operations_are_parenthesized() {
    let e = Expression::UnaryOp { operator: Operator::Negate, expression: Rc::new(ident("x")) };
    assert_eq!(expression_text(e), "(-x)");
    let inner = binary(Operator::Equals, ident("a"), ident("b"));
    let e = Expression::UnaryOp { operator: Operator::LogicalNot, expression: Rc::new(inner) };
    assert_eq!(expression_text(e), "(!(a == b))");
}

#[test]
fn call_expressions() {
    let none = Expression::Call { function: "f".to_string(), arguments: vec![] };
    assert_eq!(expression_text(none), "f()");
    let two = Expression::Call {
        function: "g".to_string(),
        arguments: vec![Rc::new(Expression::Integer(1)), Rc::new(ident("x"))],
    };
    assert_eq!(expression_text(two), "g(1l, x)");
}

#[test]
fn operator_tokens() {
    let table = [
        (Operator::Add, "+"),
        (Operator::Sub, "-"),
        (Operator::Mul, "*"),
        (Operator::Div, "/"),
        (Operator::Negate, "-"),
        (Operator::Equals, "=="),
        (Operator::NotEquals, "!="),
        (Operator::Gt, ">"),
        (Operator::Lt, "<"),
        (Operator::Gte, ">="),
        (Operator::Lte, "<="),
        (Operator::LogicalAnd, "&&"),
        (Operator::LogicalOr, "||"),
        (Operator::LogicalNot, "!"),
        (Operator::BinaryAnd, "&"),
        (Operator::BinaryOr, "|"),
        (Operator::BinaryNot, "~"),
    ];
    for (op, token) in table {
        assert_eq!(get_c_name(op), token);
    }
}

#[test]
fn simple_statements() {
    assert_eq!(statement_text(Statement::Var("x".to_string()), 1), "    long x;\n");
    assert_eq!(
        statement_text(Statement::Assign("x".to_string(), Expression::Integer(3)), 0),
        "x = 3l;\n"
    );
    assert_eq!(
        statement_text(Statement::Change("x".to_string(), ident("y")), 2),
        "        x += y;\n"
    );
    assert_eq!(statement_text(Statement::Return(ident("r")), 1), "    return r;");
}

#[test]
fn call_statements() {
    let none = Statement::Call { function: "tick".to_string(), arguments: vec![] };
    assert_eq!(statement_text(none, 0), "tick();\n");
    let one = Statement::Call { function: "display".to_string(), arguments: vec![ident("n")] };
    assert_eq!(statement_text(one, 1), "    display(n);\n");
    let two = Statement::Call {
        function: "h".to_string(),
        arguments: vec![Expression::Integer(1), binary(Operator::Add, ident("a"), ident("b"))],
    };
    assert_eq!(statement_text(two, 0), "h(1l, (a + b));\n");
}

#[test]
fn if_with_and_without_else() {
    let with_else = Statement::If {
        cond: ident("x"),
        if_clause: Rc::new(block(vec![Statement::Return(Expression::Integer(1))])),
        else_clause: Rc::new(Some(block(vec![Statement::Return(Expression::Integer(0))]))),
    };
    assert_eq!(
        statement_text(with_else, 0),
        "if x\n    {\n        return 1l;\n    }\nelse\n    {\n        return 0l;\n    }\n"
    );
    let without_else = Statement::If {
        cond: binary(Operator::Gt, ident("a"), Expression::Integer(0)),
        if_clause: Rc::new(Statement::Var("b".to_string())),
        else_clause: Rc::new(None),
    };
    assert_eq!(statement_text(without_else, 0), "if (a > 0l)    long b;\n");
}

#[test]
fn nested_blocks_indent_by_depth() {
    let inner = block(vec![Statement::Var("y".to_string())]);
    let outer = block(vec![Statement::Var("x".to_string()), inner]);
    assert_eq!(
        statement_text(outer, 0),
        "\n{\n    long x;\n\n    {\n        long y;\n\n    }\n\n}\n"
    );
}

#[test]
fn shared_expression_is_refused() {
    let shared = Rc::new(Expression::Integer(1));
    let e = Expression::BinaryOp {
        operator: Operator::Add,
        left: Rc::clone(&shared),
        right: Rc::new(Expression::Integer(2)),
    };
    assert_eq!(compile_expression(e), Err(OwnershipViolation));
    assert_eq!(Rc::strong_count(&shared), 1);
}

#[test]
fn shared_statement_stops_the_program_without_output() {
    let shared = Rc::new(Statement::Var("x".to_string()));
    let program = vec![
        Function { name: "ok".to_string(), signature: None, code: block(vec![]) },
        Function {
            name: "main".to_string(),
            signature: None,
            code: Statement::Do(vec![Rc::new(Statement::Var("y".to_string())), Rc::clone(&shared)]),
        },
    ];
    let mut out = String::from("before");
    assert_eq!(compile_ast(&mut out, program), Err(OwnershipViolation));
    assert_eq!(out, "before");
}

#[test]
fn shared_statement_leaves_only_a_beginning_of_the_text() {
    let shared = Rc::new(Statement::Var("x".to_string()));
    let s = Statement::Do(vec![Rc::new(Statement::Var("y".to_string())), Rc::clone(&shared)]);
    let mut out = String::new();
    assert_eq!(compile_statement(&mut out, s, 0), Err(OwnershipViolation));
    assert_eq!(out, "\n{\n    long y;\n");
}

#[test]
fn shared_else_branch_is_refused() {
    let shared = Rc::new(Some(Statement::Var("z".to_string())));
    let s = Statement::If {
        cond: ident("c"),
        if_clause: Rc::new(Statement::Var("w".to_string())),
        else_clause: Rc::clone(&shared),
    };
    let mut out = String::new();
    assert_eq!(compile_statement(&mut out, s, 0), Err(OwnershipViolation));
    assert!("if c    long w;\nelse    long z;\n".starts_with(out.as_str()));
    assert_eq!(out, "");
}

#[test]
fn replicate_and_newline() {
    assert_eq!(replicate("ab", 3), "ababab");
    assert_eq!(replicate("    ", 0), "");
    let mut out = String::from("x");
    write_newline(&mut out);
    assert_eq!(out, "x\n");
}
