use monkey::ast::{Expression, Node, Statement};
use monkey::lexer::Lexer;
use monkey::parser::Parser;

enum Expected {
    Int(i32),
    Name(String),
    Bool(bool),
}

fn check_parser_errors(p: &Parser) {
    let errors = p.errors();

    if errors.is_empty() {
        return;
    }

    println!("parser has {} errors", errors.len());
    for msg in errors {
        println!("{msg}");
    }

    panic!();
}

fn test_let_statement(statement: &Statement, var_name: &str) -> bool {
    if let Statement::Let { token: _, name, value: _ } = statement {
        let val = &name.as_ref().unwrap().value;
        let token_literal = &name.as_ref().unwrap().token_literal();

        if val != var_name {
            println!("let statement value is not {var_name}, got {}", val);
            return false;
        }

        if token_literal != var_name {
            println!("Nome not {var_name}, got {}", token_literal);
            return false;
        }

        return true;
    }
    println!("statement is not type Statement::Let");
    false
}

fn test_integer_literal(il: &Expression, value: i32) -> bool {
    match il {
        Expression::IntegerLiteral(integ) => {
            assert_eq!(integ.value, value);
            assert_eq!(integ.token_literal(), format!("{}", value));
        }
        _ => panic!("il is not an IntegerLiteral"),
    }
    true
}

fn test_identifier(exp: &Expression, value: &str) -> bool {
    match exp {
        Expression::Identifier(ident) => {
            assert_eq!(ident.value, value, "exp.value is not {}. got {}.", value, ident.value);
            assert_eq!(
                ident.token_literal(),
                value,
                "ident.token_literal() is not {}. got {}",
                value,
                ident.value
            );
        }
        _ => panic!("exp is not an Identifier"),
    }
    true
}

fn test_boolean_literal(exp: &Expression, value: bool) -> bool {
    match exp {
        Expression::Boolean(bo) => {
            assert_eq!(bo.value, value, "bo.value is not {}. got {}", value, bo.value);
            assert_eq!(
                bo.token_literal(),
                format!("{}", value),
                "bo.token_literal() is not {}. got {}",
                value,
                bo.token_literal()
            )
        }
        _ => panic!("bo is not of type Boolean"),
    }

    true
}

fn test_literal_expression(exp: &Expression, expected: &Expected) -> bool {
    match expected {
        Expected::Int(v) => test_integer_literal(exp, *v),
        Expected::Name(v) => test_identifier(exp, v),
        Expected::Bool(v) => test_boolean_literal(exp, *v),
    }
}

fn test_infix_expression(
    exp: &Expression,
    left: &Expected,
    operator: &str,
    right: &Expected,
) -> bool {
    match exp {
        Expression::Infix(op_exp) => {
            if !test_literal_expression(&op_exp.left, left) {
                panic!("op_exp.left is not as expected. got {}", op_exp.left.to_string())
            }

            if op_exp.operator != operator {
                let error_msg =
                    format!("op_exp.operator is not {}. got {}", operator, op_exp.operator);
                panic!("{}", error_msg);
            }

            if !test_literal_expression(&op_exp.right, right) {
                panic!("op_exp.right is not as expected. got {}", op_exp.right.to_string());
            }
        }
        _ => panic!("exp is not an InfixExpression"),
    }
    true
}

#[test]
fn test_let_statements() {
    let input = "let x = 5;
let b = 10;
let foobar = 84848;";
    let mut l = Lexer::new(input);
    let mut p = Parser::new(&mut l);
    let program = p.parse_program();
    check_parser_errors(&p);

    if program.statements.len() != 3 {
        panic!("program.statements does not contain 3 statements");
    }

    let tests = ["x", "y", "foobar"];
    for (i, t) in tests.iter().enumerate() {
        let statement = program.statements.get(i).expect("No statement at index {}");
        if !test_let_statement(statement, t) {
            return;
        }
    }
}

#[test]
fn test_return_statements() {
    let input = "return 5;
return 10;
return 993322;";
    let mut l = Lexer::new(input);
    let mut p = Parser::new(&mut l);
    let program = p.parse_program();
    check_parser_errors(&p);

    if program.statements.len() != 3 {
        panic!("program.statements does not contain 3 statements");
    }

    let statements = program.statements;
    for stmt in &statements {
        if let Statement::Return { token: _, value: _ } = stmt {
            if stmt.token_literal() != "return" {
                panic!(
                    "Statement::Return.token is not type return, got {}",
                    stmt.token_literal()
                );
            }
        } else {
            panic!(
                "Statement is not Statement::Return as expected, got {}",
                stmt.to_string()
            );
        }
    }
}

#[test]
fn test_identifier_expression() {
    let input = "foobar";
    let mut l = Lexer::new(input);
    let mut p = Parser::new(&mut l);
    let program = p.parse_program();
    check_parser_errors(&p);

    assert_eq!(1, program.statements.len() as i32);
    if let Some(stmt) = program.statements.first() {
        match stmt {
            Statement::Expression { token: _, expression } => {
                if let Some(exp) = expression {
                    test_literal_expression(exp, &Expected::Name(String::from("foobar")));
                }
            }
            _ => panic!("Statement received is not type Statement::Expression"),
        }
    }
}

#[test]
fn test_boolean_expression() {
    let input = "true";
    let mut l = Lexer::new(input);
    let mut p = Parser::new(&mut l);
    let program = p.parse_program();
    check_parser_errors(&p);

    assert_eq!(1, program.statements.len() as i32);
    if let Some(stmt) = program.statements.first() {
        match stmt {
            Statement::Expression { token: _, expression } => match expression {
                Some(exp) => {
                    test_boolean_literal(exp, true);
                }
                None => panic!("expression is None"),
            },
            _ => panic!("Statement received is not type Statement::Expression"),
        }
    }
}

#[test]
fn test_integer_literal_expression() {
    let input = "238784;";
    let mut l = Lexer::new(input);
    let mut p = Parser::new(&mut l);
    let program = p.parse_program();
    check_parser_errors(&p);
    assert_eq!(1, program.statements.len() as i32);

    if let Some(stmt) = program.statements.first() {
        match stmt {
            Statement::Expression { token: _, expression } => {
                if let Some(exp) = expression {
                    test_literal_expression(exp, &Expected::Int(238784));
                }
            }
            _ => panic!("Statement received is not type Statement::Expression"),
        }
    }
}

#[test]
fn test_parsing_prefix_expression() {
    struct Input {
        input: &'static str,
        operator: &'static str,
        value: Expected,
    }

    let input = [
        Input { input: "!5;", operator: "!", value: Expected::Int(5) },
        Input { input: "-15", operator: "-", value: Expected::Int(15) },
        Input { input: "!true", operator: "!", value: Expected::Bool(true) },
        Input { input: "!false", operator: "!", value: Expected::Bool(false) },
    ];

    for test_case in input {
        let mut l = Lexer::new(test_case.input);
        let mut p = Parser::new(&mut l);
        let program = p.parse_program();
        check_parser_errors(&p);

        if program.statements.len() != 1 {
            println!("{:?}", program.statements);
            panic!("program.statements.len() != 1");
        }

        if let Some(stmt) = program.statements.first() {
            match stmt {
                Statement::Expression { token: _, expression } => match expression {
                    Some(expression) => match expression {
                        Expression::Prefix(exp) => {
                            assert_eq!(exp.operator, test_case.operator);
                            test_literal_expression(&exp.right, &test_case.value);
                            if !test_literal_expression(&exp.right, &test_case.value) {
                                return;
                            }
                        }
                        _ => panic!("Expression is not of type PrefixExpression"),
                    },
                    None => panic!("Expression is None"),
                },
                _ => panic!("Statement is not of type Statement::Expression"),
            }
        }
    }
}

#[test]
fn test_parsing_infix_expression() {
    struct Input {
        input: &'static str,
        left_value: Expected,
        operator: &'static str,
        right_value: Expected,
    }

    impl Input {
        fn new(
            input: &'static str,
            left_value: Expected,
            operator: &'static str,
            right_value: Expected,
        ) -> Self {
            Self { input, left_value, operator, right_value }
        }
    }

    let input = [
        Input::new("5 + 5", Expected::Int(5), "+", Expected::Int(5)),
        Input::new("5/ 5", Expected::Int(5), "/", Expected::Int(5)),
        Input::new("5-5", Expected::Int(5), "-", Expected::Int(5)),
        Input::new("5*5", Expected::Int(5), "*", Expected::Int(5)),
        Input::new("5>5", Expected::Int(5), ">", Expected::Int(5)),
        Input::new("5<5", Expected::Int(5), "<", Expected::Int(5)),
        Input::new("5 == 5", Expected::Int(5), "==", Expected::Int(5)),
        Input::new("5 != 5", Expected::Int(5), "!=", Expected::Int(5)),
        Input::new("true == true", Expected::Bool(true), "==", Expected::Bool(true)),
        Input::new("true != false", Expected::Bool(true), "!=", Expected::Bool(false)),
        Input::new("false == false", Expected::Bool(false), "==", Expected::Bool(false)),
    ];

    for test_case in input {
        let mut l = Lexer::new(test_case.input);
        let mut p = Parser::new(&mut l);
        let program = p.parse_program();
        check_parser_errors(&p);

        if program.statements.len() != 1 {
            println!("{:?}", program.statements);
            panic!("program.statements.len() != 1");
        }

        if let Some(stmt) = program.statements.first() {
            match stmt {
                Statement::Expression { token: _, expression } => match expression {
                    Some(expression) => {
                        if !test_infix_expression(
                            expression,
                            &test_case.left_value,
                            test_case.operator,
                            &test_case.right_value,
                        ) {
                            return;
                        }
                    }
                    None => panic!("Expression is None"),
                },
                _ => panic!("Statement is not of type Statement::Expression"),
            }
        }
    }
}

#[test]
fn test_operator_precedence_parsing() {
    struct Input {
        input: &'static str,
        expected: &'static str,
    }

    impl Input {
        fn new(input: &'static str, expected: &'static str) -> Self {
            Self { input, expected }
        }
    }

    let tests = [
        Input::new("true", "true"),
        Input::new("false", "false"),
        Input::new("3 > 5 == false", "((3 > 5) == false)"),
        Input::new("3 < 5 == true", "((3 < 5) == true)"),
        Input::new("a + add(b * c) + d", "((a + add((b * c), )) + d)"),
        Input::new("add(a + b + c * d / f + g)", "add((((a + b) + ((c * d) / f)) + g), )"),
        Input::new("add(a, b, add(b, c))", "add(a, b, add(b, c, ), )"),
    ];

    for tc in tests {
        let mut l = Lexer::new(tc.input);
        let mut p = Parser::new(&mut l);
        let program = p.parse_program();

        println!("{:?}", program.statements);
        assert_eq!(
            program.statements.len(),
            1,
            "program.statements.len() is not 1. got {}.\n\n DUMP:\n{:?}",
            program.statements.len(),
            program.statements
        );
        if let Some(stmt) = program.statements.first() {
            match stmt {
                Statement::Expression { token: _, expression } => {
                    if let Some(exp) = expression {
                        assert_eq!(
                            exp.to_string(),
                            format!("{}", tc.expected),
                            "exp is not {}. got {}",
                            tc.expected,
                            exp.to_string()
                        );
                    } else {
                        panic!("expression is none")
                    }
                }
                _ => panic!("stmt is not of type Statement::Expression"),
            }
        }
    }
}

#[test]
fn test_functional_literal_parsing() {
    let input = "fn(x,y){ x+y; }";
    let mut l = Lexer::new(input);
    let mut p = Parser::new(&mut l);
    let program = p.parse_program();
    check_parser_errors(&p);

    assert_eq!(
        program.statements.len(),
        1,
        "program.statements is not 1. got {}",
        program.statements.len()
    );

    match program.statements.first().unwrap() {
        Statement::Expression { token: _, expression } => match expression {
            Some(exp) => match exp {
                Expression::Function(fn_ltrl) => {
                    assert_eq!(
                        fn_ltrl.parameters.len(),
                        2,
                        "fn_ltrl.parameters is not 2. got {}",
                        fn_ltrl.parameters.len()
                    );
                    assert_eq!(fn_ltrl.parameters[0].value, "x");
                    assert_eq!(fn_ltrl.parameters[0].token_literal(), "x");
                    assert_eq!(fn_ltrl.parameters[1].value, "y");
                    assert_eq!(fn_ltrl.parameters[1].token_literal(), "y");

                    assert_eq!(
                        fn_ltrl.body.statements.len(),
                        1,
                        "fn_ltrl.body.statements is not 1. got {}",
                        fn_ltrl.body.statements.len()
                    );

                    match &fn_ltrl.body.statements[0] {
                        Statement::Expression { token: _, expression } => {
                            test_infix_expression(
                                expression.as_ref().unwrap(),
                                &Expected::Name(String::from("x")),
                                "+",
                                &Expected::Name(String::from("y")),
                            );
                        }
                        _ => panic!("function body statement is not Expression"),
                    }
                }
                _ => panic!("expression cannot be casted to a FunctionLiteral"),
            },
            None => panic!("expression is None"),
        },
        _ => panic!("Statement is not of type Expression"),
    }
}

#[test]
fn test_function_parameter_parsing() {
    struct Input {
        input: &'static str,
        expected: Vec<&'static str>,
    }

    impl Input {
        fn new(input: &'static str, expected: Vec<&'static str>) -> Self {
            Input { input, expected }
        }
    }

    let tests = [
        Input::new("fn(){}", [].to_vec()),
        Input::new("fn(x){}", ["x"].to_vec()),
        Input::new("fn(x,y,z){}", ["x", "y", "z"].to_vec()),
    ];

    for test in tests {
        let input = test.input;

        let mut l = Lexer::new(input);
        let mut p = Parser::new(&mut l);
        let program = p.parse_program();
        check_parser_errors(&p);

        assert_eq!(
            program.statements.len(),
            1,
            "program.statements is not 1. got {}",
            program.statements.len()
        );

        match program.statements.first().unwrap() {
            Statement::Expression { token: _, expression } => match expression {
                Some(exp) => match exp {
                    Expression::Function(fn_ltrl) => {
                        assert_eq!(
                            fn_ltrl.parameters.len(),
                            test.expected.len(),
                            "fn_ltrl.parameters is not {}. got {}",
                            test.expected.len(),
                            fn_ltrl.parameters.len()
                        );

                        for (i, ident) in test.expected.iter().enumerate() {
                            if !test.expected.is_empty() {
                                println!("{:?}", fn_ltrl.parameters);
                                println!("{:?}", &String::from(*ident));

                                assert_eq!(fn_ltrl.parameters[i].value, *ident);
                                assert_eq!(fn_ltrl.parameters[i].token_literal(), *ident);
                            }
                        }
                    }
                    _ => panic!("expression cannot be casted to a FunctionLiteral"),
                },
                None => panic!("expression is None"),
            },
            _ => panic!("Statement is not of type Expression"),
        }
    }
}
