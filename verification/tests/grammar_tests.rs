use monkey::ast::{
    Boolean, Expression, Identifier, IntegerLiteral, Node, Program, Statement, StatementTrait,
};
use monkey::lexer::Lexer;
use monkey::parser::{Parser, Precedence};
use monkey::text::{decimal_text, parse_decimal};
use monkey::token::Token;

fn parse(input: &str) -> (Program, Vec<String>) {
    let mut lexer = Lexer::new(input);
    let mut parser = Parser::new(&mut lexer);
    let program = parser.parse_program();
    let errors = parser.errors().clone();
    (program, errors)
}

fn rendered(input: &str) -> String {
    let (program, errors) = parse(input);
    assert_eq!(errors, Vec::<String>::new(), "errors for {input}");
    program.to_string()
}

fn errors_of(input: &str) -> Vec<String> {
    parse(input).1
}

fn only_expression(program: &Program) -> &Expression {
    assert_eq!(program.statements.len(), 1);
    match &program.statements[0] {
        Statement::Expression { token: _, expression: Some(expression) } => expression,
        other => panic!("not an expression statement: {:?}", other),
    }
}

#[test]
fn let_statements_come_one_per_line_in_order() {
    let (program, errors) = parse("let x = 5;\nlet b = 10;\nlet foobar = 84848;");
    assert!(errors.is_empty());
    assert_eq!(program.statements.len(), 3);
    let names = ["x", "b", "foobar"];
    let values = [5, 10, 84848];
    for i in 0..3 {
        match &program.statements[i] {
            Statement::Let { token, name: Some(name), value: Some(value) } => {
                assert_eq!(*token, Token::Let);
                assert_eq!(name.value, names[i]);
                assert!(!name.value.is_empty());
                assert_eq!(name.token, Token::Ident(names[i].to_string()));
                match value {
                    Expression::IntegerLiteral(literal) => assert_eq!(literal.value, values[i]),
                    other => panic!("not an integer literal: {:?}", other),
                }
            }
            other => panic!("not a complete let statement: {:?}", other),
        }
    }
    assert_eq!(program.to_string(), "let x = 5;let b = 10;let foobar = 84848;");
}

#[test]
fn let_statement_with_a_compound_value() {
    assert_eq!(rendered("let sum = a + b * 2;"), "let sum = (a + (b * 2));");
    assert_eq!(rendered("let f = fn(x) { x };"), "let f = fn( x)\nx;");
}

#[test]
fn semicolons_are_optional() {
    assert_eq!(rendered("let x = 5"), "let x = 5;");
    assert_eq!(rendered("return 5"), "return 5;");
    assert_eq!(rendered("5"), "5");
    assert_eq!(rendered("let x = 5 let y = 6"), "let x = 5;let y = 6;");
}

#[test]
fn binary_operators_render_in_parentheses() {
    assert_eq!(rendered("5 + 5"), "(5 + 5)");
    assert_eq!(rendered("5 - 5"), "(5 - 5)");
    assert_eq!(rendered("5 * 5"), "(5 * 5)");
    assert_eq!(rendered("5 / 5"), "(5 / 5)");
    assert_eq!(rendered("5 < 5"), "(5 < 5)");
    assert_eq!(rendered("5 > 5"), "(5 > 5)");
    assert_eq!(rendered("5 == 5"), "(5 == 5)");
    assert_eq!(rendered("5 != 5"), "(5 != 5)");
    assert_eq!(rendered("a + true"), "(a + true)");
    assert_eq!(rendered("3 > 5 == false"), "((3 > 5) == false)");
}

#[test]
fn binary_operators_group_from_the_left() {
    assert_eq!(rendered("a + b + c"), "((a + b) + c)");
    assert_ne!(rendered("a + b + c"), "(a + (b + c))");
    assert_eq!(rendered("a - b - c"), "((a - b) - c)");
    assert_eq!(rendered("a * b / c"), "((a * b) / c)");
    assert_eq!(rendered("a == b != c"), "((a == b) != c)");
    assert_eq!(rendered("a + b - c + d"), "(((a + b) - c) + d)");
}

#[test]
fn tighter_operators_group_first() {
    assert_eq!(rendered("a + b * c"), "(a + (b * c))");
    assert_eq!(rendered("a * b + c"), "((a * b) + c)");
    assert_eq!(rendered("a < b == c > d"), "((a < b) == (c > d))");
    assert_eq!(rendered("a + b * c + d / e - f"), "(((a + (b * c)) + (d / e)) - f)");
    assert_eq!(rendered("5 > 4 == 3 < 4"), "((5 > 4) == (3 < 4))");
    assert_eq!(rendered("3 + 4 * 5 == 3 * 1 + 4 * 5"), "((3 + (4 * 5)) == ((3 * 1) + (4 * 5)))");
}

#[test]
fn calls_bind_tighter_than_operators() {
    assert_eq!(rendered("a + add(b * c) + d"), "((a + add((b * c), )) + d)");
    assert_eq!(rendered("add()"), "add(, )");
    assert_eq!(rendered("add(1)"), "add(1, )");
    assert_eq!(rendered("add(1, 2 * 3, 4 + 5)"), "add(1, (2 * 3), (4 + 5), )");
    assert_eq!(rendered("-add(1)"), "(-add(1, ))");
    assert_eq!(rendered("f(x)(y)"), "f(x, )(y, )");
    assert_eq!(
        rendered("add(a, b, 1, (2 * 3), (4 + 5), add(6, (7 * 8)))"),
        "add(a, b, 1, (2 * 3), (4 + 5), add(6, (7 * 8), ), )"
    );
}

#[test]
fn call_node_holds_function_and_arguments() {
    let (program, errors) = parse("add(1, x)");
    assert!(errors.is_empty());
    match only_expression(&program) {
        Expression::Call(call) => {
            assert_eq!(call.function.to_string(), "add");
            assert_eq!(call.arguments.len(), 2);
            assert_eq!(call.arguments[0].to_string(), "1");
            assert_eq!(call.arguments[1].to_string(), "x");
            assert_eq!(call.token, Token::Rparen);
            assert_eq!(call.token_literal(), ")");
        }
        other => panic!("not a call: {:?}", other),
    }
}

#[test]
fn prefix_operators_render_in_parentheses() {
    assert_eq!(rendered("!5"), "(!5)");
    assert_eq!(rendered("-15"), "(-15)");
    assert_eq!(rendered("!true"), "(!true)");
    assert_eq!(rendered("!!x"), "(!(!x))");
    assert_eq!(rendered("-a * b"), "((-a) * b)");
    assert_eq!(rendered("!-a"), "(!(-a))");
    assert_eq!(rendered("a + -b"), "(a + (-b))");
}

#[test]
fn function_literal_with_two_parameters() {
    let (program, errors) = parse("fn(x, y) { x + y; }");
    assert!(errors.is_empty());
    match only_expression(&program) {
        Expression::Function(function) => {
            assert_eq!(function.parameters.len(), 2);
            assert_eq!(function.parameters[0].value, "x");
            assert_eq!(function.parameters[1].value, "y");
            assert_eq!(function.body.statements.len(), 1);
            assert_eq!(function.body.token, Token::Lbrace);
            assert_eq!(function.token, Token::Rbrace);
            match &function.body.statements[0] {
                Statement::Expression { token: _, expression: Some(Expression::Infix(infix)) } => {
                    assert_eq!(infix.left.to_string(), "x");
                    assert_eq!(infix.operator, "+");
                    assert_eq!(infix.right.to_string(), "y");
                }
                other => panic!("not an infix expression statement: {:?}", other),
            }
            assert_eq!(function.to_string(), "fn( x, y)\n(x + y)");
        }
        other => panic!("not a function literal: {:?}", other),
    }
}

#[test]
fn function_literal_renderings() {
    assert_eq!(rendered("fn() {}"), "fn( )\n");
    assert_eq!(rendered("fn(x) { x }"), "fn( x)\nx");
    assert_eq!(rendered("fn(x, y, z) { return x; }"), "fn( x, y, z)\nreturn x;");
    assert_eq!(rendered("fn(x) { x }(5)"), "fn( x)\nx(5, )");
}

#[test]
fn missing_identifier_after_let_is_an_error() {
    let (program, errors) = parse("let = 5;");
    assert!(!errors.is_empty());
    assert_eq!(
        errors,
        vec![
            "expected next token to be an identifier, got \"=\" instead".to_string(),
            "no prefix parse function for = found".to_string(),
        ]
    );
    assert_eq!(program.statements.len(), 2);
    assert_eq!(program.to_string(), "5");
}

#[test]
fn let_at_the_end_of_the_text_is_an_error() {
    let (program, errors) = parse("let");
    assert_eq!(errors, vec!["expected next token to be an identifier, got \"\" instead"]);
    assert_eq!(program.statements.len(), 0);
}

#[test]
fn missing_assign_after_the_name_is_an_error() {
    let (program, errors) = parse("let x 5;");
    assert_eq!(errors, vec!["expected next token to be =, got \"5\" instead"]);
    assert_eq!(program.statements.len(), 1);
    assert_eq!(program.to_string(), "5");
}

#[test]
fn rendered_text_parses_to_the_same_text() {
    let sources = [
        "5 + 5",
        "a + b * c",
        "a * b + c",
        "-a * b",
        "!true == false",
        "a + b + c",
        "3 > 5 == false",
        "x",
        "42",
        "true",
        "1 + (2 + 3) + 4",
        "-(5 + 5)",
        "!(true == true)",
        "007 + 1",
    ];
    for source in sources {
        let once = rendered(source);
        let twice = rendered(&once);
        assert_eq!(once, twice, "source {source}");
    }
    assert_eq!(rendered("(5 + 5)"), "(5 + 5)");
    assert_eq!(rendered("((a + b) * c)"), "((a + b) * c)");
    assert_eq!(rendered("(!true)"), "(!true)");
    assert_eq!(rendered("(-(-x))"), "(-(-x))");
    assert_eq!(rendered("((3 > 5) == false)"), "((3 > 5) == false)");
    assert_eq!(rendered("007 + 1"), "(7 + 1)");
}

#[test]
fn parentheses_group() {
    assert_eq!(rendered("(5 + 5) * 2"), "((5 + 5) * 2)");
    assert_eq!(rendered("2 / (5 + 5)"), "(2 / (5 + 5))");
    assert_eq!(rendered("1 + (2 + 3) + 4"), "((1 + (2 + 3)) + 4)");
    assert_eq!(rendered("-(5 + 5)"), "(-(5 + 5))");
    assert_eq!(rendered("!(true == true)"), "(!(true == true))");
    assert_eq!(rendered("(x)"), "x");
    assert_eq!(rendered("((x))"), "x");
}

#[test]
fn unclosed_parenthesis_is_an_error() {
    let (program, errors) = parse("(5 + 5");
    assert_eq!(errors, vec!["expected next token to be ), got \"\" instead"]);
    assert_eq!(program.statements.len(), 1);
    assert_eq!(program.to_string(), "");
}

#[test]
fn if_expressions() {
    assert_eq!(rendered("if (x < y) { x }"), "if ((x < y)) x");
    assert_eq!(rendered("if (x < y) { x } else { y }"), "if ((x < y)) x else y");
    assert_eq!(rendered("if (x) { let a = 1; a }"), "if (x) let a = 1;a");
    let (program, errors) = parse("if (x < y) { x } else { y }");
    assert!(errors.is_empty());
    match only_expression(&program) {
        Expression::If(node) => {
            assert_eq!(node.condition.to_string(), "(x < y)");
            assert_eq!(node.consequence.statements.len(), 1);
            assert_eq!(node.consequence.to_string(), "x");
            assert_eq!(node.consequence.token_literal(), "{");
            assert_eq!(node.alternative.as_ref().unwrap().to_string(), "y");
            assert_eq!(node.token, Token::Rbrace);
        }
        other => panic!("not an if expression: {:?}", other),
    }
}

#[test]
fn if_without_parenthesis_is_an_error() {
    let (program, errors) = parse("if x");
    assert_eq!(errors, vec!["expected next token to be (, got \"x\" instead"]);
    assert_eq!(program.statements.len(), 2);
    assert_eq!(program.to_string(), "x");
}

#[test]
fn if_without_brace_is_an_error() {
    let errors = errors_of("if (x) y");
    assert_eq!(errors, vec!["expected next token to be {, got \"y\" instead"]);
    let errors = errors_of("if (x y");
    assert_eq!(errors, vec!["expected next token to be ), got \"y\" instead"]);
    let errors = errors_of("if (x) { y } else z");
    assert_eq!(errors, vec!["expected next token to be {, got \"z\" instead"]);
}

#[test]
fn token_that_starts_no_expression_is_an_error() {
    assert_eq!(errors_of("+"), vec!["no prefix parse function for + found"]);
    assert_eq!(errors_of(")"), vec!["no prefix parse function for ) found"]);
    assert_eq!(errors_of("{"), vec!["no prefix parse function for { found"]);
    assert_eq!(errors_of("}"), vec!["no prefix parse function for } found"]);
    assert_eq!(errors_of("@"), vec!["no prefix parse function for  found"]);
    assert_eq!(errors_of("5 +"), vec!["no prefix parse function for  found"]);
    assert_eq!(errors_of("!;"), vec!["no prefix parse function for ; found"]);
    assert_eq!(errors_of("1 + * 2"), vec!["no prefix parse function for * found"]);
}

#[test]
fn failed_expression_leaves_the_slot_empty() {
    let (program, errors) = parse("let x = ;");
    assert_eq!(errors, vec!["no prefix parse function for ; found"]);
    assert_eq!(program.statements.len(), 1);
    match &program.statements[0] {
        Statement::Let { token: _, name: Some(name), value: None } => {
            assert_eq!(name.value, "x")
        }
        other => panic!("not a let statement without a value: {:?}", other),
    }
    assert_eq!(program.to_string(), "let x");
    let (program, errors) = parse("return");
    assert_eq!(errors, vec!["no prefix parse function for  found"]);
    assert_eq!(program.to_string(), "return;");
}

#[test]
fn errors_come_in_the_order_they_were_met() {
    let errors = errors_of("let = 1; let y 2; let z = 3;");
    assert_eq!(
        errors,
        vec![
            "expected next token to be an identifier, got \"=\" instead",
            "no prefix parse function for = found",
            "expected next token to be =, got \"2\" instead",
        ]
    );
}

#[test]
fn integer_literal_that_does_not_fit_is_an_error() {
    let (program, errors) = parse("99999999999");
    assert_eq!(errors, vec!["could not parse 99999999999 as integer"]);
    assert_eq!(program.statements.len(), 1);
    assert_eq!(program.to_string(), "");
    assert_eq!(rendered("2147483647"), "2147483647");
    assert!(!errors_of("2147483648").is_empty());
    assert_eq!(rendered("0000000000000000000042"), "42");
}

#[test]
fn call_without_a_first_argument_is_an_error() {
    let (program, errors) = parse("add(+)");
    assert_eq!(
        errors,
        vec!["no prefix parse function for + found", "no prefix parse function for ) found"]
    );
    assert_eq!(program.statements.len(), 2);
    assert_eq!(program.to_string(), "");
}

#[test]
fn call_with_a_later_argument_that_fails_is_no_call() {
    let (program, errors) = parse("add(a, b, )");
    assert_eq!(errors, vec!["no prefix parse function for ) found"]);
    assert_eq!(program.statements.len(), 1);
    assert!(matches!(
        &program.statements[0],
        Statement::Expression { token: _, expression: None }
    ));
    assert_eq!(program.to_string(), "");
    let (program, errors) = parse("add(a, +, b)");
    assert_eq!(errors[0], "no prefix parse function for + found");
    assert!(matches!(
        &program.statements[0],
        Statement::Expression { token: _, expression: None }
    ));
}

#[test]
fn unclosed_argument_list_is_an_error() {
    let (program, errors) = parse("add(a, b");
    assert_eq!(errors, vec!["expected next token to be ), got \"\" instead"]);
    assert_eq!(program.to_string(), "");
}

#[test]
fn unclosed_parameter_list_is_an_error() {
    assert_eq!(
        errors_of("fn(x y) {}"),
        vec![
            "expected next token to be ), got \"y\" instead",
            "no prefix parse function for ) found",
            "no prefix parse function for { found",
            "no prefix parse function for } found",
        ]
    );
    assert_eq!(errors_of("fn x"), vec!["expected next token to be (, got \"x\" instead"]);
    assert_eq!(errors_of("fn(x) y"), vec!["expected next token to be {, got \"y\" instead"]);
}

#[test]
fn empty_program() {
    let (program, errors) = parse("");
    assert!(errors.is_empty());
    assert_eq!(program.statements.len(), 0);
    assert_eq!(program.to_string(), "");
    assert_eq!(program.token_literal(), "");
    assert_eq!(Program::new().token_literal(), "");
    assert_eq!(Program::new().to_string(), "");
}

#[test]
fn token_literal_of_a_program_is_that_of_its_first_statement() {
    assert_eq!(parse("let x = 5; return x;").0.token_literal(), "let");
    assert_eq!(parse("return x; let x = 5;").0.token_literal(), "return");
    assert_eq!(parse("foo + 1;").0.token_literal(), "foo");
    assert_eq!(parse("(1)").0.token_literal(), "(");
}

#[test]
fn statement_new() {
    let statement = Statement::new(Token::Let).unwrap();
    assert!(matches!(statement, Statement::Let { token: Token::Let, name: None, value: None }));
    assert_eq!(statement.to_string(), "");
    assert_eq!(statement.token_literal(), "let");
    statement.statement_node();
    let statement = Statement::new(Token::Return).unwrap();
    assert!(matches!(statement, Statement::Return { token: Token::Return, value: None }));
    assert_eq!(statement.to_string(), "return;");
    assert_eq!(statement.token_literal(), "return");
    assert!(Statement::new(Token::Plus).is_none());
    assert!(Statement::new(Token::Ident("let".to_string())).is_none());
    assert!(Statement::new(Token::Eof).is_none());
}

#[test]
fn node_constructors_and_texts() {
    let name = Identifier::new(Token::Ident("foo".to_string()));
    assert_eq!(name.value, "foo");
    assert_eq!(name.token, Token::Ident("foo".to_string()));
    assert_eq!(name.to_string(), "foo");
    assert_eq!(name.token_literal(), "foo");
    let keyword = Identifier::new(Token::Let);
    assert_eq!(keyword.value, "let");
    let number = IntegerLiteral::new(Token::Int("-5".to_string()), -5);
    assert_eq!(number.value, -5);
    assert_eq!(number.to_string(), "-5");
    assert_eq!(number.token_literal(), "-5");
    let other = IntegerLiteral::new(Token::Int("007".to_string()), 7);
    assert_eq!(other.to_string(), "7");
    assert_eq!(other.token_literal(), "007");
    let yes = Boolean { token: Token::True, value: true };
    assert_eq!(yes.to_string(), "true");
    let no = Boolean { token: Token::False, value: false };
    assert_eq!(no.to_string(), "false");
    assert_eq!(no.token_literal(), "false");
}

#[test]
fn let_statement_renderings() {
    let named = Statement::Let {
        token: Token::Let,
        name: Some(Identifier { token: Token::Ident("tok".to_string()), value: "val".to_string() }),
        value: None,
    };
    assert_eq!(named.to_string(), "let tok");
    let whole = Statement::Let {
        token: Token::Let,
        name: Some(Identifier { token: Token::Ident("tok".to_string()), value: "val".to_string() }),
        value: Some(Expression::Boolean(Boolean { token: Token::True, value: true })),
    };
    assert_eq!(whole.to_string(), "let val = true;");
    let returned = Statement::Return {
        token: Token::Return,
        value: Some(Expression::IntegerLiteral(IntegerLiteral::new(
            Token::Int("1".to_string()),
            1,
        ))),
    };
    assert_eq!(returned.to_string(), "return 1;");
    let nothing = Statement::Expression { token: Token::Semicolon, expression: None };
    assert_eq!(nothing.to_string(), "");
    assert_eq!(nothing.token_literal(), ";");
}

#[test]
fn precedence_ladder() {
    let ladder = [
        Precedence::Lowest,
        Precedence::Equals,
        Precedence::LessGreater,
        Precedence::Sum,
        Precedence::Product,
        Precedence::Prefix,
        Precedence::Call,
    ];
    for (place, precedence) in ladder.iter().enumerate() {
        assert_eq!(precedence.as_int(), place as i32);
    }
    for pair in ladder.windows(2) {
        assert!(pair[0] < pair[1]);
    }
    assert_eq!(Precedence::token(Token::Eq), Precedence::Equals);
    assert_eq!(Precedence::token(Token::NotEq), Precedence::Equals);
    assert_eq!(Precedence::token(Token::Lt), Precedence::LessGreater);
    assert_eq!(Precedence::token(Token::Gt), Precedence::LessGreater);
    assert_eq!(Precedence::token(Token::Plus), Precedence::Sum);
    assert_eq!(Precedence::token(Token::Minus), Precedence::Sum);
    assert_eq!(Precedence::token(Token::Slash), Precedence::Product);
    assert_eq!(Precedence::token(Token::Asterisk), Precedence::Product);
    assert_eq!(Precedence::token(Token::Lparen), Precedence::Call);
    assert_eq!(Precedence::token(Token::Bang), Precedence::Lowest);
    assert_eq!(Precedence::token(Token::Semicolon), Precedence::Lowest);
    assert_eq!(Precedence::token(Token::Rparen), Precedence::Lowest);
    assert_eq!(Precedence::token(Token::Eof), Precedence::Lowest);
    assert_eq!(Precedence::token(Token::Ident("x".to_string())), Precedence::Lowest);
}

#[test]
fn decimal_numerals() {
    assert_eq!(decimal_text(0), "0");
    assert_eq!(decimal_text(7), "7");
    assert_eq!(decimal_text(10), "10");
    assert_eq!(decimal_text(238784), "238784");
    assert_eq!(decimal_text(-1), "-1");
    assert_eq!(decimal_text(-120), "-120");
    assert_eq!(decimal_text(i32::MAX), "2147483647");
    assert_eq!(decimal_text(i32::MIN), "-2147483648");
    assert_eq!(parse_decimal("0"), Some(0));
    assert_eq!(parse_decimal("5"), Some(5));
    assert_eq!(parse_decimal("0042"), Some(42));
    assert_eq!(parse_decimal("2147483647"), Some(i32::MAX));
    assert_eq!(parse_decimal("2147483648"), None);
    assert_eq!(parse_decimal("99999999999999999999999"), None);
    assert_eq!(parse_decimal(""), None);
    assert_eq!(parse_decimal("12a"), None);
    assert_eq!(parse_decimal("-5"), None);
    assert_eq!(parse_decimal("+5"), None);
    assert_eq!(parse_decimal(" 5"), None);
    assert_eq!(parse_decimal("٣"), None);
}

#[test]
fn prefix_handlers_by_token() {
    let mut lexer = Lexer::new("5 + x");
    let mut parser = Parser::new(&mut lexer);
    let five = parser.prefix_parse_fns(&Token::Int("5".to_string())).unwrap();
    assert_eq!(five.to_string(), "5");
    assert!(parser.prefix_parse_fns(&Token::Plus).is_none());
    assert!(parser.prefix_parse_fns(&Token::Eof).is_none());
    assert!(parser.errors().is_empty());
    let as_name = parser.prefix_parse_fns(&Token::Ident("other".to_string())).unwrap();
    assert_eq!(as_name.to_string(), "5");
    let as_boolean = parser.prefix_parse_fns(&Token::True).unwrap();
    assert_eq!(as_boolean.to_string(), "false");
    let negated = parser.prefix_parse_fns(&Token::Bang);
    assert!(negated.is_none());
    assert_eq!(parser.errors().clone(), vec!["no prefix parse function for + found"]);
}

#[test]
fn infix_handlers_by_token() {
    let mut lexer = Lexer::new("+ x * y ; z");
    let mut parser = Parser::new(&mut lexer);
    let left = Expression::Boolean(Boolean { token: Token::True, value: true });
    let sum = parser.infix_parse_fns(&Token::Plus, left).unwrap();
    assert_eq!(sum.to_string(), "(true + (x * y))");
    let kept = parser.infix_parse_fns(&Token::Semicolon, sum);
    assert!(kept.is_none());
    assert!(parser.errors().is_empty());
    let rest = parser.parse_program();
    assert_eq!(rest.to_string(), "yz");
}

#[test]
fn parser_starts_where_the_lexer_stands() {
    let mut lexer = Lexer::new("let x = 5; y");
    assert_eq!(lexer.next_token(), Token::Let);
    let mut parser = Parser::new(&mut lexer);
    let program = parser.parse_program();
    assert_eq!(program.to_string(), "x5y");
    assert_eq!(parser.errors().clone(), vec!["no prefix parse function for = found"]);
    assert_eq!(lexer.next_token(), Token::Eof);
}

#[test]
fn let_lines_with_plain_values() {
    let (program, errors) = parse("let x = 5;\nlet y = (a + b);\nlet z = (!true);\n");
    assert!(errors.is_empty());
    assert_eq!(program.statements.len(), 3);
    let names = ["x", "y", "z"];
    let values = ["5", "(a + b)", "(!true)"];
    for i in 0..3 {
        match &program.statements[i] {
            Statement::Let { token, name: Some(name), value: Some(value) } => {
                assert_eq!(*token, Token::Let);
                assert_eq!(name.token, Token::Ident(names[i].to_string()));
                assert_eq!(name.value, names[i]);
                assert_eq!(value.to_string(), values[i]);
            }
            other => panic!("not a complete let statement: {:?}", other),
        }
    }
}

#[test]
fn nodes_agree_with_their_tokens() {
    let (program, errors) = parse("-a * 007 == true");
    assert!(errors.is_empty());
    match only_expression(&program) {
        Expression::Infix(equal) => {
            assert_eq!(equal.token, Token::Eq);
            assert_eq!(equal.operator, "==");
            match (&*equal.left, &*equal.right) {
                (Expression::Infix(product), Expression::Boolean(yes)) => {
                    assert_eq!(product.token, Token::Asterisk);
                    assert_eq!(product.operator, "*");
                    assert_eq!(yes.token, Token::True);
                    assert!(yes.value);
                    match (&*product.left, &*product.right) {
                        (Expression::Prefix(minus), Expression::IntegerLiteral(seven)) => {
                            assert_eq!(minus.token, Token::Minus);
                            assert_eq!(minus.operator, "-");
                            assert_eq!(seven.token, Token::Int("007".to_string()));
                            assert_eq!(seven.value, 7);
                            match &*minus.right {
                                Expression::Identifier(a) => {
                                    assert_eq!(a.token, Token::Ident("a".to_string()));
                                    assert_eq!(a.value, "a");
                                }
                                other => panic!("not a name: {:?}", other),
                            }
                        }
                        other => panic!("not a prefix and a number: {:?}", other),
                    }
                }
                other => panic!("not a product and a boolean: {:?}", other),
            }
        }
        other => panic!("not an infix expression: {:?}", other),
    }
}

#[test]
fn unclosed_block_is_an_error() {
    let unclosed = [
        "if (x) { y",
        "if (x) {",
        "if (x) { y } else { z",
        "fn(x) { x + 1;",
        "fn() {",
    ];
    for source in unclosed {
        let (program, errors) = parse(source);
        assert_eq!(
            errors,
            vec!["expected next token to be }, got \"\" instead"],
            "source {source}"
        );
        assert_eq!(program.statements.len(), 1);
        assert!(matches!(
            &program.statements[0],
            Statement::Expression { token: _, expression: None }
        ));
    }
    let (_, errors) = parse("if (x) { if (y) { z }");
    assert_eq!(errors, vec!["expected next token to be }, got \"\" instead"]);
}

#[test]
fn parameter_that_is_no_identifier_is_an_error() {
    let (program, errors) = parse("fn(5){}");
    assert_eq!(errors[0], "expected next token to be an identifier, got \"5\" instead");
    assert!(matches!(
        &program.statements[0],
        Statement::Expression { token: Token::Function, expression: None }
    ));
    for statement in &program.statements {
        if let Statement::Expression { token: _, expression: Some(expression) } = statement {
            assert!(!matches!(expression, Expression::Function(_)));
        }
    }
    assert_eq!(
        errors_of("fn(x, 5){}")[0],
        "expected next token to be an identifier, got \"5\" instead"
    );
    assert_eq!(
        errors_of("fn(x, ){}")[0],
        "expected next token to be an identifier, got \")\" instead"
    );
    assert_eq!(
        errors_of("fn(let){}")[0],
        "expected next token to be an identifier, got \"let\" instead"
    );
    assert_eq!(
        errors_of("fn(")[0],
        "expected next token to be an identifier, got \"\" instead"
    );
}

#[test]
fn parser_takes_two_tokens_when_made() {
    let mut lexer = Lexer::new("let x = 5;");
    let mut parser = Parser::new(&mut lexer);
    assert!(parser.errors().is_empty());
    assert_eq!(parser.lexer.next_token(), Token::Assign);
    let mut lexer = Lexer::new("x");
    let mut parser = Parser::new(&mut lexer);
    assert_eq!(parser.lexer.next_token(), Token::Eof);
}

#[test]
fn let_statements_in_any_layout() {
    let (program, errors) = parse("let   x=5 ;let\ty =\n(a + b);\n\n let z= true;let n = 007;");
    assert!(errors.is_empty());
    assert_eq!(program.statements.len(), 4);
    assert_eq!(program.to_string(), "let x = 5;let y = (a + b);let z = true;let n = 7;");
    let (again, errors) = parse(&program.to_string());
    assert!(errors.is_empty());
    assert_eq!(again.to_string(), program.to_string());
}
