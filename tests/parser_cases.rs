use monkey::ast::{Expression, LetStatement, Node, Program, Statement};
use monkey::lexer::Lexer;
use monkey::parser::{parse, ParseError, Parser};
use monkey::token::TokenType;

fn show(program: &Program, i: usize) -> String {
    match &program.expressions[i] {
        Expression::Ident(id) => id.value.clone(),
        Expression::Integer(t) => t.literal.clone(),
        Expression::Boolean(t) => t.literal.clone(),
        Expression::Prefix { token, right } => format!("({}{})", token.literal, show(program, *right)),
        Expression::Infix { token, left, right } => {
            format!("({} {} {})", show(program, *left), token.literal, show(program, *right))
        }
        Expression::Call { function, arguments, .. } => {
            let args: Vec<String> = arguments.iter().map(|a| show(program, *a)).collect();
            format!("{}({})", show(program, *function), args.join(", "))
        }
        Expression::Function { parameters, body, .. } => {
            let params: Vec<String> = parameters.iter().map(|p| p.value.clone()).collect();
            let stmts: Vec<String> = body.iter().map(|s| show_statement(program, s)).collect();
            format!("fn({}) {{ {} }}", params.join(", "), stmts.join(" "))
        }
    }
}

fn show_statement(program: &Program, statement: &Statement) -> String {
    match statement {
        Statement::Let(s) => format!("let {} = {};", s.name.value, show(program, s.value)),
        Statement::Expression(s) => show(program, s.expression),
    }
}

fn shown(input: &str) -> Vec<String> {
    let program = parse(input.to_string()).expect("the input parses");
    program.statements.iter().map(|s| show_statement(&program, s)).collect()
}

fn errors(input: &str) -> Vec<ParseError> {
    match parse(input.to_string()) {
        Ok(_) => panic!("the input should not parse"),
        Err(errors) => errors,
    }
}

fn as_let(statement: &Statement) -> &LetStatement {
    match statement {
        Statement::Let(s) => s,
        Statement::Expression(_) => panic!("not a let statement"),
    }
}

#[test]
fn test_let_statements() {
    let input = r#"let x = 5;
        let y = 10;
        let foobar = 838383;
        "#
    .to_string();

    let lexer = Lexer::new(input);
    let mut parser = Parser::new(lexer);
    let program = parser.parse_program().expect("the program parses");

    assert_eq!(program.statements.len(), 3);

    let expected_identifiers = ["x".to_string(), "y".to_string(), "foobar".to_string()];

    for (i, expected) in expected_identifiers.iter().enumerate() {
        assert!(test_let_statement(as_let(&program.statements[i]), expected));
    }
}

fn test_let_statement(let_statement: &LetStatement, name: &String) -> bool {
    if let_statement.token_literal() != "let" {
        return false;
    }

    if let_statement.name.value != *name {
        return false;
    }

    if let_statement.name.token_literal() != name {
        return false;
    }

    true
}

#[test]
fn full_program_has_four_let_statements() {
    let input = "let five = 5;\nlet ten = 10;\nlet add = fn(x, y) { x + y; };\nlet result = add(five, ten);\n";
    let program = parse(input.to_string()).expect("the program parses");
    assert_eq!(program.statements.len(), 4);
    let names: Vec<String> = program.statements.iter().map(|s| as_let(s).name.value.clone()).collect();
    assert_eq!(names, vec!["five", "ten", "add", "result"]);
    assert_eq!(
        shown(input),
        vec!["let five = 5;", "let ten = 10;", "let add = fn(x, y) { (x + y) };", "let result = add(five, ten);"]
    );
}

#[test]
fn comparisons_group_to_the_left() {
    assert_eq!(shown("5 < 10 > 5"), vec!["((5 < 10) > 5)"]);
    assert_eq!(shown("5 > 10 < 5;"), vec!["((5 > 10) < 5)"]);
}

#[test]
fn operators_bind_by_precedence() {
    assert_eq!(shown("1 + 2 * 3"), vec!["(1 + (2 * 3))"]);
    assert_eq!(shown("1 * 2 + 3"), vec!["((1 * 2) + 3)"]);
    assert_eq!(shown("a - b - c"), vec!["((a - b) - c)"]);
    assert_eq!(shown("a / b * c"), vec!["((a / b) * c)"]);
    assert_eq!(shown("1 < 2 == 3 > 4"), vec!["((1 < 2) == (3 > 4))"]);
    assert_eq!(shown("a + b != c"), vec!["((a + b) != c)"]);
    assert_eq!(shown("-a * b"), vec!["((-a) * b)"]);
    assert_eq!(shown("!-a"), vec!["(!(-a))"]);
    assert_eq!(shown("!true == false"), vec!["((!true) == false)"]);
    assert_eq!(shown("(1 + 2) * 3"), vec!["((1 + 2) * 3)"]);
    assert_eq!(shown("a + add(b * c, d) + e"), vec!["((a + add((b * c), d)) + e)"]);
    assert_eq!(shown("f()(x)"), vec!["f()(x)"]);
    assert_eq!(shown("-f(x)"), vec!["(-f(x))"]);
}

#[test]
fn function_literals_and_calls() {
    assert_eq!(shown("fn() { }"), vec!["fn() {  }"]);
    assert_eq!(shown("fn(a) { a; let b = a; b }"), vec!["fn(a) { a let b = a; b }"]);
    assert_eq!(shown("fn(x, y) { x * y }(2, 3);"), vec!["fn(x, y) { (x * y) }(2, 3)"]);
}

#[test]
fn statements_keep_their_tokens() {
    let program = parse("let a = 1; b + 2;".to_string()).expect("the program parses");
    assert_eq!(program.statements.len(), 2);
    assert_eq!(program.statements[0].token_literal(), "let");
    assert_eq!(program.statements[1].token_literal(), "b");
    let root = match &program.statements[1] {
        Statement::Expression(s) => s.expression,
        Statement::Let(_) => panic!("expected an expression statement"),
    };
    assert_eq!(program.expressions[root].token_literal(), "+");
}

#[test]
fn let_without_a_name_is_one_error_and_parsing_goes_on() {
    let found = errors("let = 5;");
    assert_eq!(
        found,
        vec![ParseError { expected: Some(TokenType::IDENT), found: TokenType::ASSIGN, position: 1 }]
    );
    let found = errors("let = 5; let y = 7;");
    assert_eq!(found.len(), 1);
    let found = errors("let = 5; let y 7; let z = 1;");
    assert_eq!(
        found,
        vec![
            ParseError { expected: Some(TokenType::IDENT), found: TokenType::ASSIGN, position: 1 },
            ParseError { expected: Some(TokenType::ASSIGN), found: TokenType::INT, position: 6 },
        ]
    );
}

#[test]
fn each_kind_of_error_is_reported() {
    assert_eq!(
        errors("let x = 5"),
        vec![ParseError { expected: Some(TokenType::SEMICOLON), found: TokenType::EOF, position: 4 }]
    );
    assert_eq!(
        errors(";"),
        vec![ParseError { expected: None, found: TokenType::SEMICOLON, position: 0 }]
    );
    assert_eq!(
        errors("(1 + 2"),
        vec![ParseError { expected: Some(TokenType::RPAREN), found: TokenType::EOF, position: 4 }]
    );
    assert_eq!(
        errors("f(1 2)"),
        vec![ParseError { expected: Some(TokenType::RPAREN), found: TokenType::INT, position: 3 }]
    );
    assert_eq!(
        errors("fn x"),
        vec![ParseError { expected: Some(TokenType::LPAREN), found: TokenType::IDENT, position: 1 }]
    );
    assert_eq!(
        errors("fn(1)"),
        vec![ParseError { expected: Some(TokenType::IDENT), found: TokenType::INT, position: 2 }]
    );
    assert_eq!(
        errors("fn(a b)"),
        vec![ParseError { expected: Some(TokenType::RPAREN), found: TokenType::IDENT, position: 3 }]
    );
    assert_eq!(
        errors("fn(a) x"),
        vec![ParseError { expected: Some(TokenType::LBRACE), found: TokenType::IDENT, position: 4 }]
    );
    assert_eq!(
        errors("fn(a) { a"),
        vec![ParseError { expected: Some(TokenType::RBRACE), found: TokenType::EOF, position: 6 }]
    );
    assert_eq!(
        errors("x @ y"),
        vec![ParseError { expected: None, found: TokenType::ILLEGAL, position: 1 }]
    );
}

#[test]
fn an_empty_program_has_no_statements() {
    let program = parse("   ".to_string()).expect("the program parses");
    assert_eq!(program.statements.len(), 0);
    assert_eq!(program.expressions.len(), 0);
}

#[test]
fn the_window_moves_one_token_at_a_time() {
    let mut parser = Parser::new(Lexer::new("a b".to_string()));
    let mut arena = Vec::new();
    let first = parser.parse_statement(&mut arena).expect("a statement");
    assert_eq!(first.token_literal(), "a");
    parser.next_token();
    parser.next_token();
    let program = parser.parse_program().expect("nothing left to parse");
    assert_eq!(program.statements.len(), 0);
}
