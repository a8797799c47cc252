use monkey::lexer::Lexer;
use monkey::token::{lookup_ident, Token, TokenType};

#[test]
fn test_next_token() {
    let input = "=+(){},;".to_string();

    let test_tokens = [
        Token {
            token_type: TokenType::ASSIGN,
            literal: "=".to_string(),
        },
        Token {
            token_type: TokenType::PLUS,
            literal: "+".to_string(),
        },
        Token {
            token_type: TokenType::LPAREN,
            literal: "(".to_string(),
        },
        Token {
            token_type: TokenType::RPAREN,
            literal: ")".to_string(),
        },
        Token {
            token_type: TokenType::LBRACE,
            literal: "{".to_string(),
        },
        Token {
            token_type: TokenType::RBRACE,
            literal: "}".to_string(),
        },
        Token {
            token_type: TokenType::COMMA,
            literal: ",".to_string(),
        },
        Token {
            token_type: TokenType::SEMICOLON,
            literal: ";".to_string(),
        },
        Token {
            token_type: TokenType::EOF,
            literal: "\0".to_string(),
        },
    ];

    let mut lexer = Lexer::new(input);

    for token in test_tokens.iter() {
        let tok = lexer.next_token();
        assert_eq!(tok.token_type, token.token_type);
        assert_eq!(tok.literal, token.literal);
    }
}

#[test]
fn test_next_token_2() {
    let input = r#"let five = 5;
        let ten = 10;

        let add = fn(x, y) {
            x + y;
        };
        
        let result = add(five, ten);
        !-/*5;
        5 < 10 > 5;
        
        if (5 < 10) {
            return true;
        } else {
            return false;
        }
        
        10 == 10;
        10 != 9;
       "#
        .to_string();

    let test_tokens = [
        Token {
            token_type: TokenType::LET,
            literal: "let".to_string(),
        },
        Token {
            token_type: TokenType::IDENT,
            literal: "five".to_string(),
        },
        Token {
            token_type: TokenType::ASSIGN,
            literal: "=".to_string(),
        },
        Token {
            token_type: TokenType::INT,
            literal: "5".to_string(),
        },
        Token {
            token_type: TokenType::SEMICOLON,
            literal: ";".to_string(),
        },
        Token {
            token_type: TokenType::LET,
            literal: "let".to_string(),
        },
        Token {
            token_type: TokenType::IDENT,
            literal: "ten".to_string(),
        },
        Token {
            token_type: TokenType::ASSIGN,
            literal: "=".to_string(),
        },
        Token {
            token_type: TokenType::INT,
            literal: "10".to_string(),
        },
        Token {
            token_type: TokenType::SEMICOLON,
            literal: ";".to_string(),
        },
        Token {
            token_type: TokenType::LET,
            literal: "let".to_string(),
        },
        Token {
            token_type: TokenType::IDENT,
            literal: "add".to_string(),
        },
        Token {
            token_type: TokenType::ASSIGN,
            literal: "=".to_string(),
        },
        Token {
            token_type: TokenType::FUNCTION,
            literal: "fn".to_string(),
        },
        Token {
            token_type: TokenType::LPAREN,
            literal: "(".to_string(),
        },
        Token {
            token_type: TokenType::IDENT,
            literal: "x".to_string(),
        },
        Token {
            token_type: TokenType::COMMA,
            literal: ",".to_string(),
        },
        Token {
            token_type: TokenType::IDENT,
            literal: "y".to_string(),
        },
        Token {
            token_type: TokenType::RPAREN,
            literal: ")".to_string(),
        },
        Token {
            token_type: TokenType::LBRACE,
            literal: "{".to_string(),
        },
        Token {
            token_type: TokenType::IDENT,
            literal: "x".to_string(),
        },
        Token {
            token_type: TokenType::PLUS,
            literal: "+".to_string(),
        },
        Token {
            token_type: TokenType::IDENT,
            literal: "y".to_string(),
        },
        Token {
            token_type: TokenType::SEMICOLON,
            literal: ";".to_string(),
        },
        Token {
            token_type: TokenType::RBRACE,
            literal: "}".to_string(),
        },
        Token {
            token_type: TokenType::SEMICOLON,
            literal: ";".to_string(),
        },
        Token {
            token_type: TokenType::LET,
            literal: "let".to_string(),
        },
        Token {
            token_type: TokenType::IDENT,
            literal: "result".to_string(),
        },
        Token {
            token_type: TokenType::ASSIGN,
            literal: "=".to_string(),
        },
        Token {
            token_type: TokenType::IDENT,
            literal: "add".to_string(),
        },
        Token {
            token_type: TokenType::LPAREN,
            literal: "(".to_string(),
        },
        Token {
            token_type: TokenType::IDENT,
            literal: "five".to_string(),
        },
        Token {
            token_type: TokenType::COMMA,
            literal: ",".to_string(),
        },
        Token {
            token_type: TokenType::IDENT,
            literal: "ten".to_string(),
        },
        Token {
            token_type: TokenType::RPAREN,
            literal: ")".to_string(),
        },
        Token {
            token_type: TokenType::SEMICOLON,
            literal: ";".to_string(),
        },
        Token {
            token_type: TokenType::BANG,
            literal: "!".to_string(),
        },
        Token {
            token_type: TokenType::MINUS,
            literal: "-".to_string(),
        },
        Token {
            token_type: TokenType::SLASH,
            literal: "/".to_string(),
        },
        Token {
            token_type: TokenType::ASTERISK,
            literal: "*".to_string(),
        },
        Token {
            token_type: TokenType::INT,
            literal: "5".to_string(),
        },
        Token {
            token_type: TokenType::SEMICOLON,
            literal: ";".to_string(),
        },
        Token {
            token_type: TokenType::INT,
            literal: "5".to_string(),
        },
        Token {
            token_type: TokenType::LT,
            literal: "<".to_string(),
        },
        Token {
            token_type: TokenType::INT,
            literal: "10".to_string(),
        },
        Token {
            token_type: TokenType::GT,
            literal: ">".to_string(),
        },
        Token {
            token_type: TokenType::INT,
            literal: "5".to_string(),
        },
        Token {
            token_type: TokenType::SEMICOLON,
            literal: ";".to_string(),
        },
        Token {
            token_type: TokenType::IF,
            literal: "if".to_string(),
        },
        Token {
            token_type: TokenType::LPAREN,
            literal: "(".to_string(),
        },
        Token {
            token_type: TokenType::INT,
            literal: "5".to_string(),
        },
        Token {
            token_type: TokenType::LT,
            literal: "<".to_string(),
        },
        Token {
            token_type: TokenType::INT,
            literal: "10".to_string(),
        },
        Token {
            token_type: TokenType::RPAREN,
            literal: ")".to_string(),
        },
        Token {
            token_type: TokenType::LBRACE,
            literal: "{".to_string(),
        },
        Token {
            token_type: TokenType::RETURN,
            literal: "return".to_string(),
        },
        Token {
            token_type: TokenType::TRUE,
            literal: "true".to_string(),
        },
        Token {
            token_type: TokenType::SEMICOLON,
            literal: ";".to_string(),
        },
        Token {
            token_type: TokenType::RBRACE,
            literal: "}".to_string(),
        },
        Token {
            token_type: TokenType::ELSE,
            literal: "else".to_string(),
        },
        Token {
            token_type: TokenType::LBRACE,
            literal: "{".to_string(),
        },
        Token {
            token_type: TokenType::RETURN,
            literal: "return".to_string(),
        },
        Token {
            token_type: TokenType::FALSE,
            literal: "false".to_string(),
        },
        Token {
            token_type: TokenType::SEMICOLON,
            literal: ";".to_string(),
        },
        Token {
            token_type: TokenType::RBRACE,
            literal: "}".to_string(),
        },
        Token {
            token_type: TokenType::INT,
            literal: "10".to_string(),
        },
        Token {
            token_type: TokenType::EQ,
            literal: "==".to_string(),
        },
        Token {
            token_type: TokenType::INT,
            literal: "10".to_string(),
        },
        Token {
            token_type: TokenType::SEMICOLON,
            literal: ";".to_string(),
        },
        Token {
            token_type: TokenType::INT,
            literal: "10".to_string(),
        },
        Token {
            token_type: TokenType::NEQ,
            literal: "!=".to_string(),
        },
        Token {
            token_type: TokenType::INT,
            literal: "9".to_string(),
        },
        Token {
            token_type: TokenType::SEMICOLON,
            literal: ";".to_string(),
        },
        Token {
            token_type: TokenType::EOF,
            literal: "\0".to_string(),
        },
    ];

    let mut lexer = Lexer::new(input);

    for token in test_tokens.iter() {
        let tok = lexer.next_token();

        println!("tok: {:?}, token: {:?}", tok, token);

        assert_eq!(tok.token_type, token.token_type);
        assert_eq!(tok.literal, token.literal);
    }
}
fn all_tokens(input: &str) -> Vec<(TokenType, String)> {
    monkey::lexer::tokenize(input.to_string())
        .into_iter()
        .map(|t| (t.token_type, t.literal))
        .collect()
}

fn pair(kind: TokenType, literal: &str) -> (TokenType, String) {
    (kind, literal.to_string())
}

#[test]
fn single_character_tokens_follow_the_table() {
    let table = [
        ("=", TokenType::ASSIGN),
        ("+", TokenType::PLUS),
        ("-", TokenType::MINUS),
        ("!", TokenType::BANG),
        ("*", TokenType::ASTERISK),
        ("/", TokenType::SLASH),
        ("<", TokenType::LT),
        (">", TokenType::GT),
        ("(", TokenType::LPAREN),
        (")", TokenType::RPAREN),
        ("{", TokenType::LBRACE),
        ("}", TokenType::RBRACE),
        (",", TokenType::COMMA),
        (";", TokenType::SEMICOLON),
    ];
    for (text, kind) in table.iter() {
        let mut lexer = Lexer::new(text.to_string());
        let tok = lexer.next_token();
        assert_eq!(tok.token_type, *kind);
        assert_eq!(tok.literal, *text);
        assert_eq!(lexer.next_token().token_type, TokenType::EOF);
    }
}

#[test]
fn letters_are_read_by_maximal_munch() {
    assert_eq!(all_tokens("letx"), vec![pair(TokenType::IDENT, "letx"), pair(TokenType::EOF, "\0")]);
    assert_eq!(all_tokens("let"), vec![pair(TokenType::LET, "let"), pair(TokenType::EOF, "\0")]);
    assert_eq!(all_tokens("fnord_x"), vec![pair(TokenType::IDENT, "fnord_x"), pair(TokenType::EOF, "\0")]);
}

#[test]
fn two_character_operators_are_told_apart() {
    assert_eq!(all_tokens("="), vec![pair(TokenType::ASSIGN, "="), pair(TokenType::EOF, "\0")]);
    assert_eq!(all_tokens("=="), vec![pair(TokenType::EQ, "=="), pair(TokenType::EOF, "\0")]);
    assert_eq!(all_tokens("!"), vec![pair(TokenType::BANG, "!"), pair(TokenType::EOF, "\0")]);
    assert_eq!(all_tokens("!="), vec![pair(TokenType::NEQ, "!="), pair(TokenType::EOF, "\0")]);
    assert_eq!(
        all_tokens("=!=="),
        vec![pair(TokenType::ASSIGN, "="), pair(TokenType::NEQ, "!="), pair(TokenType::ASSIGN, "="), pair(TokenType::EOF, "\0")]
    );
}

#[test]
fn let_statement_round_trip() {
    assert_eq!(
        all_tokens("let x = 5;"),
        vec![
            pair(TokenType::LET, "let"),
            pair(TokenType::IDENT, "x"),
            pair(TokenType::ASSIGN, "="),
            pair(TokenType::INT, "5"),
            pair(TokenType::SEMICOLON, ";"),
            pair(TokenType::EOF, "\0"),
        ]
    );
}

#[test]
fn end_of_input_repeats() {
    let mut lexer = Lexer::new("  x  ".to_string());
    assert_eq!(lexer.next_token().literal, "x");
    for _ in 0..5 {
        let tok = lexer.next_token();
        assert_eq!(tok.token_type, TokenType::EOF);
        assert_eq!(tok.literal, "\0");
    }
}

#[test]
fn empty_and_blank_inputs_give_end_of_input() {
    assert_eq!(all_tokens(""), vec![pair(TokenType::EOF, "\0")]);
    assert_eq!(all_tokens(" \t\r\n "), vec![pair(TokenType::EOF, "\0")]);
}

#[test]
fn words_and_numbers_stop_at_punctuation() {
    assert_eq!(
        all_tokens("let(12;x)"),
        vec![
            pair(TokenType::LET, "let"),
            pair(TokenType::LPAREN, "("),
            pair(TokenType::INT, "12"),
            pair(TokenType::SEMICOLON, ";"),
            pair(TokenType::IDENT, "x"),
            pair(TokenType::RPAREN, ")"),
            pair(TokenType::EOF, "\0"),
        ]
    );
    assert_eq!(
        all_tokens("12abc"),
        vec![pair(TokenType::INT, "12"), pair(TokenType::IDENT, "abc"), pair(TokenType::EOF, "\0")]
    );
}

#[test]
fn unknown_characters_are_illegal_one_at_a_time() {
    assert_eq!(
        all_tokens("a@#é"),
        vec![
            pair(TokenType::IDENT, "a"),
            pair(TokenType::ILLEGAL, "@"),
            pair(TokenType::ILLEGAL, "#"),
            pair(TokenType::ILLEGAL, "é"),
            pair(TokenType::EOF, "\0"),
        ]
    );
}

#[test]
fn a_nul_character_in_the_text_is_illegal() {
    assert_eq!(
        all_tokens("a\0b"),
        vec![pair(TokenType::IDENT, "a"), pair(TokenType::ILLEGAL, "\0"), pair(TokenType::IDENT, "b"), pair(TokenType::EOF, "\0")]
    );
}

#[test]
fn keywords_are_looked_up() {
    assert_eq!(lookup_ident("fn"), TokenType::FUNCTION);
    assert_eq!(lookup_ident("let"), TokenType::LET);
    assert_eq!(lookup_ident("true"), TokenType::TRUE);
    assert_eq!(lookup_ident("false"), TokenType::FALSE);
    assert_eq!(lookup_ident("if"), TokenType::IF);
    assert_eq!(lookup_ident("else"), TokenType::ELSE);
    assert_eq!(lookup_ident("return"), TokenType::RETURN);
    assert_eq!(lookup_ident("returns"), TokenType::IDENT);
    assert_eq!(lookup_ident("Let"), TokenType::IDENT);
    assert_eq!(lookup_ident(""), TokenType::IDENT);
}

#[test]
fn new_token_holds_one_character() {
    let tok = Lexer::new_token(TokenType::PLUS, '+');
    assert_eq!(tok.token_type, TokenType::PLUS);
    assert_eq!(tok.literal, "+");
    let copy = tok.duplicate();
    assert_eq!(copy.literal, "+");
}
