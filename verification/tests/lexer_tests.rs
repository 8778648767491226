use monkey::lexer::Lexer;
use monkey::token::{lookup_ident, Token};

fn tokens_of(input: &str) -> Vec<Token> {
    let mut lexer = Lexer::new(input);
    let mut tokens = Vec::new();
    loop {
        let token = lexer.next_token();
        if token == Token::Eof {
            return tokens;
        }
        tokens.push(token);
    }
}

fn ident(name: &str) -> Token {
    Token::Ident(name.to_string())
}

fn number(text: &str) -> Token {
    Token::Int(text.to_string())
}

#[test]
fn test_next_token() {
    let raw_input = "let five = 5;
let ten = 10;
let add = fn(x, y) {
x + y;
};
let result = add(five, ten);
!-/*5;
5 < 10 > 5;";
    let input = String::from(raw_input);
    let mut l = Lexer::new(&input);
    let tests = vec![
        Token::Let,
        Token::Ident("five".to_string()),
        Token::Assign,
        Token::Int("5".to_string()),
        Token::Semicolon,
        Token::Let,
        Token::Ident("ten".to_string()),
        Token::Assign,
        Token::Int("10".to_string()),
        Token::Semicolon,
        Token::Let,
        Token::Ident("add".to_string()),
        Token::Assign,
        Token::Function,
        Token::Lparen,
        Token::Ident("x".to_string()),
        Token::Comma,
        Token::Ident("y".to_string()),
        Token::Rparen,
        Token::Lbrace,
        Token::Ident("x".to_string()),
        Token::Plus,
        Token::Ident("y".to_string()),
        Token::Semicolon,
        Token::Rbrace,
        Token::Semicolon,
        Token::Let,
        Token::Ident("result".to_string()),
        Token::Assign,
        Token::Ident("add".to_string()),
        Token::Lparen,
        Token::Ident("five".to_string()),
        Token::Comma,
        Token::Ident("ten".to_string()),
        Token::Rparen,
        Token::Semicolon,
        Token::Bang,
        Token::Minus,
        Token::Slash,
        Token::Asterisk,
        Token::Int("5".to_string()),
        Token::Semicolon,
        Token::Int("5".to_string()),
        Token::Lt,
        Token::Int("10".to_string()),
        Token::Gt,
        Token::Int("5".to_string()),
        Token::Semicolon,
    ];

    for test in tests {
        let tok = l.next_token();
        assert_eq!(tok, test);
    }
}

#[test]
fn empty_input_is_eof_forever() {
    let mut lexer = Lexer::new("");
    for _ in 0..5 {
        assert_eq!(lexer.next_token(), Token::Eof);
    }
}

#[test]
fn eof_repeats_after_the_last_token() {
    let mut lexer = Lexer::new("x ");
    assert_eq!(lexer.next_token(), ident("x"));
    assert_eq!(lexer.next_token(), Token::Eof);
    assert_eq!(lexer.next_token(), Token::Eof);
    assert_eq!(lexer.next_token(), Token::Eof);
}

#[test]
fn blanks_alone_give_no_token() {
    assert_eq!(tokens_of(" \t\r\n  \n"), Vec::<Token>::new());
}

#[test]
fn two_character_operators() {
    assert_eq!(
        tokens_of("== != = ! =="),
        vec![Token::Eq, Token::NotEq, Token::Assign, Token::Bang, Token::Eq]
    );
    assert_eq!(tokens_of("==="), vec![Token::Eq, Token::Assign]);
    assert_eq!(tokens_of("!=="), vec![Token::NotEq, Token::Assign]);
    assert_eq!(tokens_of("= ="), vec![Token::Assign, Token::Assign]);
    assert_eq!(tokens_of("!"), vec![Token::Bang]);
    assert_eq!(tokens_of("="), vec![Token::Assign]);
}

#[test]
fn keywords_and_identifiers() {
    assert_eq!(
        tokens_of("fn let true false if else return"),
        vec![
            Token::Function,
            Token::Let,
            Token::True,
            Token::False,
            Token::If,
            Token::Else,
            Token::Return
        ]
    );
    assert_eq!(
        tokens_of("lets _x foo_bar If RETURN"),
        vec![ident("lets"), ident("_x"), ident("foo_bar"), ident("If"), ident("RETURN")]
    );
}

#[test]
fn letters_and_digits_split_into_runs() {
    assert_eq!(tokens_of("abc123"), vec![ident("abc"), number("123")]);
    assert_eq!(tokens_of("12ab"), vec![number("12"), ident("ab")]);
    assert_eq!(tokens_of("007"), vec![number("007")]);
    assert_eq!(tokens_of("99999999999"), vec![number("99999999999")]);
}

#[test]
fn unknown_characters_are_illegal_and_scanning_goes_on() {
    assert_eq!(
        tokens_of("a @ b"),
        vec![ident("a"), Token::Illegal, ident("b")]
    );
    assert_eq!(tokens_of("#$"), vec![Token::Illegal, Token::Illegal]);
    assert_eq!(tokens_of("\"x\""), vec![Token::Illegal, ident("x"), Token::Illegal]);
}

#[test]
fn text_beyond_ascii_is_kept_exactly() {
    assert_eq!(
        tokens_of("é x"),
        vec![Token::Illegal, ident("x")]
    );
    assert_eq!(
        tokens_of("añb"),
        vec![ident("a"), Token::Illegal, ident("b")]
    );
    assert_eq!(tokens_of("٣"), vec![Token::Illegal]);
}

#[test]
fn peek_char_and_read_char() {
    let mut lexer = Lexer::new("ab");
    assert_eq!(lexer.peek_char(), 'b');
    lexer.read_char();
    assert_eq!(lexer.peek_char(), '\0');
    lexer.read_char();
    assert_eq!(lexer.peek_char(), '\0');
    lexer.read_char();
    assert_eq!(lexer.next_token(), Token::Eof);
}

#[test]
fn skip_whitespace_stops_at_the_next_token() {
    let mut lexer = Lexer::new("   \n\t x");
    lexer.skip_whitespace();
    assert_eq!(lexer.peek_char(), '\0');
    assert_eq!(lexer.next_token(), ident("x"));
}

#[test]
fn literal_of_every_token() {
    let cases = vec![
        (Token::Illegal, ""),
        (Token::Eof, ""),
        (Token::Assign, "="),
        (Token::Plus, "+"),
        (Token::Minus, "-"),
        (Token::Bang, "!"),
        (Token::Asterisk, "*"),
        (Token::Slash, "/"),
        (Token::Lt, "<"),
        (Token::Gt, ">"),
        (Token::Comma, ","),
        (Token::Semicolon, ";"),
        (Token::Lparen, "("),
        (Token::Rparen, ")"),
        (Token::Lbrace, "{"),
        (Token::Rbrace, "}"),
        (Token::Let, "let"),
        (ident("foobar"), "foobar"),
        (number("42"), "42"),
        (Token::Function, "fn"),
        (Token::True, "true"),
        (Token::False, "false"),
        (Token::If, "if"),
        (Token::Else, "else"),
        (Token::Return, "return"),
        (Token::Eq, "=="),
        (Token::NotEq, "!="),
    ];
    for (token, literal) in cases {
        assert_eq!(token.get_literal(), literal);
    }
}

#[test]
fn lookup_of_every_keyword() {
    assert_eq!(lookup_ident("fn"), Token::Function);
    assert_eq!(lookup_ident("let"), Token::Let);
    assert_eq!(lookup_ident("return"), Token::Return);
    assert_eq!(lookup_ident("true"), Token::True);
    assert_eq!(lookup_ident("false"), Token::False);
    assert_eq!(lookup_ident("if"), Token::If);
    assert_eq!(lookup_ident("else"), Token::Else);
    assert_eq!(lookup_ident("elsewhere"), ident("elsewhere"));
    assert_eq!(lookup_ident("Let"), ident("Let"));
    assert_eq!(lookup_ident(""), ident(""));
}

#[test]
fn tokens_compare_with_their_text() {
    assert_eq!(ident("a"), ident("a"));
    assert_ne!(ident("a"), ident("b"));
    assert_ne!(ident("1"), number("1"));
    assert_ne!(Token::Lparen, Token::Lbrace);
    assert_eq!(number("10").clone(), number("10"));
}

#[test]
fn default_lexer_reads_the_empty_text() {
    let mut lexer = Lexer::default();
    assert_eq!(lexer.peek_char(), '\0');
    assert_eq!(lexer.next_token(), Token::Eof);
    assert_eq!(lexer.next_token(), Token::Eof);
}

#[test]
fn literal_is_read_back_as_its_token() {
    let tokens = vec![
        Token::Assign,
        Token::Plus,
        Token::Minus,
        Token::Bang,
        Token::Asterisk,
        Token::Slash,
        Token::Lt,
        Token::Gt,
        Token::Comma,
        Token::Semicolon,
        Token::Lparen,
        Token::Rparen,
        Token::Lbrace,
        Token::Rbrace,
        Token::Let,
        ident("foo_bar"),
        number("0042"),
        Token::Function,
        Token::True,
        Token::False,
        Token::If,
        Token::Else,
        Token::Return,
        Token::Eq,
        Token::NotEq,
    ];
    for token in tokens {
        assert_eq!(tokens_of(&token.get_literal()), vec![token.clone()]);
    }
    assert_eq!(tokens_of(&Token::Eof.get_literal()), Vec::<Token>::new());
    assert_eq!(tokens_of(&Token::Illegal.get_literal()), Vec::<Token>::new());
}
