//! The token model: the closed set of lexical tokens and their literal text.

use vstd::prelude::*;
use vstd::std_specs::cmp::PartialEqSpecImpl;

verus! {

/// The mathematical model of a [`Token`]: the same variants, with the text of
/// the two payload-carrying ones as a sequence of characters.
pub enum TokenView {
    Illegal,
    Eof,
    Assign,
    Plus,
    Minus,
    Bang,
    Asterisk,
    Slash,
    Lt,
    Gt,
    Comma,
    Semicolon,
    Lparen,
    Rparen,
    Lbrace,
    Rbrace,
    Let,
    Ident(Seq<char>),
    Int(Seq<char>),
    Function,
    True,
    False,
    If,
    Else,
    Return,
    Eq,
    NotEq,
}

/// A lexical token. Identifiers and integer literals carry their source text.
#[derive(Debug)]
pub enum Token {
    Illegal,
    Eof,
    Assign,
    Plus,
    Minus,
    Bang,
    Asterisk,
    Slash,
    Lt,
    Gt,
    Comma,
    Semicolon,
    Lparen,
    Rparen,
    Lbrace,
    Rbrace,
    Let,
    Ident(String),
    Int(String),
    Function,
    True,
    False,
    If,
    Else,
    Return,
    Eq,
    NotEq,
}

impl View for Token {
    type V = TokenView;

    open spec fn view(&self) -> TokenView {
        match self {
            Token::Illegal => TokenView::Illegal,
            Token::Eof => TokenView::Eof,
            Token::Assign => TokenView::Assign,
            Token::Plus => TokenView::Plus,
            Token::Minus => TokenView::Minus,
            Token::Bang => TokenView::Bang,
            Token::Asterisk => TokenView::Asterisk,
            Token::Slash => TokenView::Slash,
            Token::Lt => TokenView::Lt,
            Token::Gt => TokenView::Gt,
            Token::Comma => TokenView::Comma,
            Token::Semicolon => TokenView::Semicolon,
            Token::Lparen => TokenView::Lparen,
            Token::Rparen => TokenView::Rparen,
            Token::Lbrace => TokenView::Lbrace,
            Token::Rbrace => TokenView::Rbrace,
            Token::Let => TokenView::Let,
            Token::Ident(text) => TokenView::Ident(text@),
            Token::Int(text) => TokenView::Int(text@),
            Token::Function => TokenView::Function,
            Token::True => TokenView::True,
            Token::False => TokenView::False,
            Token::If => TokenView::If,
            Token::Else => TokenView::Else,
            Token::Return => TokenView::Return,
            Token::Eq => TokenView::Eq,
            Token::NotEq => TokenView::NotEq,
        }
    }
}

impl Clone for Token {
    fn clone(&self) -> (copy: Self)
        ensures
            copy@ == self@,
    {
        match self {
            Token::Illegal => Token::Illegal,
            Token::Eof => Token::Eof,
            Token::Assign => Token::Assign,
            Token::Plus => Token::Plus,
            Token::Minus => Token::Minus,
            Token::Bang => Token::Bang,
            Token::Asterisk => Token::Asterisk,
            Token::Slash => Token::Slash,
            Token::Lt => Token::Lt,
            Token::Gt => Token::Gt,
            Token::Comma => Token::Comma,
            Token::Semicolon => Token::Semicolon,
            Token::Lparen => Token::Lparen,
            Token::Rparen => Token::Rparen,
            Token::Lbrace => Token::Lbrace,
            Token::Rbrace => Token::Rbrace,
            Token::Let => Token::Let,
            Token::Ident(text) => Token::Ident(text.clone()),
            Token::Int(text) => Token::Int(text.clone()),
            Token::Function => Token::Function,
            Token::True => Token::True,
            Token::False => Token::False,
            Token::If => Token::If,
            Token::Else => Token::Else,
            Token::Return => Token::Return,
            Token::Eq => Token::Eq,
            Token::NotEq => Token::NotEq,
        }
    }
}

impl PartialEq for Token {
    fn eq(&self, other: &Token) -> (same: bool) {
        match (self, other) {
            (Token::Illegal, Token::Illegal) => true,
            (Token::Eof, Token::Eof) => true,
            (Token::Assign, Token::Assign) => true,
            (Token::Plus, Token::Plus) => true,
            (Token::Minus, Token::Minus) => true,
            (Token::Bang, Token::Bang) => true,
            (Token::Asterisk, Token::Asterisk) => true,
            (Token::Slash, Token::Slash) => true,
            (Token::Lt, Token::Lt) => true,
            (Token::Gt, Token::Gt) => true,
            (Token::Comma, Token::Comma) => true,
            (Token::Semicolon, Token::Semicolon) => true,
            (Token::Lparen, Token::Lparen) => true,
            (Token::Rparen, Token::Rparen) => true,
            (Token::Lbrace, Token::Lbrace) => true,
            (Token::Rbrace, Token::Rbrace) => true,
            (Token::Let, Token::Let) => true,
            (Token::Ident(left), Token::Ident(right)) => *left == *right,
            (Token::Int(left), Token::Int(right)) => *left == *right,
            (Token::Function, Token::Function) => true,
            (Token::True, Token::True) => true,
            (Token::False, Token::False) => true,
            (Token::If, Token::If) => true,
            (Token::Else, Token::Else) => true,
            (Token::Return, Token::Return) => true,
            (Token::Eq, Token::Eq) => true,
            (Token::NotEq, Token::NotEq) => true,
            _ => false,
        }
    }
}

impl PartialEqSpecImpl for Token {
    open spec fn obeys_eq_spec() -> bool {
        true
    }

    open spec fn eq_spec(&self, other: &Token) -> bool {
        self@ == other@
    }
}

impl TokenView {
    /// The literal text of a token: the payload of an identifier or an
    /// integer literal, the spelling of a keyword, an operator or a
    /// punctuation mark, and the empty text for `Illegal` and `Eof`.
    pub open spec fn literal(self) -> Seq<char> {
        match self {
            TokenView::Illegal => ""@,
            TokenView::Eof => ""@,
            TokenView::Assign => "="@,
            TokenView::Plus => "+"@,
            TokenView::Minus => "-"@,
            TokenView::Bang => "!"@,
            TokenView::Asterisk => "*"@,
            TokenView::Slash => "/"@,
            TokenView::Lt => "<"@,
            TokenView::Gt => ">"@,
            TokenView::Comma => ","@,
            TokenView::Semicolon => ";"@,
            TokenView::Lparen => "("@,
            TokenView::Rparen => ")"@,
            TokenView::Lbrace => "{"@,
            TokenView::Rbrace => "}"@,
            TokenView::Let => "let"@,
            TokenView::Ident(text) => text,
            TokenView::Int(text) => text,
            TokenView::Function => "fn"@,
            TokenView::True => "true"@,
            TokenView::False => "false"@,
            TokenView::If => "if"@,
            TokenView::Else => "else"@,
            TokenView::Return => "return"@,
            TokenView::Eq => "=="@,
            TokenView::NotEq => "!="@,
        }
    }
}

impl Token {
    /// The literal text of this token.
    pub fn get_literal(&self) -> (text: String)
        ensures
            text@ == self@.literal(),
    {
        match self {
            Token::Illegal => String::from_str(""),
            Token::Eof => String::from_str(""),
            Token::Assign => String::from_str("="),
            Token::Plus => String::from_str("+"),
            Token::Minus => String::from_str("-"),
            Token::Bang => String::from_str("!"),
            Token::Asterisk => String::from_str("*"),
            Token::Slash => String::from_str("/"),
            Token::Lt => String::from_str("<"),
            Token::Gt => String::from_str(">"),
            Token::Comma => String::from_str(","),
            Token::Semicolon => String::from_str(";"),
            Token::Lparen => String::from_str("("),
            Token::Rparen => String::from_str(")"),
            Token::Lbrace => String::from_str("{"),
            Token::Rbrace => String::from_str("}"),
            Token::Let => String::from_str("let"),
            Token::Ident(text) => text.clone(),
            Token::Int(text) => text.clone(),
            Token::Function => String::from_str("fn"),
            Token::True => String::from_str("true"),
            Token::False => String::from_str("false"),
            Token::If => String::from_str("if"),
            Token::Else => String::from_str("else"),
            Token::Return => String::from_str("return"),
            Token::Eq => String::from_str("=="),
            Token::NotEq => String::from_str("!="),
        }
    }
}

/// The token that a run of letters stands for: the keyword of that spelling,
/// or else an identifier carrying the run.
pub open spec fn keyword_or_ident(word: Seq<char>) -> TokenView {
    if word == "fn"@ {
        TokenView::Function
    } else if word == "let"@ {
        TokenView::Let
    } else if word == "return"@ {
        TokenView::Return
    } else if word == "true"@ {
        TokenView::True
    } else if word == "false"@ {
        TokenView::False
    } else if word == "if"@ {
        TokenView::If
    } else if word == "else"@ {
        TokenView::Else
    } else {
        TokenView::Ident(word)
    }
}

/// Looks a word up in the keyword table.
pub fn lookup_ident(literal: &str) -> (token: Token)
    ensures
        token@ == keyword_or_ident(literal@),
{
    let word = String::from_str(literal);
    if word == String::from_str("fn") {
        Token::Function
    } else if word == String::from_str("let") {
        Token::Let
    } else if word == String::from_str("return") {
        Token::Return
    } else if word == String::from_str("true") {
        Token::True
    } else if word == String::from_str("false") {
        Token::False
    } else if word == String::from_str("if") {
        Token::If
    } else if word == String::from_str("else") {
        Token::Else
    } else {
        Token::Ident(word)
    }
}

} // verus!
