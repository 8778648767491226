//! The parser: a cursor of two tokens over a tokenizer, and the functions
//! that build the syntax tree, one for each rule of the grammar.

use vstd::prelude::*;
use vstd::string::StringExecFns;
use crate::ast::{
    expression_views, identifier_views, statement_views, BlockStatement, Boolean, CallExpression,
    Expression, ExpressionView, FunctionLiteral, Identifier, IdentifierView, IfExpression,
    InfixExpression, IntegerLiteral, PrefixExpression, Program, Statement, StatementView,
};
use crate::grammar;
use crate::grammar::{
    append, identifier_at, identifier_expected_message, no_prefix_message, opens_compound,
    precedence_of, prepend, starts_expression, unexpected_token_message, ParserView,
};
use crate::lexer::{
    lemma_token_stream_is_proper, lemma_token_stream_unfolds, lex_step, proper_tokens,
    token_stream, Lexer, LexerView,
};
use crate::progress::{lemma_program_follows, lemma_stays_proper, lemma_steps_follow};
use crate::soundness::{lemma_sound_program, sound_statements, whole_statements};
use crate::text::parse_decimal;
use crate::token::{Token, TokenView};

verus! {

/// How tightly an operator binds, from loosest to tightest.
#[derive(Debug, Clone, Copy, PartialEq, Eq, PartialOrd, Structural)]
pub enum Precedence {
    Lowest,
    Equals,
    LessGreater,
    Sum,
    Product,
    Prefix,
    Call,
}

impl Precedence {
    /// The place of this precedence in the order, from 0 for the loosest.
    pub open spec fn rank(self) -> int {
        match self {
            Precedence::Lowest => 0,
            Precedence::Equals => 1,
            Precedence::LessGreater => 2,
            Precedence::Sum => 3,
            Precedence::Product => 4,
            Precedence::Prefix => 5,
            Precedence::Call => 6,
        }
    }

    /// The place of this precedence in the order, from 0 for the loosest.
    pub fn as_int(&self) -> (place: i32)
        ensures
            place == self.rank(),
    {
        match self {
            Precedence::Lowest => 0,
            Precedence::Equals => 1,
            Precedence::LessGreater => 2,
            Precedence::Sum => 3,
            Precedence::Product => 4,
            Precedence::Prefix => 5,
            Precedence::Call => 6,
        }
    }

    /// How tightly the operator `token` binds the expression to its left.
    pub fn token(token: Token) -> (precedence: Self)
        ensures
            precedence == precedence_of(token@),
    {
        match token {
            Token::Eq => Self::Equals,
            Token::NotEq => Self::Equals,
            Token::Lt => Self::LessGreater,
            Token::Gt => Self::LessGreater,
            Token::Plus => Self::Sum,
            Token::Minus => Self::Sum,
            Token::Slash => Self::Product,
            Token::Asterisk => Self::Product,
            Token::Lparen => Self::Call,
            _ => Self::Lowest,
        }
    }
}

/// The model of a value that may be absent.
pub open spec fn view_of<T: View>(value: Option<T>) -> Option<T::V> {
    match value {
        Some(value) => Some(value@),
        None => None,
    }
}

/// The texts of a sequence of strings.
pub open spec fn texts(strings: Seq<String>) -> Seq<Seq<char>> {
    Seq::new(strings.len(), |i: int| strings[i]@)
}

/// The tokens that a parser has yet to pass: its current token, the one
/// behind it, and what the tokenizer will hand out, up to the first `Eof`.
pub open spec fn upcoming(cur: TokenView, peek: TokenView, rest: Seq<TokenView>) -> Seq<TokenView> {
    if cur is Eof {
        Seq::empty()
    } else if peek is Eof {
        seq![cur]
    } else {
        seq![cur, peek] + rest
    }
}

/// A parser over a tokenizer.
pub struct Parser<'parser> {
    pub lexer: &'parser mut Lexer,
    cur_token: Token,
    peek_token: Token,
    errors: Vec<String>,
}

impl<'parser> View for Parser<'parser> {
    type V = ParserView;

    closed spec fn view(&self) -> ParserView {
        ParserView {
            tokens: upcoming(
                self.cur_token@,
                self.peek_token@,
                token_stream(self.lexer@.input, self.lexer@.position),
            ),
            errors: texts(self.errors@),
        }
    }
}

impl<'parser> Parser<'parser> {
    /// Whether the two tokens that the parser holds are the next two of
    /// its tokenizer's text, `Eof` standing for the end from where it first
    /// appears.
    pub closed spec fn wf(&self) -> bool {
        &&& 0 <= self.lexer@.position <= self.lexer@.input.len()
        &&& self.cur_token@ is Eof ==> self.peek_token@ is Eof
        &&& self.peek_token@ is Eof ==> self.lexer@.position == self.lexer@.input.len()
        &&& self.peek_token@ is Eof ==> token_stream(self.lexer@.input, self.lexer@.position)
            == Seq::<TokenView>::empty()
        &&& proper_tokens(self@.tokens)
    }

    /// The state of the tokenizer that the parser reads from: its text, and
    /// its cursor behind the two tokens that the parser holds.
    pub closed spec fn source(&self) -> LexerView {
        self.lexer@
    }

    /// The tokens ahead of a well-formed parser are the two that it holds
    /// and those that its tokenizer has yet to hand out: behind the first
    /// two come the tokens of the tokenizer's text from its cursor on.
    pub proof fn lemma_tokens_from_source(&self)
        requires
            self.wf(),
        ensures
            0 <= self.source().position <= self.source().input.len(),
            self@.tokens.len() >= 2 ==> self@.tokens.skip(2) == token_stream(
                self.source().input,
                self.source().position,
            ),
            self@.tokens.len() < 2 ==> self.source().position == self.source().input.len(),
    {
        let rest = token_stream(self.lexer@.input, self.lexer@.position);
        if self@.tokens.len() >= 2 {
            assert((seq![self.cur_token@, self.peek_token@] + rest).skip(2) == rest);
        }
    }

    /// The tokens ahead of a well-formed parser are such as a tokenizer
    /// hands out.
    pub proof fn lemma_tokens_are_proper(&self)
        requires
            self.wf(),
        ensures
            proper_tokens(self@.tokens),
    {
    }

    /// The two tokens that a well-formed parser holds are the first two of
    /// its model.
    proof fn lemma_cursor(&self)
        requires
            self.wf(),
        ensures
            self@.cur() == self.cur_token@,
            self@.peek() == self.peek_token@,
            self@.errors == texts(self.errors@),
            self.cur_token@ is Eof <==> self@.tokens.len() == 0,
    {
    }

    /// A parser at the first token that `lexer` hands out. It takes two
    /// tokens from `lexer`, and leaves its cursor behind the second.
    pub fn new(lexer: &'parser mut Lexer) -> (parser: Self)
        ensures
            parser.wf(),
            parser@.tokens == token_stream(old(lexer)@.input, old(lexer)@.position),
            parser@.errors == Seq::<Seq<char>>::empty(),
            parser@.cur() == lex_step(old(lexer)@.input, old(lexer)@.position).token,
            parser@.peek() == lex_step(
                old(lexer)@.input,
                lex_step(old(lexer)@.input, old(lexer)@.position).next,
            ).token,
            parser.source().input == old(lexer)@.input,
            parser.source().position == lex_step(
                old(lexer)@.input,
                lex_step(old(lexer)@.input, old(lexer)@.position).next,
            ).next,
    {
        let ghost input = lexer@.input;
        let ghost start = lexer@.position;
        let cur_token = lexer.next_token();
        let ghost middle = lexer@.position;
        let peek_token = lexer.next_token();
        proof {
            lemma_token_stream_unfolds(input, start);
            lemma_token_stream_unfolds(input, middle);
            lemma_token_stream_is_proper(input, start);
            assert(upcoming(cur_token@, peek_token@, token_stream(input, lexer@.position))
                =~= token_stream(input, start));
        }
        Parser { lexer, cur_token, peek_token, errors: Vec::new() }
    }

    /// The error messages gathered so far, oldest first.
    pub fn errors(&self) -> (errors: &Vec<String>)
        ensures
            texts(errors@) == self@.errors,
    {
        &self.errors
    }

    /// Moves on by one token.
    fn next_token(&mut self)
        requires
            old(self).wf(),
        ensures
            final(self).wf(),
            final(self).source().input == old(self).source().input,
            final(self)@ == old(self)@.advance(),
    {
        let ghost input = self.lexer@.input;
        let ghost position = self.lexer@.position;
        let mut token = self.lexer.next_token();
        core::mem::swap(&mut self.peek_token, &mut token);
        self.cur_token = token;
        proof {
            lemma_token_stream_unfolds(input, position);
            assert(self@.tokens =~= old(self)@.advance().tokens);
            lemma_steps_follow(old(self)@, Seq::empty(), TokenView::Eof);
            lemma_stays_proper(old(self)@, old(self)@.advance());
        }
    }

    /// Whether the current token is `t`.
    fn cur_token_is(&self, t: Token) -> (yes: bool)
        requires
            self.wf(),
        ensures
            yes == (self@.cur() == t@),
    {
        proof {
            self.lemma_cursor();
        }
        self.cur_token == t
    }

    /// Whether the token behind the current one is `t`.
    fn peek_token_is(&self, t: Token) -> (yes: bool)
        requires
            self.wf(),
        ensures
            yes == (self@.peek() == t@),
    {
        proof {
            self.lemma_cursor();
        }
        self.peek_token == t
    }

    /// How tightly the token behind the current one binds.
    fn peek_precedence(&self) -> (precedence: Precedence)
        requires
            self.wf(),
        ensures
            precedence == precedence_of(self@.peek()),
    {
        proof {
            self.lemma_cursor();
        }
        Precedence::token(self.peek_token.clone())
    }

    /// How tightly the current token binds.
    fn cur_precedence(&self) -> (precedence: Precedence)
        requires
            self.wf(),
        ensures
            precedence == precedence_of(self@.cur()),
    {
        proof {
            self.lemma_cursor();
        }
        Precedence::token(self.cur_token.clone())
    }

    /// Adds `message` to the errors.
    fn record(&mut self, message: String)
        requires
            old(self).wf(),
        ensures
            final(self).wf(),
            final(self).source().input == old(self).source().input,
            final(self)@ == old(self)@.with_error(message@),
    {
        self.errors.push(message);
        assert(texts(self.errors@) == texts(old(self).errors@).push(message@));
    }

    /// Records that the token behind the current one is not `t`.
    fn peek_error(&mut self, t: Token)
        requires
            old(self).wf(),
        ensures
            final(self).wf(),
            final(self).source().input == old(self).source().input,
            final(self)@ == old(self)@.with_error(
                unexpected_token_message(t@, old(self)@.peek()),
            ),
    {
        proof {
            self.lemma_cursor();
        }
        let found = self.peek_token.clone();
        self.token_error(t, found);
    }

    /// Records that `found` stands where `expected` should.
    fn token_error(&mut self, expected: Token, found: Token)
        requires
            old(self).wf(),
        ensures
            final(self).wf(),
            final(self).source().input == old(self).source().input,
            final(self)@ == old(self)@.with_error(unexpected_token_message(expected@, found@)),
    {
        let mut message = String::from_str("expected next token to be ");
        message.append(expected.get_literal().as_str());
        message.append(", got \"");
        message.append(found.get_literal().as_str());
        message.append("\" instead");
        self.record(message);
    }

    /// Records that the token behind the current one is no identifier.
    fn identifier_error(&mut self)
        requires
            old(self).wf(),
        ensures
            final(self).wf(),
            final(self).source().input == old(self).source().input,
            final(self)@ == old(self)@.with_error(
                identifier_expected_message(old(self)@.peek()),
            ),
    {
        proof {
            self.lemma_cursor();
        }
        let mut message = String::from_str("expected next token to be an identifier, got \"");
        message.append(self.peek_token.get_literal().as_str());
        message.append("\" instead");
        self.record(message);
    }

    /// Records that no expression starts with `t`.
    fn no_prefix_parse_fn_errors(&mut self, t: Token)
        requires
            old(self).wf(),
        ensures
            final(self).wf(),
            final(self).source().input == old(self).source().input,
            final(self)@ == old(self)@.with_error(no_prefix_message(t@)),
    {
        let mut message = String::from_str("no prefix parse function for ");
        message.append(t.get_literal().as_str());
        message.append(" found");
        self.record(message);
    }

    /// Moves on to the token behind the current one if it is `t`, and
    /// records an error if it is not.
    fn expect_peek(&mut self, t: Token) -> (met: bool)
        requires
            old(self).wf(),
        ensures
            final(self).wf(),
            final(self).source().input == old(self).source().input,
            final(self)@ == grammar::expect_peek(old(self)@, t@).state,
            met == grammar::expect_peek(old(self)@, t@).value,
    {
        if self.peek_token_is(t.clone()) {
            self.next_token();
            return true;
        }
        self.peek_error(t);
        false
    }

    /// Whether the token behind the current one is an identifier.
    fn peek_is_identifier(&self) -> (yes: bool)
        requires
            self.wf(),
        ensures
            yes == (self@.peek() is Ident),
    {
        proof {
            self.lemma_cursor();
        }
        match &self.peek_token {
            Token::Ident(_) => true,
            _ => false,
        }
    }

    /// A copy of the current token.
    fn current(&self) -> (token: Token)
        requires
            self.wf(),
        ensures
            token@ == self@.cur(),
    {
        proof {
            self.lemma_cursor();
        }
        self.cur_token.clone()
    }

    /// Parses the whole program: every statement up to the end of the
    /// tokens, in source order. The errors met on the way are in
    /// [`Parser::errors`].
    ///
    /// What the parse yields is what the grammar says. Of that it holds
    /// that no token is left and the tokenizer stands at the end of its
    /// text, that the errors recorded before are still
    /// there with the new ones behind them, that every node of the program
    /// agrees with its token, and that nothing is missing in the program
    /// if no error was added.
    pub fn parse_program(&mut self) -> (program: Program)
        requires
            old(self).wf(),
        ensures
            final(self).wf(),
            final(self).source().input == old(self).source().input,
            final(self)@ == grammar::parse_program(old(self)@).state,
            program@.statements == grammar::parse_program(old(self)@).value,
            final(self)@.tokens.len() == 0,
            final(self).source().position == final(self).source().input.len(),
            final(self)@.follows(old(self)@),
            sound_statements(program@.statements),
            final(self)@.errors == old(self)@.errors ==> whole_statements(program@.statements),
    {
        proof {
            lemma_program_follows(old(self)@);
            lemma_sound_program(old(self)@);
        }
        let mut program = Program::new();
        assert(statement_views(program.statements) == Seq::<StatementView>::empty());
        while !self.cur_token_is(Token::Eof)
            invariant
                self.wf(),
                self.source().input == old(self).source().input,
                grammar::parse_program(old(self)@).state == grammar::parse_program(self@).state,
                grammar::parse_program(old(self)@).value == statement_views(program.statements)
                    + grammar::parse_program(self@).value,
            decreases self@.tokens.len(),
        {
            let ghost before = self@;
            let ghost collected = statement_views(program.statements);
            let statement = self.parse_statement();
            if let Some(statement) = statement {
                program.statements.push(statement);
            }
            self.next_token();
            proof {
                let first = grammar::parse_statement(before);
                assert(statement_views(program.statements) == append(collected, first.value));
                assert(append(collected, first.value) + grammar::parse_program(self@).value
                    == collected + prepend(first.value, grammar::parse_program(self@).value));
            }
        }
        proof {
            self.lemma_cursor();
            assert(statement_views(program.statements) + Seq::<StatementView>::empty()
                == statement_views(program.statements));
        }
        program
    }

    /// Parses one statement.
    fn parse_statement(&mut self) -> (statement: Option<Statement>)
        requires
            old(self).wf(),
        ensures
            final(self).wf(),
            final(self).source().input == old(self).source().input,
            final(self)@ == grammar::parse_statement(old(self)@).state,
            view_of(statement) == grammar::parse_statement(old(self)@).value,
            final(self)@.no_longer_than(old(self)@),
        decreases old(self)@.tokens.len(), 11nat,
    {
        if self.cur_token_is(Token::Let) {
            self.parse_let_statement()
        } else if self.cur_token_is(Token::Return) {
            self.parse_return_statement()
        } else {
            self.parse_expression_statement()
        }
    }

    /// Parses a `let` statement, the current token being `let`.
    fn parse_let_statement(&mut self) -> (statement: Option<Statement>)
        requires
            old(self).wf(),
        ensures
            final(self).wf(),
            final(self).source().input == old(self).source().input,
            final(self)@ == grammar::parse_let_statement(old(self)@).state,
            view_of(statement) == grammar::parse_let_statement(old(self)@).value,
            final(self)@.no_longer_than(old(self)@),
        decreases old(self)@.tokens.len(), 10nat,
    {
        if !self.peek_is_identifier() {
            self.identifier_error();
            return None;
        }
        self.next_token();
        let name = Identifier::new(self.current());
        if !self.expect_peek(Token::Assign) {
            return None;
        }
        self.next_token();
        let value = self.parse_expression(Precedence::Lowest);
        if self.peek_token_is(Token::Semicolon) {
            self.next_token();
        }
        Some(Statement::Let { token: Token::Let, name: Some(name), value })
    }

    /// Parses a `return` statement, the current token being `return`.
    fn parse_return_statement(&mut self) -> (statement: Option<Statement>)
        requires
            old(self).wf(),
        ensures
            final(self).wf(),
            final(self).source().input == old(self).source().input,
            final(self)@ == grammar::parse_return_statement(old(self)@).state,
            view_of(statement) == grammar::parse_return_statement(old(self)@).value,
            final(self)@.no_longer_than(old(self)@),
        decreases old(self)@.tokens.len(), 10nat,
    {
        self.next_token();
        let value = self.parse_expression(Precedence::Lowest);
        if self.peek_token_is(Token::Semicolon) {
            self.next_token();
        }
        Some(Statement::Return { token: Token::Return, value })
    }

    /// Parses an expression that stands as a statement.
    fn parse_expression_statement(&mut self) -> (statement: Option<Statement>)
        requires
            old(self).wf(),
        ensures
            final(self).wf(),
            final(self).source().input == old(self).source().input,
            final(self)@ == grammar::parse_expression_statement(old(self)@).state,
            view_of(statement) == grammar::parse_expression_statement(old(self)@).value,
            final(self)@.no_longer_than(old(self)@),
        decreases old(self)@.tokens.len(), 10nat,
    {
        let token = self.current();
        let expression = self.parse_expression(Precedence::Lowest);
        if self.peek_token_is(Token::Semicolon) {
            self.next_token();
        }
        Some(Statement::Expression { token, expression })
    }

    /// Parses an expression whose operators all bind tighter than
    /// `precedence`.
    fn parse_expression(&mut self, precedence: Precedence) -> (expression: Option<Expression>)
        requires
            old(self).wf(),
        ensures
            final(self).wf(),
            final(self).source().input == old(self).source().input,
            final(self)@ == grammar::parse_expression(old(self)@, precedence).state,
            view_of(expression) == grammar::parse_expression(old(self)@, precedence).value,
            final(self)@.no_longer_than(old(self)@),
        decreases old(self)@.tokens.len(),
            (if old(self)@.tokens.len() == 0 {
                1nat
            } else {
                9nat
            }),
    {
        let token = self.current();
        if !Self::has_prefix_parse_fn(&token) {
            self.no_prefix_parse_fn_errors(token);
            return None;
        }
        let mut left = match self.prefix_parse_fns(&token) {
            Some(expression) => expression,
            None => {
                return None;
            },
        };
        while !self.peek_token_is(Token::Semicolon) && precedence.as_int()
            < self.peek_precedence().as_int()
            invariant
                self.wf(),
                self.source().input == old(self).source().input,
                self@.no_longer_than(old(self)@),
                grammar::parse_expression(old(self)@, precedence) == grammar::parse_infix_chain(
                    self@,
                    left@,
                    precedence,
                ),
            decreases self@.tokens.len(),
        {
            let operator = self.peek_token.clone();
            proof {
                self.lemma_cursor();
            }
            self.next_token();
            left = match self.infix_parse_fns(&operator, left) {
                Some(expression) => expression,
                None => {
                    return None;
                },
            };
        }
        Some(left)
    }

    /// Whether an expression can start with `token`.
    fn has_prefix_parse_fn(token: &Token) -> (yes: bool)
        ensures
            yes == starts_expression(token@),
    {
        match token {
            Token::Ident(_) => true,
            Token::Int(_) => true,
            Token::Bang => true,
            Token::Minus => true,
            Token::True => true,
            Token::False => true,
            Token::If => true,
            Token::Function => true,
            Token::Lparen => true,
            _ => false,
        }
    }

    /// Parses what starts an expression, chosen by `token` and read from
    /// the current token on. For a token with which no expression starts
    /// nothing is parsed and nothing recorded.
    pub fn prefix_parse_fns(&mut self, token: &Token) -> (expression: Option<Expression>)
        requires
            old(self).wf(),
        ensures
            final(self).wf(),
            final(self).source().input == old(self).source().input,
            final(self)@ == grammar::parse_prefix(old(self)@, token@).state,
            view_of(expression) == grammar::parse_prefix(old(self)@, token@).value,
            final(self)@.no_longer_than(old(self)@),
        decreases old(self)@.tokens.len(),
            (if opens_compound(token@) {
                8nat
            } else {
                0nat
            }),
    {
        match token {
            Token::Ident(_) => Some(Expression::Identifier(Identifier::new(self.current()))),
            Token::Int(_) => self.parse_integer_literal(),
            Token::Bang => self.parse_prefix_expression(),
            Token::Minus => self.parse_prefix_expression(),
            Token::True => self.parse_boolean(),
            Token::False => self.parse_boolean(),
            Token::If => self.parse_if_expression(),
            Token::Function => self.parse_function_literal(),
            Token::Lparen => self.parse_grouped_expression(),
            _ => None,
        }
    }

    /// Parses what continues the expression `left`, chosen by `token` and
    /// read from the current token on. For a token that continues no
    /// expression nothing is parsed and nothing recorded.
    pub fn infix_parse_fns(&mut self, token: &Token, left: Expression) -> (expression: Option<
        Expression,
    >)
        requires
            old(self).wf(),
        ensures
            final(self).wf(),
            final(self).source().input == old(self).source().input,
            final(self)@ == grammar::parse_infix(old(self)@, token@, left@).state,
            view_of(expression) == grammar::parse_infix(old(self)@, token@, left@).value,
            final(self)@.no_longer_than(old(self)@),
        decreases old(self)@.tokens.len(), 6nat,
    {
        match token {
            Token::Plus => self.parse_infix_expression(left),
            Token::Minus => self.parse_infix_expression(left),
            Token::Slash => self.parse_infix_expression(left),
            Token::Asterisk => self.parse_infix_expression(left),
            Token::Eq => self.parse_infix_expression(left),
            Token::NotEq => self.parse_infix_expression(left),
            Token::Lt => self.parse_infix_expression(left),
            Token::Gt => self.parse_infix_expression(left),
            Token::Lparen => self.parse_call_expression(left),
            _ => None,
        }
    }

    /// Parses the integer literal that the current token spells.
    fn parse_integer_literal(&mut self) -> (expression: Option<Expression>)
        requires
            old(self).wf(),
        ensures
            final(self).wf(),
            final(self).source().input == old(self).source().input,
            final(self)@ == grammar::parse_integer_literal(old(self)@).state,
            view_of(expression) == grammar::parse_integer_literal(old(self)@).value,
            final(self)@.no_longer_than(old(self)@),
    {
        let token = self.current();
        let literal = token.get_literal();
        match parse_decimal(literal.as_str()) {
            Some(value) => Some(Expression::IntegerLiteral(IntegerLiteral::new(token, value))),
            None => {
                let mut message = String::from_str("could not parse ");
                message.append(literal.as_str());
                message.append(" as integer");
                self.record(message);
                None
            },
        }
    }

    /// Parses the boolean that the current token spells.
    fn parse_boolean(&self) -> (expression: Option<Expression>)
        requires
            self.wf(),
        ensures
            view_of(expression) == grammar::parse_boolean(self@).value,
    {
        Some(
            Expression::Boolean(
                Boolean { token: self.current(), value: self.cur_token_is(Token::True) },
            ),
        )
    }

    /// Parses a prefix operator, which is the current token, and its
    /// operand.
    fn parse_prefix_expression(&mut self) -> (expression: Option<Expression>)
        requires
            old(self).wf(),
        ensures
            final(self).wf(),
            final(self).source().input == old(self).source().input,
            final(self)@ == grammar::parse_prefix_expression(old(self)@).state,
            view_of(expression) == grammar::parse_prefix_expression(old(self)@).value,
            final(self)@.no_longer_than(old(self)@),
        decreases old(self)@.tokens.len(), 7nat,
    {
        let token = self.current();
        self.next_token();
        let operator = token.get_literal();
        match self.parse_expression(Precedence::Prefix) {
            Some(right) => Some(
                Expression::Prefix(PrefixExpression { token, operator, right: Box::new(right) }),
            ),
            None => None,
        }
    }

    /// Parses a binary operator, which is the current token, and its right
    /// operand; `left` is its left operand.
    fn parse_infix_expression(&mut self, left: Expression) -> (expression: Option<Expression>)
        requires
            old(self).wf(),
        ensures
            final(self).wf(),
            final(self).source().input == old(self).source().input,
            final(self)@ == grammar::parse_infix_expression(old(self)@, left@).state,
            view_of(expression) == grammar::parse_infix_expression(old(self)@, left@).value,
            final(self)@.no_longer_than(old(self)@),
        decreases old(self)@.tokens.len(), 5nat,
    {
        let precedence = self.cur_precedence();
        let token = self.current();
        self.next_token();
        let operator = token.get_literal();
        match self.parse_expression(precedence) {
            Some(right) => Some(
                Expression::Infix(
                    InfixExpression {
                        token,
                        left: Box::new(left),
                        right: Box::new(right),
                        operator,
                    },
                ),
            ),
            None => None,
        }
    }

    /// Parses an expression in parentheses, the current token being the
    /// opening one.
    fn parse_grouped_expression(&mut self) -> (expression: Option<Expression>)
        requires
            old(self).wf(),
        ensures
            final(self).wf(),
            final(self).source().input == old(self).source().input,
            final(self)@ == grammar::parse_grouped_expression(old(self)@).state,
            view_of(expression) == grammar::parse_grouped_expression(old(self)@).value,
            final(self)@.no_longer_than(old(self)@),
        decreases old(self)@.tokens.len(), 7nat,
    {
        self.next_token();
        let expression = self.parse_expression(Precedence::Lowest);
        if !self.expect_peek(Token::Rparen) {
            return None;
        }
        expression
    }

    /// Parses an `if` expression, the current token being `if`.
    fn parse_if_expression(&mut self) -> (expression: Option<Expression>)
        requires
            old(self).wf(),
        ensures
            final(self).wf(),
            final(self).source().input == old(self).source().input,
            final(self)@ == grammar::parse_if_expression(old(self)@).state,
            view_of(expression) == grammar::parse_if_expression(old(self)@).value,
            final(self)@.no_longer_than(old(self)@),
        decreases old(self)@.tokens.len(), 7nat,
    {
        if !self.expect_peek(Token::Lparen) {
            return None;
        }
        self.next_token();
        let condition = match self.parse_expression(Precedence::Lowest) {
            Some(condition) => condition,
            None => {
                return None;
            },
        };
        if !self.expect_peek(Token::Rparen) {
            return None;
        }
        if !self.expect_peek(Token::Lbrace) {
            return None;
        }
        let consequence = match self.parse_block_statement() {
            Some(block) => block,
            None => {
                return None;
            },
        };
        let mut alternative = None;
        if self.peek_token_is(Token::Else) {
            self.next_token();
            if !self.expect_peek(Token::Lbrace) {
                return None;
            }
            alternative = match self.parse_block_statement() {
                Some(block) => Some(block),
                None => {
                    return None;
                },
            };
        }
        Some(
            Expression::If(
                IfExpression {
                    token: self.current(),
                    condition: Box::new(condition),
                    consequence,
                    alternative,
                },
            ),
        )
    }

    /// Parses a block, the current token being its opening brace. A block
    /// that the tokens end in is an error.
    fn parse_block_statement(&mut self) -> (block: Option<BlockStatement>)
        requires
            old(self).wf(),
        ensures
            final(self).wf(),
            final(self).source().input == old(self).source().input,
            final(self)@ == grammar::parse_block_statement(old(self)@).state,
            view_of(block) == grammar::parse_block_statement(old(self)@).value,
            final(self)@.no_longer_than(old(self)@),
        decreases old(self)@.tokens.len(), 2nat,
    {
        let token = self.current();
        let mut statements: Vec<Statement> = Vec::new();
        self.next_token();
        let ghost start = self@;
        assert(statement_views(statements) == Seq::<StatementView>::empty());
        while !self.cur_token_is(Token::Rbrace) && !self.cur_token_is(Token::Eof)
            invariant
                self.wf(),
                self.source().input == old(self).source().input,
                self@.no_longer_than(start),
                start == old(self)@.advance(),
                grammar::parse_block_statements(start).state == grammar::parse_block_statements(
                    self@,
                ).state,
                grammar::parse_block_statements(start).value == statement_views(statements)
                    + grammar::parse_block_statements(self@).value,
            decreases self@.tokens.len(),
        {
            let ghost before = self@;
            let ghost collected = statement_views(statements);
            let statement = self.parse_statement();
            if let Some(statement) = statement {
                statements.push(statement);
            }
            self.next_token();
            proof {
                let first = grammar::parse_statement(before);
                assert(statement_views(statements) == append(collected, first.value));
                assert(append(collected, first.value) + grammar::parse_block_statements(
                    self@,
                ).value == collected + prepend(
                    first.value,
                    grammar::parse_block_statements(self@).value,
                ));
            }
        }
        assert(statement_views(statements) + Seq::<StatementView>::empty() == statement_views(
            statements,
        ));
        if !self.cur_token_is(Token::Rbrace) {
            let found = self.current();
            self.token_error(Token::Rbrace, found);
            return None;
        }
        Some(BlockStatement { token, statements })
    }

    /// Parses a function literal, the current token being `fn`.
    fn parse_function_literal(&mut self) -> (expression: Option<Expression>)
        requires
            old(self).wf(),
        ensures
            final(self).wf(),
            final(self).source().input == old(self).source().input,
            final(self)@ == grammar::parse_function_literal(old(self)@).state,
            view_of(expression) == grammar::parse_function_literal(old(self)@).value,
            final(self)@.no_longer_than(old(self)@),
        decreases old(self)@.tokens.len(), 7nat,
    {
        if !self.expect_peek(Token::Lparen) {
            return None;
        }
        let parameters = match self.parse_function_parameters() {
            Some(parameters) => parameters,
            None => {
                return None;
            },
        };
        if !self.expect_peek(Token::Lbrace) {
            return None;
        }
        let body = match self.parse_block_statement() {
            Some(block) => block,
            None => {
                return None;
            },
        };
        Some(Expression::Function(FunctionLiteral { token: self.current(), parameters, body }))
    }

    /// Parses the parameters of a function, the current token being the
    /// opening parenthesis.
    fn parse_function_parameters(&mut self) -> (parameters: Option<Vec<Identifier>>)
        requires
            old(self).wf(),
        ensures
            final(self).wf(),
            final(self).source().input == old(self).source().input,
            final(self)@ == grammar::parse_function_parameters(old(self)@).state,
            match parameters {
                Some(parameters) => grammar::parse_function_parameters(old(self)@).value == Some(
                    identifier_views(parameters@),
                ),
                None => grammar::parse_function_parameters(old(self)@).value is None,
            },
            final(self)@.no_longer_than(old(self)@),
    {
        let mut identifiers: Vec<Identifier> = Vec::new();
        if self.peek_token_is(Token::Rparen) {
            self.next_token();
            assert(identifier_views(identifiers@) == Seq::<IdentifierView>::empty());
            return Some(identifiers);
        }
        if !self.peek_is_identifier() {
            self.identifier_error();
            return None;
        }
        self.next_token();
        identifiers.push(Identifier::new(self.current()));
        assert(identifier_views(identifiers@) == seq![identifier_at(self@)]);
        while self.peek_token_is(Token::Comma)
            invariant
                self.wf(),
                self.source().input == old(self).source().input,
                self@.no_longer_than(old(self)@),
                grammar::parse_function_parameters(old(self)@) == grammar::parse_more_parameters(
                    self@,
                    identifier_views(identifiers@),
                ),
            decreases self@.tokens.len(),
        {
            let ghost collected = identifier_views(identifiers@);
            self.next_token();
            if !self.peek_is_identifier() {
                self.identifier_error();
                return None;
            }
            self.next_token();
            identifiers.push(Identifier::new(self.current()));
            assert(identifier_views(identifiers@) == collected.push(identifier_at(self@)));
        }
        if !self.expect_peek(Token::Rparen) {
            return None;
        }
        Some(identifiers)
    }

    /// Parses the call of `function`, the current token being the opening
    /// parenthesis.
    fn parse_call_expression(&mut self, function: Expression) -> (expression: Option<Expression>)
        requires
            old(self).wf(),
        ensures
            final(self).wf(),
            final(self).source().input == old(self).source().input,
            final(self)@ == grammar::parse_call_expression(old(self)@, function@).state,
            view_of(expression) == grammar::parse_call_expression(old(self)@, function@).value,
            final(self)@.no_longer_than(old(self)@),
        decreases old(self)@.tokens.len(), 5nat,
    {
        match self.parse_call_arguments() {
            Some(arguments) => Some(
                Expression::Call(
                    CallExpression {
                        token: self.current(),
                        function: Box::new(function),
                        arguments,
                    },
                ),
            ),
            None => None,
        }
    }

    /// Parses the arguments of a call, the current token being the opening
    /// parenthesis.
    fn parse_call_arguments(&mut self) -> (arguments: Option<Vec<Expression>>)
        requires
            old(self).wf(),
        ensures
            final(self).wf(),
            final(self).source().input == old(self).source().input,
            final(self)@ == grammar::parse_call_arguments(old(self)@).state,
            match arguments {
                Some(arguments) => grammar::parse_call_arguments(old(self)@).value == Some(
                    expression_views(arguments),
                ),
                None => grammar::parse_call_arguments(old(self)@).value is None,
            },
            final(self)@.no_longer_than(old(self)@),
        decreases old(self)@.tokens.len(), 4nat,
    {
        let mut arguments: Vec<Expression> = Vec::new();
        if self.peek_token_is(Token::Rparen) {
            self.next_token();
            assert(expression_views(arguments) == Seq::<ExpressionView>::empty());
            return Some(arguments);
        }
        self.next_token();
        match self.parse_expression(Precedence::Lowest) {
            Some(argument) => {
                arguments.push(argument);
                assert(expression_views(arguments) == seq![argument@]);
            },
            None => {
                return None;
            },
        }
        while self.peek_token_is(Token::Comma)
            invariant
                self.wf(),
                self.source().input == old(self).source().input,
                self@.no_longer_than(old(self)@),
                grammar::parse_call_arguments(old(self)@) == grammar::parse_more_arguments(
                    self@,
                    expression_views(arguments),
                ),
            decreases self@.tokens.len(),
        {
            let ghost collected = expression_views(arguments);
            self.next_token();
            self.next_token();
            match self.parse_expression(Precedence::Lowest) {
                Some(argument) => {
                    arguments.push(argument);
                    assert(expression_views(arguments) == collected.push(argument@));
                },
                None => {
                    return None;
                },
            }
        }
        if !self.expect_peek(Token::Rparen) {
            return None;
        }
        Some(arguments)
    }
}

} // verus!
