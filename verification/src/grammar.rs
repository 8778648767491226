//! The grammar, as mathematics: what the parser makes of a sequence of
//! tokens, written as functions from the parser's state to its next state
//! and the tree it built.
//!
//! Expressions are read by precedence climbing. Every function here is
//! total: whatever the tokens, it yields a state and a value, and the
//! syntax errors it met are in the state's list.
//!
//! The rules call each other, and each recursion ends because tokens run
//! out: the measure of a rule is the number of tokens ahead and, behind it,
//! a rank that orders the rules which call each other without passing a
//! token. With no token ahead the current token is `Eof`, with which no
//! expression and no statement starts; the rank of the rules that begin
//! with the current token is lower there, so that the rules which first
//! move on can still call them. Where a rule goes on from the state that
//! another rule left, it asks that this state has no more tokens ahead than
//! the rule found. That always holds: see the module `progress`.

use vstd::prelude::*;
use crate::ast::{BlockView, ExpressionView, IdentifierView, StatementView};
use crate::lexer::token_stream;
use crate::parser::Precedence;
use crate::text::literal_value;
use crate::token::TokenView;

verus! {

/// The model of a parser: the tokens that it has not passed yet, the
/// current one first and the final `Eof` left out, and the error messages
/// it has gathered, oldest first.
pub struct ParserView {
    pub tokens: Seq<TokenView>,
    pub errors: Seq<Seq<char>>,
}

/// A state together with what was parsed on the way to it.
pub struct Parsed<T> {
    pub state: ParserView,
    pub value: T,
}

impl ParserView {
    /// The current token: `Eof` when none is left.
    pub open spec fn cur(self) -> TokenView {
        if self.tokens.len() > 0 {
            self.tokens[0]
        } else {
            TokenView::Eof
        }
    }

    /// The token behind the current one: `Eof` when there is none.
    pub open spec fn peek(self) -> TokenView {
        if self.tokens.len() > 1 {
            self.tokens[1]
        } else {
            TokenView::Eof
        }
    }

    /// The state behind the current token. At the end of the tokens that
    /// is the same state.
    pub open spec fn advance(self) -> ParserView {
        if self.tokens.len() > 0 {
            ParserView { tokens: self.tokens.drop_first(), errors: self.errors }
        } else {
            self
        }
    }

    /// The state with one more error message.
    pub open spec fn with_error(self, message: Seq<char>) -> ParserView {
        ParserView { tokens: self.tokens, errors: self.errors.push(message) }
    }

    /// The state behind a semicolon that follows the current token, or the
    /// same state when none follows.
    pub open spec fn past_semicolon(self) -> ParserView {
        if self.peek() is Semicolon {
            self.advance()
        } else {
            self
        }
    }

    /// Whether this state can come after `before` in one pass: its tokens
    /// are what is left of `before`'s, and its errors are `before`'s with
    /// more behind them.
    pub open spec fn follows(self, before: ParserView) -> bool {
        &&& self.tokens.len() <= before.tokens.len()
        &&& self.tokens == before.tokens.skip(before.tokens.len() - self.tokens.len())
        &&& before.errors.len() <= self.errors.len()
        &&& self.errors.take(before.errors.len() as int) == before.errors
    }

    /// Whether this state has no more tokens to pass than `before`.
    pub open spec fn no_longer_than(self, before: ParserView) -> bool {
        self.tokens.len() <= before.tokens.len()
    }
}

/// The message for a token that is not the `expected` one.
pub open spec fn unexpected_token_message(expected: TokenView, got: TokenView) -> Seq<char> {
    "expected next token to be "@ + expected.literal() + ", got \""@ + got.literal()
        + "\" instead"@
}

/// The message for a token that should have been an identifier.
pub open spec fn identifier_expected_message(got: TokenView) -> Seq<char> {
    "expected next token to be an identifier, got \""@ + got.literal() + "\" instead"@
}

/// The message for a token with which no expression can start.
pub open spec fn no_prefix_message(token: TokenView) -> Seq<char> {
    "no prefix parse function for "@ + token.literal() + " found"@
}

/// The message for an integer literal that does not fit in 32 bits.
pub open spec fn integer_message(literal: Seq<char>) -> Seq<char> {
    "could not parse "@ + literal + " as integer"@
}

/// How tightly the operator `token` binds the expression to its left; the
/// lowest precedence for a token that is no such operator.
pub open spec fn precedence_of(token: TokenView) -> Precedence {
    match token {
        TokenView::Eq => Precedence::Equals,
        TokenView::NotEq => Precedence::Equals,
        TokenView::Lt => Precedence::LessGreater,
        TokenView::Gt => Precedence::LessGreater,
        TokenView::Plus => Precedence::Sum,
        TokenView::Minus => Precedence::Sum,
        TokenView::Slash => Precedence::Product,
        TokenView::Asterisk => Precedence::Product,
        TokenView::Lparen => Precedence::Call,
        _ => Precedence::Lowest,
    }
}

/// Whether an expression can start with `token`: whether there is a rule
/// for what starts with it.
pub open spec fn starts_expression(token: TokenView) -> bool {
    token is Ident || token is Int || token is Bang || token is Minus || token is True
        || token is False || token is If || token is Function || token is Lparen
}

/// Whether an expression of several tokens can start with `token`.
pub open spec fn opens_compound(token: TokenView) -> bool {
    token is Bang || token is Minus || token is If || token is Function || token is Lparen
}

/// The identifier that the current token of `state` spells.
pub open spec fn identifier_at(state: ParserView) -> IdentifierView {
    IdentifierView { token: state.cur(), value: state.cur().literal() }
}

/// `items` with `item` in front, when there is one.
pub open spec fn prepend<T>(item: Option<T>, items: Seq<T>) -> Seq<T> {
    match item {
        Some(item) => seq![item] + items,
        None => items,
    }
}

/// `items` with `item` behind, when there is one.
pub open spec fn append<T>(items: Seq<T>, item: Option<T>) -> Seq<T> {
    match item {
        Some(item) => items.push(item),
        None => items,
    }
}

/// The expectation that `expected` follows the current token: met, the
/// state moves on to it; missed, the state gets the message.
pub open spec fn expect_peek(state: ParserView, expected: TokenView) -> Parsed<bool> {
    if state.peek() == expected {
        Parsed { state: state.advance(), value: true }
    } else {
        Parsed {
            state: state.with_error(unexpected_token_message(expected, state.peek())),
            value: false,
        }
    }
}

/// The state in which a parser starts on the text `input`: all its
/// tokens ahead and no error yet.
pub open spec fn start_on(input: Seq<char>) -> ParserView {
    ParserView { tokens: token_stream(input, 0), errors: Seq::empty() }
}

/// A whole program: statements up to the end of the tokens. A statement
/// that yields nothing leaves no trace but its errors.
pub open spec fn parse_program(state: ParserView) -> Parsed<Seq<StatementView>>
    decreases state.tokens.len(),
{
    if state.cur() is Eof {
        Parsed { state, value: Seq::empty() }
    } else {
        let first = parse_statement(state);
        let next = first.state.advance();
        if next.tokens.len() < state.tokens.len() {
            let rest = parse_program(next);
            Parsed { state: rest.state, value: prepend(first.value, rest.value) }
        } else {
            Parsed { state: next, value: prepend(first.value, Seq::empty()) }
        }
    }
}

/// One statement: a `let`, a `return`, or else an expression.
pub open spec fn parse_statement(state: ParserView) -> Parsed<Option<StatementView>>
    decreases state.tokens.len(), 11nat,
{
    match state.cur() {
        TokenView::Let => parse_let_statement(state),
        TokenView::Return => parse_return_statement(state),
        _ => parse_expression_statement(state),
    }
}

/// `let`, a name, `=`, an expression and, optionally, a semicolon.
pub open spec fn parse_let_statement(state: ParserView) -> Parsed<Option<StatementView>>
    decreases state.tokens.len(), 10nat,
{
    if !(state.peek() is Ident) {
        Parsed {
            state: state.with_error(identifier_expected_message(state.peek())),
            value: None,
        }
    } else {
        let at_name = state.advance();
        let assign = expect_peek(at_name, TokenView::Assign);
        if !assign.value {
            Parsed { state: assign.state, value: None }
        } else {
            let value = parse_expression(assign.state.advance(), Precedence::Lowest);
            Parsed {
                state: value.state.past_semicolon(),
                value: Some(
                    StatementView::Let {
                        token: TokenView::Let,
                        name: Some(identifier_at(at_name)),
                        value: value.value,
                    },
                ),
            }
        }
    }
}

/// `return`, an expression and, optionally, a semicolon.
pub open spec fn parse_return_statement(state: ParserView) -> Parsed<Option<StatementView>>
    decreases state.tokens.len(), 10nat,
{
    let value = parse_expression(state.advance(), Precedence::Lowest);
    Parsed {
        state: value.state.past_semicolon(),
        value: Some(StatementView::Return { token: TokenView::Return, value: value.value }),
    }
}

/// An expression and, optionally, a semicolon.
pub open spec fn parse_expression_statement(state: ParserView) -> Parsed<Option<StatementView>>
    decreases state.tokens.len(), 10nat,
{
    let expression = parse_expression(state, Precedence::Lowest);
    Parsed {
        state: expression.state.past_semicolon(),
        value: Some(
            StatementView::Expression { token: state.cur(), expression: expression.value },
        ),
    }
}

/// An expression whose operators all bind tighter than `precedence`: what
/// the current token starts, extended to the right as far as such
/// operators follow. A current token with which no expression starts is an
/// error; what starts with the current token and fails has recorded its
/// own.
pub open spec fn parse_expression(state: ParserView, precedence: Precedence) -> Parsed<
    Option<ExpressionView>,
>
    decreases state.tokens.len(),
        (if state.tokens.len() == 0 {
            1nat
        } else {
            9nat
        }),
{
    if !starts_expression(state.cur()) {
        Parsed { state: state.with_error(no_prefix_message(state.cur())), value: None }
    } else {
        let start = parse_prefix(state, state.cur());
        match start.value {
            Some(left) => if start.state.no_longer_than(state) {
                parse_infix_chain(start.state, left, precedence)
            } else {
                start
            },
            None => start,
        }
    }
}

/// The expression `left`, extended to the right by the operators that
/// follow and bind tighter than `precedence`, up to a semicolon at the
/// latest. Each operator takes what stands so far as its left operand.
pub open spec fn parse_infix_chain(
    state: ParserView,
    left: ExpressionView,
    precedence: Precedence,
) -> Parsed<Option<ExpressionView>>
    decreases state.tokens.len(),
        (if state.tokens.len() == 0 {
            0nat
        } else {
            8nat
        }),
{
    if !(state.peek() is Semicolon) && precedence.rank() < precedence_of(state.peek()).rank() {
        let at_operator = state.advance();
        let extended = parse_infix(at_operator, state.peek(), left);
        match extended.value {
            Some(expression) => if extended.state.no_longer_than(at_operator) {
                parse_infix_chain(extended.state, expression, precedence)
            } else {
                extended
            },
            None => extended,
        }
    } else {
        Parsed { state, value: Some(left) }
    }
}

/// What starts an expression, chosen by `token` and read from the current
/// token on; nothing for a token with which no expression starts.
pub open spec fn parse_prefix(state: ParserView, token: TokenView) -> Parsed<
    Option<ExpressionView>,
>
    decreases state.tokens.len(),
        (if opens_compound(token) {
            8nat
        } else {
            0nat
        }),
{
    match token {
        TokenView::Ident(_) => Parsed {
            state,
            value: Some(
                ExpressionView::Identifier { token: state.cur(), value: state.cur().literal() },
            ),
        },
        TokenView::Int(_) => parse_integer_literal(state),
        TokenView::Bang => parse_prefix_expression(state),
        TokenView::Minus => parse_prefix_expression(state),
        TokenView::True => parse_boolean(state),
        TokenView::False => parse_boolean(state),
        TokenView::If => parse_if_expression(state),
        TokenView::Function => parse_function_literal(state),
        TokenView::Lparen => parse_grouped_expression(state),
        _ => Parsed { state, value: None },
    }
}

/// What continues the expression `left`, chosen by `token` and read from
/// the current token on: a binary operator with its right operand, or the
/// arguments of a call; nothing for any other token.
pub open spec fn parse_infix(state: ParserView, token: TokenView, left: ExpressionView) -> Parsed<
    Option<ExpressionView>,
>
    decreases state.tokens.len(), 6nat,
{
    match token {
        TokenView::Plus => parse_infix_expression(state, left),
        TokenView::Minus => parse_infix_expression(state, left),
        TokenView::Slash => parse_infix_expression(state, left),
        TokenView::Asterisk => parse_infix_expression(state, left),
        TokenView::Eq => parse_infix_expression(state, left),
        TokenView::NotEq => parse_infix_expression(state, left),
        TokenView::Lt => parse_infix_expression(state, left),
        TokenView::Gt => parse_infix_expression(state, left),
        TokenView::Lparen => parse_call_expression(state, left),
        _ => Parsed { state, value: None },
    }
}

/// The integer literal that the current token spells; an error when its
/// text is no number of 32 bits.
pub open spec fn parse_integer_literal(state: ParserView) -> Parsed<Option<ExpressionView>> {
    match literal_value(state.cur().literal()) {
        Some(value) => Parsed {
            state,
            value: Some(ExpressionView::IntegerLiteral { token: state.cur(), value }),
        },
        None => Parsed {
            state: state.with_error(integer_message(state.cur().literal())),
            value: None,
        },
    }
}

/// The boolean that the current token spells: true for `true`, false for
/// any other token.
pub open spec fn parse_boolean(state: ParserView) -> Parsed<Option<ExpressionView>> {
    Parsed {
        state,
        value: Some(ExpressionView::Boolean { token: state.cur(), value: state.cur() is True }),
    }
}

/// The current token as a prefix operator, and its operand.
pub open spec fn parse_prefix_expression(state: ParserView) -> Parsed<Option<ExpressionView>>
    decreases state.tokens.len(), 7nat,
{
    let operand = parse_expression(state.advance(), Precedence::Prefix);
    Parsed {
        state: operand.state,
        value: match operand.value {
            Some(right) => Some(
                ExpressionView::Prefix {
                    token: state.cur(),
                    operator: state.cur().literal(),
                    right: Box::new(right),
                },
            ),
            None => None,
        },
    }
}

/// The current token as a binary operator on `left`, and its right
/// operand: an expression whose operators bind tighter than this one.
pub open spec fn parse_infix_expression(state: ParserView, left: ExpressionView) -> Parsed<
    Option<ExpressionView>,
>
    decreases state.tokens.len(), 5nat,
{
    let operand = parse_expression(state.advance(), precedence_of(state.cur()));
    Parsed {
        state: operand.state,
        value: match operand.value {
            Some(right) => Some(
                ExpressionView::Infix {
                    token: state.cur(),
                    left: Box::new(left),
                    operator: state.cur().literal(),
                    right: Box::new(right),
                },
            ),
            None => None,
        },
    }
}

/// An expression in parentheses, the current token being the opening one.
pub open spec fn parse_grouped_expression(state: ParserView) -> Parsed<Option<ExpressionView>>
    decreases state.tokens.len(), 7nat,
{
    let inner = parse_expression(state.advance(), Precedence::Lowest);
    let closing = expect_peek(inner.state, TokenView::Rparen);
    Parsed {
        state: closing.state,
        value: if closing.value {
            inner.value
        } else {
            None
        },
    }
}

/// `if`, a condition in parentheses, a block and, optionally, `else` and
/// another block.
pub open spec fn parse_if_expression(state: ParserView) -> Parsed<Option<ExpressionView>>
    decreases state.tokens.len(), 7nat,
{
    let opening = expect_peek(state, TokenView::Lparen);
    if !opening.value {
        Parsed { state: opening.state, value: None }
    } else {
        let condition = parse_expression(opening.state.advance(), Precedence::Lowest);
        if condition.value is None || !condition.state.no_longer_than(opening.state) {
            Parsed { state: condition.state, value: None }
        } else {
            let closing = expect_peek(condition.state, TokenView::Rparen);
            let brace = expect_peek(closing.state, TokenView::Lbrace);
            if !closing.value {
                Parsed { state: closing.state, value: None }
            } else if !brace.value {
                Parsed { state: brace.state, value: None }
            } else {
                parse_if_blocks(brace.state, condition.value->0)
            }
        }
    }
}

/// The blocks of an `if` expression with the condition `condition`, the
/// current token being the opening brace of the first: that block and,
/// optionally, `else` and another block. The node's token is the one the
/// parse ends on.
pub open spec fn parse_if_blocks(state: ParserView, condition: ExpressionView) -> Parsed<
    Option<ExpressionView>,
>
    decreases state.tokens.len(), 3nat,
{
    let consequence = parse_block_statement(state);
    if consequence.value is None || !consequence.state.no_longer_than(state) {
        Parsed { state: consequence.state, value: None }
    } else if !(consequence.state.peek() is Else) {
        Parsed {
            state: consequence.state,
            value: Some(
                ExpressionView::If {
                    token: consequence.state.cur(),
                    condition: Box::new(condition),
                    consequence: consequence.value->0,
                    alternative: None,
                },
            ),
        }
    } else {
        let second_brace = expect_peek(consequence.state.advance(), TokenView::Lbrace);
        if !second_brace.value {
            Parsed { state: second_brace.state, value: None }
        } else {
            let alternative = parse_block_statement(second_brace.state);
            Parsed {
                state: alternative.state,
                value: match alternative.value {
                    Some(block) => Some(
                        ExpressionView::If {
                            token: alternative.state.cur(),
                            condition: Box::new(condition),
                            consequence: consequence.value->0,
                            alternative: Some(block),
                        },
                    ),
                    None => None,
                },
            }
        }
    }
}

/// A block, the current token being its opening brace: statements up to
/// the closing brace. Where the tokens end before the block is closed, the
/// missing brace is an error and there is no block.
pub open spec fn parse_block_statement(state: ParserView) -> Parsed<Option<BlockView>>
    decreases state.tokens.len(), 2nat,
{
    let statements = parse_block_statements(state.advance());
    if statements.state.cur() is Rbrace {
        Parsed {
            state: statements.state,
            value: Some(BlockView { token: state.cur(), statements: statements.value }),
        }
    } else {
        Parsed {
            state: statements.state.with_error(
                unexpected_token_message(TokenView::Rbrace, statements.state.cur()),
            ),
            value: None,
        }
    }
}

/// The statements of a block from the current token on, up to the closing
/// brace or the end of the tokens.
pub open spec fn parse_block_statements(state: ParserView) -> Parsed<Seq<StatementView>>
    decreases state.tokens.len(),
        (if state.tokens.len() == 0 {
            0nat
        } else {
            12nat
        }),
{
    if state.cur() is Rbrace || state.cur() is Eof {
        Parsed { state, value: Seq::empty() }
    } else {
        let first = parse_statement(state);
        let next = first.state.advance();
        if next.tokens.len() < state.tokens.len() {
            let rest = parse_block_statements(next);
            Parsed { state: rest.state, value: prepend(first.value, rest.value) }
        } else {
            Parsed { state: next, value: prepend(first.value, Seq::empty()) }
        }
    }
}

/// `fn`, the parameters in parentheses, and the body. The node's token is
/// the one the parse ends on.
pub open spec fn parse_function_literal(state: ParserView) -> Parsed<Option<ExpressionView>>
    decreases state.tokens.len(), 7nat,
{
    let opening = expect_peek(state, TokenView::Lparen);
    if !opening.value {
        Parsed { state: opening.state, value: None }
    } else {
        let parameters = parse_function_parameters(opening.state);
        if parameters.value is None || !parameters.state.no_longer_than(opening.state) {
            Parsed { state: parameters.state, value: None }
        } else {
            let brace = expect_peek(parameters.state, TokenView::Lbrace);
            if !brace.value {
                Parsed { state: brace.state, value: None }
            } else {
                let body = parse_block_statement(brace.state);
                Parsed {
                    state: body.state,
                    value: match body.value {
                        Some(block) => Some(
                            ExpressionView::Function {
                                token: body.state.cur(),
                                parameters: parameters.value->0,
                                body: block,
                            },
                        ),
                        None => None,
                    },
                }
            }
        }
    }
}

/// The parameters of a function, the current token being the opening
/// parenthesis: none before a closing parenthesis that follows at once, or
/// else names between commas up to the closing parenthesis. A token that
/// is no identifier where a name must stand is an error.
pub open spec fn parse_function_parameters(state: ParserView) -> Parsed<
    Option<Seq<IdentifierView>>,
> {
    if state.peek() is Rparen {
        Parsed { state: state.advance(), value: Some(Seq::empty()) }
    } else if !(state.peek() is Ident) {
        Parsed {
            state: state.with_error(identifier_expected_message(state.peek())),
            value: None,
        }
    } else {
        parse_more_parameters(state.advance(), seq![identifier_at(state.advance())])
    }
}

/// The parameters that follow `parameters`, the current token being the
/// last of those.
pub open spec fn parse_more_parameters(state: ParserView, parameters: Seq<IdentifierView>) -> Parsed<
    Option<Seq<IdentifierView>>,
>
    decreases state.tokens.len(),
{
    if state.peek() is Comma {
        let at_comma = state.advance();
        if !(at_comma.peek() is Ident) {
            Parsed {
                state: at_comma.with_error(identifier_expected_message(at_comma.peek())),
                value: None,
            }
        } else {
            let at_name = at_comma.advance();
            parse_more_parameters(at_name, parameters.push(identifier_at(at_name)))
        }
    } else {
        let closing = expect_peek(state, TokenView::Rparen);
        Parsed {
            state: closing.state,
            value: if closing.value {
                Some(parameters)
            } else {
                None
            },
        }
    }
}

/// The call of `function`, the current token being the opening
/// parenthesis. The node's token is the one the parse ends on.
pub open spec fn parse_call_expression(state: ParserView, function: ExpressionView) -> Parsed<
    Option<ExpressionView>,
>
    decreases state.tokens.len(), 5nat,
{
    let arguments = parse_call_arguments(state);
    Parsed {
        state: arguments.state,
        value: match arguments.value {
            Some(arguments_value) => Some(
                ExpressionView::Call {
                    token: arguments.state.cur(),
                    function: Box::new(function),
                    arguments: arguments_value,
                },
            ),
            None => None,
        },
    }
}

/// The arguments of a call, the current token being the opening
/// parenthesis: none before a closing parenthesis that follows at once, or
/// else expressions between commas up to the closing parenthesis. Where an
/// argument fails there is no list.
pub open spec fn parse_call_arguments(state: ParserView) -> Parsed<Option<Seq<ExpressionView>>>
    decreases state.tokens.len(), 4nat,
{
    if state.peek() is Rparen {
        Parsed { state: state.advance(), value: Some(Seq::empty()) }
    } else {
        let first = parse_expression(state.advance(), Precedence::Lowest);
        match first.value {
            Some(argument) => if first.state.no_longer_than(state) {
                parse_more_arguments(first.state, seq![argument])
            } else {
                Parsed { state: first.state, value: None }
            },
            None => Parsed { state: first.state, value: None },
        }
    }
}

/// The arguments that follow `arguments`, the current token being the last
/// of those.
pub open spec fn parse_more_arguments(state: ParserView, arguments: Seq<ExpressionView>) -> Parsed<
    Option<Seq<ExpressionView>>,
>
    decreases state.tokens.len(), 3nat,
{
    if state.peek() is Comma {
        let next = parse_expression(state.advance().advance(), Precedence::Lowest);
        match next.value {
            Some(argument) => if next.state.no_longer_than(state.advance().advance()) {
                parse_more_arguments(next.state, arguments.push(argument))
            } else {
                Parsed { state: next.state, value: None }
            },
            None => Parsed { state: next.state, value: None },
        }
    } else {
        let closing = expect_peek(state, TokenView::Rparen);
        Parsed {
            state: closing.state,
            value: if closing.value {
                Some(arguments)
            } else {
                None
            },
        }
    }
}

} // verus!
