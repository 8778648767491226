//! What holds of every tree that the parser builds: each node agrees with
//! the token it was built from, and where no error was recorded nothing is
//! missing.

use vstd::prelude::*;
use crate::ast::{BlockView, ExpressionView, IdentifierView, StatementView};
use crate::grammar::{
    expect_peek, identifier_at, identifier_expected_message, integer_message,
    no_prefix_message, opens_compound, parse_more_parameters, prepend, starts_expression,
    unexpected_token_message,
    parse_block_statement,
    parse_block_statements, parse_call_arguments, parse_call_expression, parse_expression,
    parse_expression_statement, parse_function_literal, parse_function_parameters,
    parse_grouped_expression, parse_if_blocks, parse_if_expression, parse_infix, parse_infix_chain,
    parse_infix_expression, parse_let_statement, parse_more_arguments,
    parse_prefix, parse_prefix_expression, parse_program, parse_return_statement,
    parse_statement, precedence_of, start_on, ParserView,
};
use crate::lexer::{lemma_token_stream_is_proper, proper_token, proper_tokens};
use crate::operators::{is_binary_operator, is_prefix_operator};
use crate::parser::Precedence;
use crate::progress::{
    lemma_block_statement_follows, lemma_block_statements_follow,
    lemma_expression_follows, lemma_follows_chain, lemma_follows_itself,
    lemma_function_parameters_follow, lemma_if_blocks_follow,
    lemma_infix_chain_follows, lemma_infix_follows, lemma_more_arguments_follow,
    lemma_prefix_follows, lemma_program_follows, lemma_statement_follows, lemma_stays_proper,
    lemma_steps_follow,
};
use crate::text::literal_value;
use crate::token::TokenView;

verus! {

/// Whether a name agrees with its token: the token is a proper identifier
/// and the name is its text.
pub open spec fn sound_name(name: IdentifierView) -> bool {
    name.token is Ident && proper_token(name.token) && name.value == name.token.literal()
}

/// Whether every name of `names` agrees with its token.
pub open spec fn sound_names(names: Seq<IdentifierView>) -> bool {
    forall|i: int| 0 <= i < names.len() ==> sound_name(#[trigger] names[i])
}

/// Whether every node of `expression` agrees with its token: a name is the
/// text of a proper identifier, a number the value of its literal, a
/// boolean that of its keyword, an operator the text of its operator
/// token; an `if` and a function hold the brace that closes them, a call
/// holds its closing parenthesis, and the parameters of a function are
/// sound names; and every statement inside is sound.
pub open spec fn sound_expression(expression: ExpressionView) -> bool
    decreases expression, 0nat,
{
    match expression {
        ExpressionView::Identifier { token, value } => sound_name(
            IdentifierView { token, value },
        ),
        ExpressionView::IntegerLiteral { token, value } => token is Int && literal_value(
            token.literal(),
        ) == Some(value),
        ExpressionView::Boolean { token, value } => (token is True || token is False) && value
            == (token is True),
        ExpressionView::Prefix { token, operator, right } => is_prefix_operator(token)
            && operator == token.literal() && sound_expression(*right),
        ExpressionView::Infix { token, left, operator, right } => is_binary_operator(token)
            && operator == token.literal() && sound_expression(*left) && sound_expression(
            *right,
        ),
        ExpressionView::If { token, condition, consequence, alternative } => token is Rbrace
            && sound_expression(*condition) && sound_block(consequence) && match alternative {
            Some(block) => sound_block(block),
            None => true,
        },
        ExpressionView::Function { token, parameters, body } => token is Rbrace && sound_names(
            parameters,
        ) && sound_block(body),
        ExpressionView::Call { token, function, arguments } => token is Rparen
            && sound_expression(*function) && sound_expressions(arguments),
    }
}

/// Whether every expression of `items` is sound.
pub open spec fn sound_expressions(items: Seq<ExpressionView>) -> bool
    decreases items, 1nat,
{
    forall|i: int| 0 <= i < items.len() ==> sound_expression(#[trigger] items[i])
}

/// Whether every statement of `items` is sound.
pub open spec fn sound_statements(items: Seq<StatementView>) -> bool
    decreases items, 1nat,
{
    forall|i: int| 0 <= i < items.len() ==> sound_statement(#[trigger] items[i])
}

/// Whether `block` holds its opening brace as its token, and every
/// statement of it is sound.
pub open spec fn sound_block(block: BlockView) -> bool
    decreases block, 0nat,
{
    block.token is Lbrace && sound_statements(block.statements)
}

/// Whether `statement` holds the keyword of its kind, a sound name if it
/// is a `let`, and a sound expression where it holds one.
pub open spec fn sound_statement(statement: StatementView) -> bool
    decreases statement, 0nat,
{
    match statement {
        StatementView::Let { token, name, value } => token is Let && name is Some && sound_name(
            name->0,
        ) && match value {
            Some(value) => sound_expression(value),
            None => true,
        },
        StatementView::Return { token, value } => token is Return && match value {
            Some(value) => sound_expression(value),
            None => true,
        },
        StatementView::Expression { token, expression } => match expression {
            Some(expression) => sound_expression(expression),
            None => true,
        },
    }
}

/// Whether nothing is missing in `expression`: in none of the statements
/// inside it.
pub open spec fn whole_expression(expression: ExpressionView) -> bool
    decreases expression, 0nat,
{
    match expression {
        ExpressionView::Prefix { token, operator, right } => whole_expression(*right),
        ExpressionView::Infix { token, left, operator, right } => whole_expression(*left)
            && whole_expression(*right),
        ExpressionView::If { token, condition, consequence, alternative } => whole_expression(
            *condition,
        ) && whole_block(consequence) && match alternative {
            Some(block) => whole_block(block),
            None => true,
        },
        ExpressionView::Function { token, parameters, body } => whole_block(body),
        ExpressionView::Call { token, function, arguments } => whole_expression(*function)
            && whole_expressions(arguments),
        _ => true,
    }
}

/// Whether nothing is missing in any expression of `items`.
pub open spec fn whole_expressions(items: Seq<ExpressionView>) -> bool
    decreases items, 1nat,
{
    forall|i: int| 0 <= i < items.len() ==> whole_expression(#[trigger] items[i])
}

/// Whether nothing is missing in any statement of `items`.
pub open spec fn whole_statements(items: Seq<StatementView>) -> bool
    decreases items, 1nat,
{
    forall|i: int| 0 <= i < items.len() ==> whole_statement(#[trigger] items[i])
}

/// Whether nothing is missing in any statement of `block`.
pub open spec fn whole_block(block: BlockView) -> bool
    decreases block, 0nat,
{
    whole_statements(block.statements)
}

/// Whether nothing is missing in `statement`: it has its name, if it is a
/// `let`, and its expression, and nothing is missing in that.
pub open spec fn whole_statement(statement: StatementView) -> bool
    decreases statement, 0nat,
{
    match statement {
        StatementView::Let { token, name, value } => name is Some && value is Some
            && whole_expression(value->0),
        StatementView::Return { token, value } => value is Some && whole_expression(value->0),
        StatementView::Expression { token, expression } => expression is Some
            && whole_expression(expression->0),
    }
}

/// Whether `value` is sound where it is present.
pub open spec fn sound_if_present(value: Option<ExpressionView>) -> bool {
    match value {
        Some(expression) => sound_expression(expression),
        None => true,
    }
}

/// Whether `value` is present with nothing missing in it.
pub open spec fn present_and_whole(value: Option<ExpressionView>) -> bool {
    value is Some && whole_expression(value->0)
}

/// Whether the rule that led from `before` to `behind` recorded no error.
pub open spec fn quiet(before: ParserView, behind: ParserView) -> bool {
    behind.errors == before.errors
}

/// Of three states in a row, the last follows the first; proper tokens
/// stay proper; and where the whole way was quiet, so was each part.
pub proof fn lemma_way(first: ParserView, middle: ParserView, last: ParserView)
    requires
        middle.follows(first),
        last.follows(middle),
    ensures
        last.follows(first),
        quiet(first, last) ==> quiet(first, middle) && quiet(middle, last),
        proper_tokens(first.tokens) ==> proper_tokens(middle.tokens) && proper_tokens(
            last.tokens,
        ),
{
    lemma_follows_chain(last, middle, first);
    if quiet(first, last) {
        assert(middle.errors == first.errors) by {
            assert(last.errors.take(middle.errors.len() as int) == middle.errors);
            assert(last.errors.take(first.errors.len() as int) == first.errors);
        }
    }
    if proper_tokens(first.tokens) {
        lemma_stays_proper(first, middle);
        lemma_stays_proper(first, last);
    }
}

/// A state with one more error is not quiet.
pub proof fn lemma_error_is_heard(before: ParserView, middle: ParserView, message: Seq<char>)
    requires
        middle.follows(before),
    ensures
        !quiet(before, middle.with_error(message)),
        middle.with_error(message).follows(before),
{
    lemma_steps_follow(middle, message, TokenView::Eof);
    lemma_follows_chain(middle.with_error(message), middle, before);
}

/// The step to the next token keeps proper tokens proper and is quiet; the
/// current token of a state with proper tokens is proper or `Eof`.
pub proof fn lemma_step(state: ParserView)
    requires
        proper_tokens(state.tokens),
    ensures
        state.advance().follows(state),
        state.past_semicolon().follows(state),
        quiet(state, state.advance()),
        quiet(state, state.past_semicolon()),
        proper_tokens(state.advance().tokens),
        proper_tokens(state.past_semicolon().tokens),
        state.cur() is Eof || proper_token(state.cur()),
        state.peek() is Eof || proper_token(state.peek()),
        state.advance().cur() == state.peek(),
{
    lemma_steps_follow(state, Seq::empty(), TokenView::Eof);
    lemma_stays_proper(state, state.advance());
    lemma_stays_proper(state, state.past_semicolon());
    if state.tokens.len() > 0 {
        assert(proper_token(state.tokens[0]));
    }
    if state.tokens.len() > 1 {
        assert(proper_token(state.tokens[1]));
    }
}

/// An expectation follows its state; it is quiet exactly when it is met.
pub proof fn lemma_expectation(state: ParserView, expected: TokenView)
    requires
        proper_tokens(state.tokens),
    ensures
        expect_peek(state, expected).state.follows(state),
        proper_tokens(expect_peek(state, expected).state.tokens),
        quiet(state, expect_peek(state, expected).state) == expect_peek(state, expected).value,
{
    lemma_steps_follow(state, Seq::empty(), expected);
    lemma_stays_proper(state, expect_peek(state, expected).state);
}

/// The statements of a program are sound, and nothing is missing in them
/// if no error was recorded.
pub proof fn lemma_sound_program(state: ParserView)
    requires
        proper_tokens(state.tokens),
    ensures
        sound_statements(parse_program(state).value),
        quiet(state, parse_program(state).state) ==> whole_statements(
            parse_program(state).value,
        ),
    decreases state.tokens.len(),
{
    if !(state.cur() is Eof) {
        let first = parse_statement(state);
        let next = first.state.advance();
        lemma_sound_statement(state);
        lemma_statement_follows(state);
        lemma_stays_proper(state, first.state);
        lemma_step(first.state);
        lemma_way(state, first.state, next);
        if next.tokens.len() < state.tokens.len() {
            let rest = parse_program(next);
            lemma_sound_program(next);
            lemma_program_follows(next);
            lemma_way(state, next, rest.state);
            lemma_joined(first.value, rest.value, quiet(state, rest.state));
        }
    }
}

/// A statement in front of sound statements makes sound statements, and
/// likewise for statements in which nothing is missing.
pub proof fn lemma_joined(first: Option<StatementView>, rest: Seq<StatementView>, strict: bool)
    requires
        first matches Some(statement) ==> sound_statement(statement),
        sound_statements(rest),
        strict ==> first is Some && whole_statement(first->0) && whole_statements(rest),
    ensures
        sound_statements(prepend(first, rest)),
        strict ==> whole_statements(prepend(first, rest)),
{
    let all = prepend(first, rest);
    assert forall|i: int| 0 <= i < all.len() implies sound_statement(#[trigger] all[i]) by {
        if first is Some && i > 0 {
            assert(all[i] == rest[i - 1]);
        }
    }
    if strict {
        assert forall|i: int| 0 <= i < all.len() implies whole_statement(#[trigger] all[i]) by {
            if i > 0 {
                assert(all[i] == rest[i - 1]);
            }
        }
    }
}

/// A statement is sound, and it is there with nothing missing if no error
/// was recorded.
pub proof fn lemma_sound_statement(state: ParserView)
    requires
        proper_tokens(state.tokens),
    ensures
        parse_statement(state).value matches Some(statement) ==> sound_statement(statement),
        quiet(state, parse_statement(state).state) ==> parse_statement(state).value is Some
            && whole_statement(parse_statement(state).value->0),
    decreases state.tokens.len(), 11nat,
{
    match state.cur() {
        TokenView::Let => lemma_sound_let_statement(state),
        TokenView::Return => lemma_sound_return_statement(state),
        _ => lemma_sound_expression_statement(state),
    }
}

/// A `let` statement is sound, and it is there with nothing missing if no
/// error was recorded.
pub proof fn lemma_sound_let_statement(state: ParserView)
    requires
        proper_tokens(state.tokens),
        state.cur() is Let,
    ensures
        parse_let_statement(state).value matches Some(statement) ==> sound_statement(statement),
        quiet(state, parse_let_statement(state).state) ==> parse_let_statement(state).value
            is Some && whole_statement(parse_let_statement(state).value->0),
    decreases state.tokens.len(), 10nat,
{
    lemma_step(state);
    if !(state.peek() is Ident) {
        lemma_follows_itself(state);
        lemma_error_is_heard(
            state,
            state,
            identifier_expected_message(state.peek()),
        );
    } else {
        let at_name = state.advance();
        let assign = expect_peek(at_name, TokenView::Assign);
        lemma_expectation(at_name, TokenView::Assign);
        lemma_way(state, at_name, assign.state);
        if assign.value {
            let at_value = assign.state.advance();
            lemma_step(assign.state);
            lemma_way(state, assign.state, at_value);
            let value = parse_expression(at_value, Precedence::Lowest);
            lemma_sound_expression(at_value, Precedence::Lowest);
            lemma_expression_follows(at_value, Precedence::Lowest);
            lemma_way(state, at_value, value.state);
            lemma_step(value.state);
            lemma_way(state, value.state, value.state.past_semicolon());
        }
    }
}

/// A `return` statement is sound, and nothing is missing in it if no
/// error was recorded.
pub proof fn lemma_sound_return_statement(state: ParserView)
    requires
        proper_tokens(state.tokens),
    ensures
        parse_return_statement(state).value matches Some(statement) ==> sound_statement(
            statement,
        ),
        quiet(state, parse_return_statement(state).state) ==> parse_return_statement(
            state,
        ).value is Some && whole_statement(parse_return_statement(state).value->0),
    decreases state.tokens.len(), 10nat,
{
    lemma_step(state);
    let value = parse_expression(state.advance(), Precedence::Lowest);
    lemma_sound_expression(state.advance(), Precedence::Lowest);
    lemma_expression_follows(state.advance(), Precedence::Lowest);
    lemma_way(state, state.advance(), value.state);
    lemma_step(value.state);
    lemma_way(state, value.state, value.state.past_semicolon());
}

/// An expression statement is sound, and nothing is missing in it if no
/// error was recorded.
pub proof fn lemma_sound_expression_statement(state: ParserView)
    requires
        proper_tokens(state.tokens),
    ensures
        parse_expression_statement(state).value matches Some(statement) ==> sound_statement(
            statement,
        ),
        quiet(state, parse_expression_statement(state).state) ==> parse_expression_statement(
            state,
        ).value is Some && whole_statement(parse_expression_statement(state).value->0),
    decreases state.tokens.len(), 10nat,
{
    let expression = parse_expression(state, Precedence::Lowest);
    lemma_sound_expression(state, Precedence::Lowest);
    lemma_expression_follows(state, Precedence::Lowest);
    lemma_stays_proper(state, expression.state);
    lemma_step(expression.state);
    lemma_way(state, expression.state, expression.state.past_semicolon());
}

/// An expression is sound, and it is there with nothing missing if no
/// error was recorded.
pub proof fn lemma_sound_expression(state: ParserView, precedence: Precedence)
    requires
        proper_tokens(state.tokens),
    ensures
        sound_if_present(parse_expression(state, precedence).value),
        quiet(state, parse_expression(state, precedence).state) ==> present_and_whole(
            parse_expression(state, precedence).value,
        ),
    decreases state.tokens.len(),
        (if state.tokens.len() == 0 {
            1nat
        } else {
            9nat
        }),
{
    if !starts_expression(state.cur()) {
        lemma_follows_itself(state);
        lemma_error_is_heard(state, state, no_prefix_message(state.cur()));
    } else {
        let start = parse_prefix(state, state.cur());
        lemma_sound_prefix(state);
        lemma_prefix_follows(state, state.cur());
        lemma_stays_proper(state, start.state);
        match start.value {
            Some(left) => {
                let whole = parse_infix_chain(start.state, left, precedence);
                lemma_sound_chain(start.state, left, precedence);
                lemma_infix_chain_follows(start.state, left, precedence);
                lemma_way(state, start.state, whole.state);
            },
            None => {},
        }
    }
}

/// A sound expression that is extended to the right stays sound, and
/// nothing is missing in it if nothing was before and no error was
/// recorded.
pub proof fn lemma_sound_chain(state: ParserView, left: ExpressionView, precedence: Precedence)
    requires
        proper_tokens(state.tokens),
        sound_expression(left),
    ensures
        sound_if_present(parse_infix_chain(state, left, precedence).value),
        quiet(state, parse_infix_chain(state, left, precedence).state) && whole_expression(left)
            ==> present_and_whole(parse_infix_chain(state, left, precedence).value),
    decreases state.tokens.len(),
        (if state.tokens.len() == 0 {
            0nat
        } else {
            8nat
        }),
{
    if !(state.peek() is Semicolon) && precedence.rank() < precedence_of(state.peek()).rank() {
        let at_operator = state.advance();
        lemma_step(state);
        let extended = parse_infix(at_operator, state.peek(), left);
        lemma_sound_infix(at_operator, left);
        lemma_infix_follows(at_operator, state.peek(), left);
        lemma_way(state, at_operator, extended.state);
        match extended.value {
            Some(expression) => {
                let whole = parse_infix_chain(extended.state, expression, precedence);
                lemma_sound_chain(extended.state, expression, precedence);
                lemma_infix_chain_follows(extended.state, expression, precedence);
                lemma_way(state, extended.state, whole.state);
            },
            None => {},
        }
    }
}

/// What starts an expression at the current token is sound, and it is
/// there with nothing missing if no error was recorded and an expression
/// can start with that token.
pub proof fn lemma_sound_prefix(state: ParserView)
    requires
        proper_tokens(state.tokens),
    ensures
        sound_if_present(parse_prefix(state, state.cur()).value),
        quiet(state, parse_prefix(state, state.cur()).state) && starts_expression(state.cur())
            ==> present_and_whole(parse_prefix(state, state.cur()).value),
    decreases state.tokens.len(),
        (if opens_compound(state.cur()) {
            8nat
        } else {
            0nat
        }),
{
    lemma_step(state);
    lemma_follows_itself(state);
    lemma_error_is_heard(state, state, integer_message(state.cur().literal()));
    match state.cur() {
        TokenView::Bang => lemma_sound_prefix_expression(state),
        TokenView::Minus => lemma_sound_prefix_expression(state),
        TokenView::If => lemma_sound_if_expression(state),
        TokenView::Function => lemma_sound_function_literal(state),
        TokenView::Lparen => lemma_sound_grouped_expression(state),
        _ => {},
    }
}

/// What continues a sound expression at the current token is sound; if no
/// error was recorded it is there, the token being an operator, and
/// nothing is missing in it if nothing was before.
pub proof fn lemma_sound_infix(state: ParserView, left: ExpressionView)
    requires
        proper_tokens(state.tokens),
        sound_expression(left),
    ensures
        sound_if_present(parse_infix(state, state.cur(), left).value),
        quiet(state, parse_infix(state, state.cur(), left).state) && precedence_of(
            state.cur(),
        ).rank() > 0 ==> parse_infix(state, state.cur(), left).value is Some,
        quiet(state, parse_infix(state, state.cur(), left).state) && whole_expression(left)
            ==> parse_infix(state, state.cur(), left).value is None || present_and_whole(
            parse_infix(state, state.cur(), left).value,
        ),
    decreases state.tokens.len(), 6nat,
{
    match state.cur() {
        TokenView::Plus => lemma_sound_infix_expression(state, left),
        TokenView::Minus => lemma_sound_infix_expression(state, left),
        TokenView::Slash => lemma_sound_infix_expression(state, left),
        TokenView::Asterisk => lemma_sound_infix_expression(state, left),
        TokenView::Eq => lemma_sound_infix_expression(state, left),
        TokenView::NotEq => lemma_sound_infix_expression(state, left),
        TokenView::Lt => lemma_sound_infix_expression(state, left),
        TokenView::Gt => lemma_sound_infix_expression(state, left),
        TokenView::Lparen => lemma_sound_call_expression(state, left),
        _ => {},
    }
}

/// A prefix operator with its operand is sound, and it is there with
/// nothing missing if no error was recorded.
pub proof fn lemma_sound_prefix_expression(state: ParserView)
    requires
        proper_tokens(state.tokens),
        is_prefix_operator(state.cur()),
    ensures
        sound_if_present(parse_prefix_expression(state).value),
        quiet(state, parse_prefix_expression(state).state) ==> present_and_whole(
            parse_prefix_expression(state).value,
        ),
    decreases state.tokens.len(), 7nat,
{
    lemma_step(state);
    let operand = parse_expression(state.advance(), Precedence::Prefix);
    lemma_sound_expression(state.advance(), Precedence::Prefix);
    lemma_expression_follows(state.advance(), Precedence::Prefix);
    lemma_way(state, state.advance(), operand.state);
}

/// A binary operator with its operands is sound if the left operand is;
/// if no error was recorded it is there, and nothing is missing in it if
/// nothing was in the left operand.
pub proof fn lemma_sound_infix_expression(state: ParserView, left: ExpressionView)
    requires
        proper_tokens(state.tokens),
        sound_expression(left),
        is_binary_operator(state.cur()),
    ensures
        sound_if_present(parse_infix_expression(state, left).value),
        quiet(state, parse_infix_expression(state, left).state) ==> parse_infix_expression(
            state,
            left,
        ).value is Some,
        quiet(state, parse_infix_expression(state, left).state) && whole_expression(left)
            ==> present_and_whole(parse_infix_expression(state, left).value),
    decreases state.tokens.len(), 5nat,
{
    lemma_step(state);
    let operand = parse_expression(state.advance(), precedence_of(state.cur()));
    lemma_sound_expression(state.advance(), precedence_of(state.cur()));
    lemma_expression_follows(state.advance(), precedence_of(state.cur()));
    lemma_way(state, state.advance(), operand.state);
}

/// An expression in parentheses is sound, and it is there with nothing
/// missing if no error was recorded.
pub proof fn lemma_sound_grouped_expression(state: ParserView)
    requires
        proper_tokens(state.tokens),
    ensures
        sound_if_present(parse_grouped_expression(state).value),
        quiet(state, parse_grouped_expression(state).state) ==> present_and_whole(
            parse_grouped_expression(state).value,
        ),
    decreases state.tokens.len(), 7nat,
{
    lemma_step(state);
    let inner = parse_expression(state.advance(), Precedence::Lowest);
    lemma_sound_expression(state.advance(), Precedence::Lowest);
    lemma_expression_follows(state.advance(), Precedence::Lowest);
    lemma_way(state, state.advance(), inner.state);
    lemma_expectation(inner.state, TokenView::Rparen);
    lemma_way(state, inner.state, expect_peek(inner.state, TokenView::Rparen).state);
}

/// An `if` expression is sound, and it is there with nothing missing if no
/// error was recorded.
pub proof fn lemma_sound_if_expression(state: ParserView)
    requires
        proper_tokens(state.tokens),
    ensures
        sound_if_present(parse_if_expression(state).value),
        quiet(state, parse_if_expression(state).state) ==> present_and_whole(
            parse_if_expression(state).value,
        ),
    decreases state.tokens.len(), 7nat,
{
    let opening = expect_peek(state, TokenView::Lparen);
    lemma_expectation(state, TokenView::Lparen);
    if opening.value {
        let at_condition = opening.state.advance();
        lemma_step(opening.state);
        lemma_way(state, opening.state, at_condition);
        let condition = parse_expression(at_condition, Precedence::Lowest);
        lemma_sound_expression(at_condition, Precedence::Lowest);
        lemma_expression_follows(at_condition, Precedence::Lowest);
        lemma_way(state, at_condition, condition.state);
        if condition.value is Some {
            let closing = expect_peek(condition.state, TokenView::Rparen);
            lemma_expectation(condition.state, TokenView::Rparen);
            lemma_way(state, condition.state, closing.state);
            let brace = expect_peek(closing.state, TokenView::Lbrace);
            lemma_expectation(closing.state, TokenView::Lbrace);
            lemma_way(state, closing.state, brace.state);
            if closing.value && brace.value {
                lemma_step(closing.state);
                lemma_sound_if_blocks(brace.state, condition.value->0);
                lemma_if_blocks_follow(brace.state, condition.value->0);
                lemma_way(
                    state,
                    brace.state,
                    parse_if_blocks(brace.state, condition.value->0).state,
                );
            }
        }
    }
}

/// The blocks of an `if` expression make a sound expression with a sound
/// condition, and it is there with nothing missing if nothing is in the
/// condition and no error was recorded.
#[verifier::rlimit(40)]
pub proof fn lemma_sound_if_blocks(state: ParserView, condition: ExpressionView)
    requires
        proper_tokens(state.tokens),
        state.cur() is Lbrace,
        sound_expression(condition),
    ensures
        sound_if_present(parse_if_blocks(state, condition).value),
        quiet(state, parse_if_blocks(state, condition).state) && whole_expression(condition)
            ==> present_and_whole(parse_if_blocks(state, condition).value),
    decreases state.tokens.len(), 3nat,
{
    let consequence = parse_block_statement(state);
    lemma_sound_block(state);
    lemma_block_statement_follows(state);
    lemma_stays_proper(state, consequence.state);
    if consequence.value is Some && consequence.state.peek() is Else {
        let at_else = consequence.state.advance();
        lemma_step(consequence.state);
        lemma_way(state, consequence.state, at_else);
        let second_brace = expect_peek(at_else, TokenView::Lbrace);
        lemma_expectation(at_else, TokenView::Lbrace);
        lemma_way(state, at_else, second_brace.state);
        if second_brace.value {
            let alternative = parse_block_statement(second_brace.state);
            lemma_step(at_else);
            lemma_sound_block(second_brace.state);
            lemma_block_statement_follows(second_brace.state);
            lemma_way(state, second_brace.state, alternative.state);
            lemma_follows_chain(second_brace.state, at_else, consequence.state);
            lemma_follows_chain(alternative.state, second_brace.state, consequence.state);
            lemma_way(state, consequence.state, alternative.state);
        }
    }
}

/// A block is sound, and it is there with nothing missing if no error was
/// recorded.
pub proof fn lemma_sound_block(state: ParserView)
    requires
        proper_tokens(state.tokens),
        state.cur() is Lbrace,
    ensures
        parse_block_statement(state).value matches Some(block) ==> sound_block(block),
        parse_block_statement(state).value is Some ==> parse_block_statement(state).state.cur()
            is Rbrace,
        quiet(state, parse_block_statement(state).state) ==> parse_block_statement(
            state,
        ).value is Some && whole_block(parse_block_statement(state).value->0),
    decreases state.tokens.len(), 2nat,
{
    let statements = parse_block_statements(state.advance());
    lemma_step(state);
    lemma_sound_block_statements(state.advance());
    lemma_block_statements_follow(state.advance());
    lemma_way(state, state.advance(), statements.state);
    if !(statements.state.cur() is Rbrace) {
        lemma_error_is_heard(
            state,
            statements.state,
            unexpected_token_message(TokenView::Rbrace, statements.state.cur()),
        );
    }
}

/// The statements of a block are sound, and nothing is missing in them if
/// no error was recorded.
pub proof fn lemma_sound_block_statements(state: ParserView)
    requires
        proper_tokens(state.tokens),
    ensures
        sound_statements(parse_block_statements(state).value),
        quiet(state, parse_block_statements(state).state) ==> whole_statements(
            parse_block_statements(state).value,
        ),
    decreases state.tokens.len(),
        (if state.tokens.len() == 0 {
            0nat
        } else {
            12nat
        }),
{
    if !(state.cur() is Rbrace || state.cur() is Eof) {
        let first = parse_statement(state);
        let next = first.state.advance();
        lemma_sound_statement(state);
        lemma_statement_follows(state);
        lemma_stays_proper(state, first.state);
        lemma_step(first.state);
        lemma_way(state, first.state, next);
        if next.tokens.len() < state.tokens.len() {
            let rest = parse_block_statements(next);
            lemma_sound_block_statements(next);
            lemma_block_statements_follow(next);
            lemma_way(state, next, rest.state);
            lemma_joined(first.value, rest.value, quiet(state, rest.state));
        }
    }
}

/// A function literal is sound, and it is there with nothing missing if no
/// error was recorded.
pub proof fn lemma_sound_function_literal(state: ParserView)
    requires
        proper_tokens(state.tokens),
    ensures
        sound_if_present(parse_function_literal(state).value),
        quiet(state, parse_function_literal(state).state) ==> present_and_whole(
            parse_function_literal(state).value,
        ),
    decreases state.tokens.len(), 7nat,
{
    let opening = expect_peek(state, TokenView::Lparen);
    lemma_expectation(state, TokenView::Lparen);
    if opening.value {
        let parameters = parse_function_parameters(opening.state);
        lemma_function_parameters_follow(opening.state);
        lemma_sound_parameters(opening.state);
        lemma_way(state, opening.state, parameters.state);
        if parameters.value is Some {
            let brace = expect_peek(parameters.state, TokenView::Lbrace);
            lemma_expectation(parameters.state, TokenView::Lbrace);
            lemma_way(state, parameters.state, brace.state);
            if brace.value {
                let body = parse_block_statement(brace.state);
                lemma_step(parameters.state);
                lemma_sound_block(brace.state);
                lemma_block_statement_follows(brace.state);
                lemma_way(state, brace.state, body.state);
            }
        }
    }
}

/// The parameters of a function are sound names, and they are there if no
/// error was recorded.
pub proof fn lemma_sound_parameters(state: ParserView)
    requires
        proper_tokens(state.tokens),
    ensures
        parse_function_parameters(state).value matches Some(names) ==> sound_names(names),
        quiet(state, parse_function_parameters(state).state) ==> parse_function_parameters(
            state,
        ).value is Some,
{
    lemma_step(state);
    lemma_follows_itself(state);
    lemma_error_is_heard(state, state, identifier_expected_message(state.peek()));
    if !(state.peek() is Rparen) && state.peek() is Ident {
        let first = seq![identifier_at(state.advance())];
        assert(sound_names(first));
        lemma_sound_more_parameters(state.advance(), first);
    }
}

/// Further parameters of a function keep the names sound, and they are
/// there if no error was recorded.
pub proof fn lemma_sound_more_parameters(state: ParserView, parameters: Seq<IdentifierView>)
    requires
        proper_tokens(state.tokens),
        sound_names(parameters),
    ensures
        parse_more_parameters(state, parameters).value matches Some(names) ==> sound_names(
            names,
        ),
        quiet(state, parse_more_parameters(state, parameters).state) ==> parse_more_parameters(
            state,
            parameters,
        ).value is Some,
    decreases state.tokens.len(),
{
    lemma_step(state);
    lemma_expectation(state, TokenView::Rparen);
    if state.peek() is Comma {
        let at_comma = state.advance();
        lemma_step(at_comma);
        lemma_follows_itself(at_comma);
        lemma_error_is_heard(at_comma, at_comma, identifier_expected_message(at_comma.peek()));
        if at_comma.peek() is Ident {
            let at_name = at_comma.advance();
            let more = parameters.push(identifier_at(at_name));
            assert(sound_names(more)) by {
                assert forall|i: int| 0 <= i < more.len() implies sound_name(
                    #[trigger] more[i],
                ) by {
                    if i < parameters.len() {
                        assert(more[i] == parameters[i]);
                    }
                }
            }
            lemma_sound_more_parameters(at_name, more);
        }
    }
}

/// A call is sound if the function is; if no error was recorded it is
/// there, and nothing is missing in it if nothing was in the function.
pub proof fn lemma_sound_call_expression(state: ParserView, function: ExpressionView)
    requires
        proper_tokens(state.tokens),
        sound_expression(function),
    ensures
        sound_if_present(parse_call_expression(state, function).value),
        quiet(state, parse_call_expression(state, function).state) ==> parse_call_expression(
            state,
            function,
        ).value is Some,
        quiet(state, parse_call_expression(state, function).state) && whole_expression(function)
            ==> present_and_whole(parse_call_expression(state, function).value),
    decreases state.tokens.len(), 5nat,
{
    lemma_sound_call_arguments(state);
}

/// The arguments of a call are sound, and they are there with nothing
/// missing if no error was recorded.
pub proof fn lemma_sound_call_arguments(state: ParserView)
    requires
        proper_tokens(state.tokens),
    ensures
        parse_call_arguments(state).value matches Some(arguments) ==> sound_expressions(
            arguments,
        ),
        parse_call_arguments(state).value is Some ==> parse_call_arguments(state).state.cur()
            is Rparen,
        quiet(state, parse_call_arguments(state).state) ==> parse_call_arguments(state).value
            is Some && whole_expressions(parse_call_arguments(state).value->0),
    decreases state.tokens.len(), 4nat,
{
    lemma_step(state);
    if !(state.peek() is Rparen) {
        let first = parse_expression(state.advance(), Precedence::Lowest);
        lemma_sound_expression(state.advance(), Precedence::Lowest);
        lemma_expression_follows(state.advance(), Precedence::Lowest);
        lemma_way(state, state.advance(), first.state);
        match first.value {
            Some(argument) => {
                let all = parse_more_arguments(first.state, seq![argument]);
                lemma_sound_more_arguments(first.state, seq![argument]);
                lemma_more_arguments_follow(first.state, seq![argument]);
                lemma_way(state, first.state, all.state);
            },
            None => {},
        }
    }
}

/// Further arguments of a call keep the arguments sound, and they are
/// there with nothing missing if nothing was before and no error was
/// recorded.
pub proof fn lemma_sound_more_arguments(state: ParserView, arguments: Seq<ExpressionView>)
    requires
        proper_tokens(state.tokens),
        sound_expressions(arguments),
    ensures
        parse_more_arguments(state, arguments).value matches Some(all) ==> sound_expressions(
            all,
        ),
        parse_more_arguments(state, arguments).value is Some ==> parse_more_arguments(
            state,
            arguments,
        ).state.cur() is Rparen,
        quiet(state, parse_more_arguments(state, arguments).state) && whole_expressions(
            arguments,
        ) ==> parse_more_arguments(state, arguments).value is Some && whole_expressions(
            parse_more_arguments(state, arguments).value->0,
        ),
    decreases state.tokens.len(), 3nat,
{
    lemma_step(state);
    lemma_expectation(state, TokenView::Rparen);
    if state.peek() is Comma {
        let at_argument = state.advance().advance();
        lemma_step(state.advance());
        lemma_way(state, state.advance(), at_argument);
        let next = parse_expression(at_argument, Precedence::Lowest);
        lemma_sound_expression(at_argument, Precedence::Lowest);
        lemma_expression_follows(at_argument, Precedence::Lowest);
        lemma_way(state, at_argument, next.state);
        match next.value {
            Some(argument) => {
                let more = arguments.push(argument);
                assert(sound_expressions(more)) by {
                    assert forall|i: int| 0 <= i < more.len() implies sound_expression(
                        #[trigger] more[i],
                    ) by {
                        if i < arguments.len() {
                            assert(more[i] == arguments[i]);
                        }
                    }
                }
                if quiet(at_argument, next.state) && whole_expressions(arguments) {
                    assert(whole_expressions(more)) by {
                        assert forall|i: int| 0 <= i < more.len() implies whole_expression(
                            #[trigger] more[i],
                        ) by {
                            if i < arguments.len() {
                                assert(more[i] == arguments[i]);
                            }
                        }
                    }
                }
                let all = parse_more_arguments(next.state, more);
                lemma_sound_more_arguments(next.state, more);
                lemma_more_arguments_follow(next.state, more);
                lemma_way(state, next.state, all.state);
            },
            None => {},
        }
    }
}

/// A rule that was not quiet has left more errors than it found.
pub proof fn lemma_heard_is_longer(before: ParserView, behind: ParserView)
    requires
        behind.follows(before),
        !quiet(before, behind),
    ensures
        behind.errors.len() > before.errors.len(),
{
    if behind.errors.len() == before.errors.len() {
        assert(behind.errors.take(behind.errors.len() as int) == behind.errors);
    }
}

/// An expression that is missing has left an error.
pub proof fn lemma_missing_expression_is_recorded(state: ParserView, precedence: Precedence)
    requires
        proper_tokens(state.tokens),
    ensures
        parse_expression(state, precedence).value is None ==> parse_expression(
            state,
            precedence,
        ).state.errors.len() > state.errors.len(),
{
    lemma_sound_expression(state, precedence);
    lemma_expression_follows(state, precedence);
    if parse_expression(state, precedence).value is None {
        lemma_heard_is_longer(state, parse_expression(state, precedence).state);
    }
}

/// A statement that is missing, or in which something is missing, has left
/// an error.
pub proof fn lemma_missing_statement_is_recorded(state: ParserView)
    requires
        proper_tokens(state.tokens),
    ensures
        parse_statement(state).value is None || !whole_statement(parse_statement(state).value->0)
            ==> parse_statement(state).state.errors.len() > state.errors.len(),
{
    lemma_sound_statement(state);
    lemma_statement_follows(state);
    if !quiet(state, parse_statement(state).state) {
        lemma_heard_is_longer(state, parse_statement(state).state);
    }
}

/// A block is there only if its closing brace was found, and a block that
/// is missing has left an error.
pub proof fn lemma_block_is_closed(state: ParserView)
    ensures
        parse_block_statement(state).value is Some ==> parse_block_statement(state).state.cur()
            is Rbrace,
        parse_block_statement(state).value is None ==> parse_block_statement(
            state,
        ).state.errors.len() > state.errors.len(),
{
    let statements = parse_block_statements(state.advance());
    lemma_block_statement_follows(state);
    lemma_steps_follow(state, Seq::empty(), TokenView::Eof);
    lemma_block_statements_follow(state.advance());
    lemma_follows_chain(statements.state, state.advance(), state);
}

/// The parameters of a function are there only if each of them is an
/// identifier: each is the name that its token spells.
pub proof fn lemma_parameters_are_identifiers(state: ParserView)
    ensures
        parse_function_parameters(state).value matches Some(names) ==> forall|i: int|
            0 <= i < names.len() ==> (#[trigger] names[i]).token is Ident && names[i].value
                == names[i].token.literal(),
{
    if !(state.peek() is Rparen) && state.peek() is Ident {
        let first = seq![identifier_at(state.advance())];
        assert(state.advance().cur() == state.peek());
        lemma_more_parameters_are_identifiers(state.advance(), first);
    }
}

/// Further parameters of a function are identifiers if those before them
/// are.
pub proof fn lemma_more_parameters_are_identifiers(
    state: ParserView,
    parameters: Seq<IdentifierView>,
)
    requires
        forall|i: int|
            0 <= i < parameters.len() ==> (#[trigger] parameters[i]).token is Ident
                && parameters[i].value == parameters[i].token.literal(),
    ensures
        parse_more_parameters(state, parameters).value matches Some(names) ==> forall|i: int|
            0 <= i < names.len() ==> (#[trigger] names[i]).token is Ident && names[i].value
                == names[i].token.literal(),
    decreases state.tokens.len(),
{
    if state.peek() is Comma {
        let at_comma = state.advance();
        if at_comma.peek() is Ident {
            let at_name = at_comma.advance();
            let more = parameters.push(identifier_at(at_name));
            assert(at_name.cur() == at_comma.peek());
            assert forall|i: int| 0 <= i < more.len() implies (#[trigger] more[i]).token is Ident
                && more[i].value == more[i].token.literal() by {
                if i < parameters.len() {
                    assert(more[i] == parameters[i]);
                }
            }
            lemma_more_parameters_are_identifiers(at_name, more);
        }
    }
}

/// Whatever the text, the statements that it is parsed into are sound;
/// and if no error is recorded, nothing is missing in them.
pub proof fn lemma_sound_parse(input: Seq<char>)
    ensures
        sound_statements(parse_program(start_on(input)).value),
        parse_program(start_on(input)).state.errors.len() == 0 ==> whole_statements(
            parse_program(start_on(input)).value,
        ),
{
    lemma_token_stream_is_proper(input, 0);
    lemma_sound_program(start_on(input));
    if parse_program(start_on(input)).state.errors.len() == 0 {
        assert(parse_program(start_on(input)).state.errors == start_on(input).errors);
    }
}

} // verus!
