//! The parser only moves forward: whatever a rule of the grammar is applied
//! to, the tokens of the state it leaves are what is left of the tokens it
//! found, and the errors it found are still there, in their places, with
//! the new ones behind them.

use vstd::prelude::*;
use crate::ast::{ExpressionView, IdentifierView};
use crate::grammar::{
    expect_peek, identifier_at, identifier_expected_message, integer_message,
    no_prefix_message, opens_compound, parse_block_statement, parse_block_statements,
    parse_call_arguments, parse_call_expression, parse_expression, parse_expression_statement,
    parse_function_literal, parse_function_parameters, parse_grouped_expression,
    parse_if_blocks, parse_if_expression, parse_infix, parse_infix_chain, parse_infix_expression,
    parse_let_statement, parse_more_arguments, parse_more_parameters, parse_prefix,
    parse_prefix_expression, parse_program, parse_return_statement, parse_statement,
    precedence_of, starts_expression, unexpected_token_message, ParserView,
};
use crate::lexer::{proper_token, proper_tokens};
use crate::parser::Precedence;
use crate::token::TokenView;

verus! {

/// Every state follows itself.
pub proof fn lemma_follows_itself(state: ParserView)
    ensures
        state.follows(state),
{
    assert(state.tokens.skip(0) == state.tokens);
    assert(state.errors.take(state.errors.len() as int) == state.errors);
}

/// What follows a state that follows another follows that other too.
pub proof fn lemma_follows_chain(last: ParserView, middle: ParserView, first: ParserView)
    requires
        last.follows(middle),
        middle.follows(first),
    ensures
        last.follows(first),
{
    assert(last.tokens == first.tokens.skip(first.tokens.len() - last.tokens.len()));
    assert(last.errors.take(first.errors.len() as int) == first.errors);
}

/// Moving on, recording an error and passing a semicolon each lead to a
/// state that follows.
pub proof fn lemma_steps_follow(state: ParserView, message: Seq<char>, expected: TokenView)
    ensures
        state.advance().follows(state),
        state.advance().advance().follows(state),
        state.with_error(message).follows(state),
        state.past_semicolon().follows(state),
        expect_peek(state, expected).state.follows(state),
{
    lemma_follows_itself(state);
    let unexpected = unexpected_token_message(expected, state.peek());
    assert(state.with_error(message).follows(state) && state.with_error(unexpected).follows(
        state,
    )) by {
        assert(state.tokens.skip(0) == state.tokens);
        assert(state.errors.push(message).take(state.errors.len() as int) == state.errors);
        assert(state.errors.push(unexpected).take(state.errors.len() as int) == state.errors);
    }
    assert(state.advance().follows(state)) by {
        if state.tokens.len() > 0 {
            assert(state.tokens.drop_first() == state.tokens.skip(1));
            assert(state.errors.take(state.errors.len() as int) == state.errors);
        }
    }
    lemma_follows_itself(state.advance());
    assert(state.advance().advance().follows(state.advance())) by {
        let next = state.advance();
        if next.tokens.len() > 0 {
            assert(next.tokens.drop_first() == next.tokens.skip(1));
            assert(next.errors.take(next.errors.len() as int) == next.errors);
        }
    }
    lemma_follows_chain(state.advance().advance(), state.advance(), state);
}

/// The tokens that a rule leaves are proper if those that it found are.
pub proof fn lemma_stays_proper(before: ParserView, behind: ParserView)
    requires
        behind.follows(before),
        proper_tokens(before.tokens),
    ensures
        proper_tokens(behind.tokens),
{
    let skipped = before.tokens.len() - behind.tokens.len();
    assert forall|i: int| 0 <= i < behind.tokens.len() implies proper_token(
        #[trigger] behind.tokens[i],
    ) by {
        assert(behind.tokens[i] == before.tokens[skipped + i]);
    }
}

/// Parsing a program only moves forward.
pub proof fn lemma_program_follows(state: ParserView)
    ensures
        parse_program(state).state.follows(state),
    decreases state.tokens.len(),
{
    lemma_follows_itself(state);
    if !(state.cur() is Eof) {
        let first = parse_statement(state);
        let next = first.state.advance();
        lemma_statement_follows(state);
        lemma_steps_follow(first.state, Seq::empty(), TokenView::Eof);
        lemma_follows_chain(next, first.state, state);
        if next.tokens.len() < state.tokens.len() {
            lemma_program_follows(next);
            lemma_follows_chain(parse_program(next).state, next, state);
        }
    }
}

/// Parsing a statement only moves forward.
pub proof fn lemma_statement_follows(state: ParserView)
    ensures
        parse_statement(state).state.follows(state),
    decreases state.tokens.len(), 11nat,
{
    match state.cur() {
        TokenView::Let => lemma_let_statement_follows(state),
        TokenView::Return => lemma_return_statement_follows(state),
        _ => lemma_expression_statement_follows(state),
    }
}

/// Parsing a `let` statement only moves forward.
pub proof fn lemma_let_statement_follows(state: ParserView)
    ensures
        parse_let_statement(state).state.follows(state),
    decreases state.tokens.len(), 10nat,
{
    lemma_steps_follow(state, identifier_expected_message(state.peek()), TokenView::Eof);
    if state.peek() is Ident {
        let at_name = state.advance();
        let assign = expect_peek(at_name, TokenView::Assign);
        lemma_steps_follow(at_name, Seq::empty(), TokenView::Assign);
        lemma_follows_chain(assign.state, at_name, state);
        if assign.value {
            let at_value = assign.state.advance();
            lemma_steps_follow(assign.state, Seq::empty(), TokenView::Eof);
            lemma_follows_chain(at_value, assign.state, state);
            let value = parse_expression(at_value, Precedence::Lowest);
            lemma_expression_follows(at_value, Precedence::Lowest);
            lemma_follows_chain(value.state, at_value, state);
            lemma_steps_follow(value.state, Seq::empty(), TokenView::Eof);
            lemma_follows_chain(value.state.past_semicolon(), value.state, state);
        }
    }
}

/// Parsing a `return` statement only moves forward.
pub proof fn lemma_return_statement_follows(state: ParserView)
    ensures
        parse_return_statement(state).state.follows(state),
    decreases state.tokens.len(), 10nat,
{
    lemma_steps_follow(state, Seq::empty(), TokenView::Eof);
    let value = parse_expression(state.advance(), Precedence::Lowest);
    lemma_expression_follows(state.advance(), Precedence::Lowest);
    lemma_follows_chain(value.state, state.advance(), state);
    lemma_steps_follow(value.state, Seq::empty(), TokenView::Eof);
    lemma_follows_chain(value.state.past_semicolon(), value.state, state);
}

/// Parsing an expression statement only moves forward.
pub proof fn lemma_expression_statement_follows(state: ParserView)
    ensures
        parse_expression_statement(state).state.follows(state),
    decreases state.tokens.len(), 10nat,
{
    let expression = parse_expression(state, Precedence::Lowest);
    lemma_expression_follows(state, Precedence::Lowest);
    lemma_steps_follow(expression.state, Seq::empty(), TokenView::Eof);
    lemma_follows_chain(expression.state.past_semicolon(), expression.state, state);
}

/// Parsing an expression only moves forward.
pub proof fn lemma_expression_follows(state: ParserView, precedence: Precedence)
    ensures
        parse_expression(state, precedence).state.follows(state),
    decreases state.tokens.len(),
        (if state.tokens.len() == 0 {
            1nat
        } else {
            9nat
        }),
{
    lemma_steps_follow(state, no_prefix_message(state.cur()), TokenView::Eof);
    if starts_expression(state.cur()) {
        let start = parse_prefix(state, state.cur());
        lemma_prefix_follows(state, state.cur());
        match start.value {
            Some(left) => {
                lemma_infix_chain_follows(start.state, left, precedence);
                lemma_follows_chain(
                    parse_infix_chain(start.state, left, precedence).state,
                    start.state,
                    state,
                );
            },
            None => {},
        }
    }
}

/// Extending an expression to the right only moves forward.
pub proof fn lemma_infix_chain_follows(
    state: ParserView,
    left: ExpressionView,
    precedence: Precedence,
)
    ensures
        parse_infix_chain(state, left, precedence).state.follows(state),
    decreases state.tokens.len(),
        (if state.tokens.len() == 0 {
            0nat
        } else {
            8nat
        }),
{
    lemma_follows_itself(state);
    if !(state.peek() is Semicolon) && precedence.rank() < precedence_of(state.peek()).rank() {
        let at_operator = state.advance();
        lemma_steps_follow(state, Seq::empty(), TokenView::Eof);
        let extended = parse_infix(at_operator, state.peek(), left);
        lemma_infix_follows(at_operator, state.peek(), left);
        lemma_follows_chain(extended.state, at_operator, state);
        match extended.value {
            Some(expression) => {
                lemma_infix_chain_follows(extended.state, expression, precedence);
                lemma_follows_chain(
                    parse_infix_chain(extended.state, expression, precedence).state,
                    extended.state,
                    state,
                );
            },
            None => {},
        }
    }
}

/// Parsing the start of an expression only moves forward.
pub proof fn lemma_prefix_follows(state: ParserView, token: TokenView)
    ensures
        parse_prefix(state, token).state.follows(state),
    decreases state.tokens.len(),
        (if opens_compound(token) {
            8nat
        } else {
            0nat
        }),
{
    lemma_follows_itself(state);
    lemma_steps_follow(state, integer_message(state.cur().literal()), TokenView::Eof);
    match token {
        TokenView::Bang => lemma_prefix_expression_follows(state),
        TokenView::Minus => lemma_prefix_expression_follows(state),
        TokenView::If => lemma_if_expression_follows(state),
        TokenView::Function => lemma_function_literal_follows(state),
        TokenView::Lparen => lemma_grouped_expression_follows(state),
        _ => {},
    }
}

/// Parsing the continuation of an expression only moves forward.
pub proof fn lemma_infix_follows(state: ParserView, token: TokenView, left: ExpressionView)
    ensures
        parse_infix(state, token, left).state.follows(state),
    decreases state.tokens.len(), 6nat,
{
    lemma_follows_itself(state);
    match token {
        TokenView::Plus => lemma_infix_expression_follows(state, left),
        TokenView::Minus => lemma_infix_expression_follows(state, left),
        TokenView::Slash => lemma_infix_expression_follows(state, left),
        TokenView::Asterisk => lemma_infix_expression_follows(state, left),
        TokenView::Eq => lemma_infix_expression_follows(state, left),
        TokenView::NotEq => lemma_infix_expression_follows(state, left),
        TokenView::Lt => lemma_infix_expression_follows(state, left),
        TokenView::Gt => lemma_infix_expression_follows(state, left),
        TokenView::Lparen => lemma_call_expression_follows(state, left),
        _ => {},
    }
}

/// Parsing a prefix operator and its operand only moves forward.
pub proof fn lemma_prefix_expression_follows(state: ParserView)
    ensures
        parse_prefix_expression(state).state.follows(state),
    decreases state.tokens.len(), 7nat,
{
    lemma_steps_follow(state, Seq::empty(), TokenView::Eof);
    lemma_expression_follows(state.advance(), Precedence::Prefix);
    lemma_follows_chain(
        parse_expression(state.advance(), Precedence::Prefix).state,
        state.advance(),
        state,
    );
}

/// Parsing a binary operator and its right operand only moves forward.
pub proof fn lemma_infix_expression_follows(state: ParserView, left: ExpressionView)
    ensures
        parse_infix_expression(state, left).state.follows(state),
    decreases state.tokens.len(), 5nat,
{
    lemma_steps_follow(state, Seq::empty(), TokenView::Eof);
    lemma_expression_follows(state.advance(), precedence_of(state.cur()));
    lemma_follows_chain(
        parse_expression(state.advance(), precedence_of(state.cur())).state,
        state.advance(),
        state,
    );
}

/// Parsing an expression in parentheses only moves forward.
pub proof fn lemma_grouped_expression_follows(state: ParserView)
    ensures
        parse_grouped_expression(state).state.follows(state),
    decreases state.tokens.len(), 7nat,
{
    lemma_steps_follow(state, Seq::empty(), TokenView::Eof);
    let inner = parse_expression(state.advance(), Precedence::Lowest);
    lemma_expression_follows(state.advance(), Precedence::Lowest);
    lemma_follows_chain(inner.state, state.advance(), state);
    lemma_steps_follow(inner.state, Seq::empty(), TokenView::Rparen);
    lemma_follows_chain(expect_peek(inner.state, TokenView::Rparen).state, inner.state, state);
}

/// Parsing an `if` expression only moves forward.
pub proof fn lemma_if_expression_follows(state: ParserView)
    ensures
        parse_if_expression(state).state.follows(state),
    decreases state.tokens.len(), 7nat,
{
    let opening = expect_peek(state, TokenView::Lparen);
    lemma_steps_follow(state, Seq::empty(), TokenView::Lparen);
    if opening.value {
        let at_condition = opening.state.advance();
        lemma_steps_follow(opening.state, Seq::empty(), TokenView::Eof);
        lemma_follows_chain(at_condition, opening.state, state);
        let condition = parse_expression(at_condition, Precedence::Lowest);
        lemma_expression_follows(at_condition, Precedence::Lowest);
        lemma_follows_chain(condition.state, at_condition, state);
        if condition.value is Some {
            let closing = expect_peek(condition.state, TokenView::Rparen);
            lemma_steps_follow(condition.state, Seq::empty(), TokenView::Rparen);
            lemma_follows_chain(closing.state, condition.state, state);
            let brace = expect_peek(closing.state, TokenView::Lbrace);
            lemma_steps_follow(closing.state, Seq::empty(), TokenView::Lbrace);
            lemma_follows_chain(brace.state, closing.state, state);
            if closing.value && brace.value {
                lemma_if_blocks_follow(brace.state, condition.value->0);
                lemma_follows_chain(
                    parse_if_blocks(brace.state, condition.value->0).state,
                    brace.state,
                    state,
                );
            }
        }
    }
}

/// Parsing the blocks of an `if` expression only moves forward.
pub proof fn lemma_if_blocks_follow(state: ParserView, condition: ExpressionView)
    ensures
        parse_if_blocks(state, condition).state.follows(state),
    decreases state.tokens.len(), 3nat,
{
    let consequence = parse_block_statement(state);
    lemma_block_statement_follows(state);
    if consequence.value is Some && consequence.state.peek() is Else {
        let at_else = consequence.state.advance();
        lemma_steps_follow(consequence.state, Seq::empty(), TokenView::Eof);
        lemma_follows_chain(at_else, consequence.state, state);
        let second_brace = expect_peek(at_else, TokenView::Lbrace);
        lemma_steps_follow(at_else, Seq::empty(), TokenView::Lbrace);
        lemma_follows_chain(second_brace.state, at_else, state);
        if second_brace.value {
            lemma_block_statement_follows(second_brace.state);
            lemma_follows_chain(
                parse_block_statement(second_brace.state).state,
                second_brace.state,
                state,
            );
        }
    }
}

/// Parsing a block only moves forward.
pub proof fn lemma_block_statement_follows(state: ParserView)
    ensures
        parse_block_statement(state).state.follows(state),
    decreases state.tokens.len(), 2nat,
{
    let statements = parse_block_statements(state.advance());
    lemma_steps_follow(state, Seq::empty(), TokenView::Eof);
    lemma_block_statements_follow(state.advance());
    lemma_follows_chain(statements.state, state.advance(), state);
    let message = unexpected_token_message(TokenView::Rbrace, statements.state.cur());
    lemma_steps_follow(statements.state, message, TokenView::Eof);
    lemma_follows_chain(statements.state.with_error(message), statements.state, state);
}

/// Parsing the statements of a block only moves forward.
pub proof fn lemma_block_statements_follow(state: ParserView)
    ensures
        parse_block_statements(state).state.follows(state),
    decreases state.tokens.len(),
        (if state.tokens.len() == 0 {
            0nat
        } else {
            12nat
        }),
{
    lemma_follows_itself(state);
    if !(state.cur() is Rbrace || state.cur() is Eof) {
        let first = parse_statement(state);
        let next = first.state.advance();
        lemma_statement_follows(state);
        lemma_steps_follow(first.state, Seq::empty(), TokenView::Eof);
        lemma_follows_chain(next, first.state, state);
        if next.tokens.len() < state.tokens.len() {
            lemma_block_statements_follow(next);
            lemma_follows_chain(parse_block_statements(next).state, next, state);
        }
    }
}

/// Parsing a function literal only moves forward.
pub proof fn lemma_function_literal_follows(state: ParserView)
    ensures
        parse_function_literal(state).state.follows(state),
    decreases state.tokens.len(), 7nat,
{
    let opening = expect_peek(state, TokenView::Lparen);
    lemma_steps_follow(state, Seq::empty(), TokenView::Lparen);
    if opening.value {
        let parameters = parse_function_parameters(opening.state);
        lemma_function_parameters_follow(opening.state);
        lemma_follows_chain(parameters.state, opening.state, state);
        if parameters.value is Some {
            let brace = expect_peek(parameters.state, TokenView::Lbrace);
            lemma_steps_follow(parameters.state, Seq::empty(), TokenView::Lbrace);
            lemma_follows_chain(brace.state, parameters.state, state);
            if brace.value {
                lemma_block_statement_follows(brace.state);
                lemma_follows_chain(parse_block_statement(brace.state).state, brace.state, state);
            }
        }
    }
}

/// Parsing the parameters of a function only moves forward.
pub proof fn lemma_function_parameters_follow(state: ParserView)
    ensures
        parse_function_parameters(state).state.follows(state),
{
    lemma_steps_follow(state, identifier_expected_message(state.peek()), TokenView::Eof);
    if !(state.peek() is Rparen) && state.peek() is Ident {
        let first = seq![identifier_at(state.advance())];
        lemma_more_parameters_follow(state.advance(), first);
        lemma_follows_chain(
            parse_more_parameters(state.advance(), first).state,
            state.advance(),
            state,
        );
    }
}

/// Parsing further parameters only moves forward.
pub proof fn lemma_more_parameters_follow(state: ParserView, parameters: Seq<IdentifierView>)
    ensures
        parse_more_parameters(state, parameters).state.follows(state),
    decreases state.tokens.len(),
{
    lemma_steps_follow(state, Seq::empty(), TokenView::Rparen);
    if state.peek() is Comma {
        let at_comma = state.advance();
        let message = identifier_expected_message(at_comma.peek());
        lemma_steps_follow(at_comma, message, TokenView::Eof);
        lemma_follows_chain(at_comma.with_error(message), at_comma, state);
        if at_comma.peek() is Ident {
            let at_name = at_comma.advance();
            let more = parameters.push(identifier_at(at_name));
            lemma_follows_chain(at_name, at_comma, state);
            lemma_more_parameters_follow(at_name, more);
            lemma_follows_chain(parse_more_parameters(at_name, more).state, at_name, state);
        }
    }
}

/// Parsing a call only moves forward.
pub proof fn lemma_call_expression_follows(state: ParserView, function: ExpressionView)
    ensures
        parse_call_expression(state, function).state.follows(state),
    decreases state.tokens.len(), 5nat,
{
    lemma_call_arguments_follow(state);
}

/// Parsing the arguments of a call only moves forward.
pub proof fn lemma_call_arguments_follow(state: ParserView)
    ensures
        parse_call_arguments(state).state.follows(state),
    decreases state.tokens.len(), 4nat,
{
    lemma_steps_follow(state, Seq::empty(), TokenView::Eof);
    if !(state.peek() is Rparen) {
        let first = parse_expression(state.advance(), Precedence::Lowest);
        lemma_expression_follows(state.advance(), Precedence::Lowest);
        lemma_follows_chain(first.state, state.advance(), state);
        match first.value {
            Some(argument) => {
                lemma_more_arguments_follow(first.state, seq![argument]);
                lemma_follows_chain(
                    parse_more_arguments(first.state, seq![argument]).state,
                    first.state,
                    state,
                );
            },
            None => {},
        }
    }
}

/// Parsing further arguments only moves forward.
pub proof fn lemma_more_arguments_follow(state: ParserView, arguments: Seq<ExpressionView>)
    ensures
        parse_more_arguments(state, arguments).state.follows(state),
    decreases state.tokens.len(), 3nat,
{
    lemma_steps_follow(state, Seq::empty(), TokenView::Rparen);
    if state.peek() is Comma {
        let at_argument = state.advance().advance();
        let next = parse_expression(at_argument, Precedence::Lowest);
        lemma_expression_follows(at_argument, Precedence::Lowest);
        lemma_follows_chain(next.state, at_argument, state);
        match next.value {
            Some(argument) => {
                let more = arguments.push(argument);
                lemma_more_arguments_follow(next.state, more);
                lemma_follows_chain(
                    parse_more_arguments(next.state, more).state,
                    next.state,
                    state,
                );
            },
            None => {},
        }
    }
}

} // verus!
