//! Programs that are `let` statements throughout: the parser yields one
//! statement for each, in their order, and no error.

use vstd::prelude::*;
use crate::ast::{ExpressionView, StatementView};
use crate::grammar::{
    expect_peek, identifier_at, parse_expression, parse_let_statement, parse_program,
    parse_statement, prepend, start_on, Parsed, ParserView,
};
use crate::lexer::{lemma_token_stream_is_proper, proper_token, proper_tokens};
use crate::parser::Precedence;
use crate::progress::{
    lemma_expression_follows, lemma_follows_chain, lemma_stays_proper, lemma_steps_follow,
};
use crate::token::TokenView;

verus! {

/// The parse of the value of a `let` statement that stands at the front of
/// `state`: of what follows its first three tokens.
pub open spec fn let_value(state: ParserView) -> Parsed<Option<ExpressionView>> {
    parse_expression(state.advance().advance().advance(), Precedence::Lowest)
}

/// Whether a valid `let` statement stands at the front of `state`: `let`,
/// a name, `=`, an expression that is parsed without an error, and a
/// semicolon behind it.
pub open spec fn let_statement_at(state: ParserView) -> bool {
    &&& state.cur() is Let
    &&& state.peek() is Ident
    &&& state.advance().peek() is Assign
    &&& let_value(state).value is Some
    &&& let_value(state).state.errors == state.errors
    &&& let_value(state).state.peek() is Semicolon
}

/// The state behind the `let` statement at the front of `state`, semicolon
/// included.
pub open spec fn behind_let_statement(state: ParserView) -> ParserView {
    let_value(state).state.advance().advance()
}

/// Whether `state` holds `count` valid `let` statements and nothing else.
pub open spec fn let_statements(state: ParserView, count: nat) -> bool
    decreases count,
{
    if count == 0 {
        state.cur() is Eof
    } else {
        let_statement_at(state) && let_statements(
            behind_let_statement(state),
            (count - 1) as nat,
        )
    }
}

/// The names that the `count` `let` statements of `state` bind, in their
/// order.
pub open spec fn let_names(state: ParserView, count: nat) -> Seq<Seq<char>>
    decreases count,
{
    if count == 0 {
        Seq::empty()
    } else {
        seq![state.peek().literal()] + let_names(
            behind_let_statement(state),
            (count - 1) as nat,
        )
    }
}

/// Whether `statement` is a `let` statement that binds `name` to a value
/// that is present.
pub open spec fn binds(statement: StatementView, name: Seq<char>) -> bool {
    match statement {
        StatementView::Let { token, name: Some(bound), value: Some(_) } => bound.value == name
            && bound.token is Ident,
        _ => false,
    }
}

/// A valid `let` statement is parsed into a statement that binds its name
/// to its value, without an error, up to its semicolon.
pub proof fn lemma_let_statement(state: ParserView)
    requires
        let_statement_at(state),
    ensures
        parse_let_statement(state).state == let_value(state).state.advance(),
        parse_let_statement(state).state.errors == state.errors,
        parse_let_statement(state).value == Some(
            StatementView::Let {
                token: TokenView::Let,
                name: Some(identifier_at(state.advance())),
                value: let_value(state).value,
            },
        ),
        binds(parse_let_statement(state).value->0, state.peek().literal()),
{
    let at_name = state.advance();
    assert(at_name.cur() == state.peek());
    assert(expect_peek(at_name, TokenView::Assign).value);
}

/// A program of `count` valid `let` statements is parsed into `count`
/// statements, the statement at each place binding the name of the `let`
/// at that place to a value that is present, and no error is recorded.
pub proof fn lemma_let_statements(state: ParserView, count: nat)
    requires
        let_statements(state, count),
    ensures
        parse_program(state).value.len() == count,
        parse_program(state).state.errors == state.errors,
        let_names(state, count).len() == count,
        forall|i: int|
            0 <= i < count ==> binds(
                #[trigger] parse_program(state).value[i],
                let_names(state, count)[i],
            ),
    decreases count,
{
    if count > 0 {
        lemma_let_statement(state);
        let first = parse_statement(state);
        let next = first.state.advance();
        assert(next == behind_let_statement(state));
        assert(next.tokens.len() < state.tokens.len()) by {
            let at_value = state.advance().advance().advance();
            lemma_expression_follows(at_value, Precedence::Lowest);
        }
        lemma_let_statements(next, (count - 1) as nat);
        let rest = parse_program(next);
        let all = parse_program(state);
        assert(all.value == prepend(first.value, rest.value));
        let names = let_names(state, count);
        let later = let_names(next, (count - 1) as nat);
        assert forall|i: int| 0 <= i < count implies binds(#[trigger] all.value[i], names[i]) by {
            if i > 0 {
                assert(all.value[i] == rest.value[i - 1]);
                assert(names[i] == later[i - 1]);
            }
        }
    }
}

/// The names that valid `let` statements bind are not empty when the
/// tokens come from a tokenizer.
pub proof fn lemma_let_names_are_not_empty(state: ParserView, count: nat)
    requires
        let_statements(state, count),
        proper_tokens(state.tokens),
    ensures
        let_names(state, count).len() == count,
        forall|i: int| 0 <= i < count ==> (#[trigger] let_names(state, count)[i]).len() > 0,
    decreases count,
{
    if count > 0 {
        let next = behind_let_statement(state);
        let at_value = state.advance().advance().advance();
        let value = let_value(state);
        lemma_steps_follow(state, Seq::empty(), TokenView::Eof);
        lemma_steps_follow(state.advance().advance(), Seq::empty(), TokenView::Eof);
        lemma_follows_chain(at_value, state.advance().advance(), state);
        lemma_expression_follows(at_value, Precedence::Lowest);
        lemma_follows_chain(value.state, at_value, state);
        lemma_steps_follow(value.state, Seq::empty(), TokenView::Eof);
        lemma_follows_chain(next, value.state, state);
        lemma_stays_proper(state, next);
        lemma_let_names_are_not_empty(next, (count - 1) as nat);
        let names = let_names(state, count);
        let later = let_names(next, (count - 1) as nat);
        assert(proper_token(state.tokens[1]));
        assert forall|i: int| 0 <= i < count implies (#[trigger] names[i]).len() > 0 by {
            if i > 0 {
                assert(names[i] == later[i - 1]);
            }
        }
    }
}

/// A text that is `count` valid `let` statements and nothing else is
/// parsed into `count` statements, one for each `let` and in their order:
/// each binds the name of its `let`, which is not empty, to a value that is
/// present. No error is recorded.
pub proof fn lemma_let_program(input: Seq<char>, count: nat)
    requires
        let_statements(start_on(input), count),
    ensures
        parse_program(start_on(input)).value.len() == count,
        parse_program(start_on(input)).state.errors.len() == 0,
        let_names(start_on(input), count).len() == count,
        forall|i: int|
            0 <= i < count ==> binds(
                #[trigger] parse_program(start_on(input)).value[i],
                let_names(start_on(input), count)[i],
            ) && let_names(start_on(input), count)[i].len() > 0,
{
    lemma_token_stream_is_proper(input, 0);
    lemma_let_statements(start_on(input), count);
    lemma_let_names_are_not_empty(start_on(input), count);
}

} // verus!
