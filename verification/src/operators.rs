//! How operators group their operands: what the grammar makes of the
//! shortest expressions with one and with two operators.

use vstd::prelude::*;
use crate::ast::{render_expression, ExpressionView};
use crate::grammar::{
    expect_peek, parse_call_arguments, parse_call_expression, parse_expression, parse_infix,
    parse_infix_chain, parse_infix_expression, parse_more_arguments, parse_prefix,
    parse_prefix_expression, precedence_of, Parsed, ParserView,
};
use crate::parser::Precedence;
use crate::text::literal_value;
use crate::token::TokenView;

verus! {

/// The expression that a single token is: a name, a number that fits in 32
/// bits, or a boolean. Any other token is no expression by itself.
pub open spec fn atom(token: TokenView) -> Option<ExpressionView> {
    match token {
        TokenView::Ident(text) => Some(ExpressionView::Identifier { token, value: text }),
        TokenView::Int(text) => match literal_value(text) {
            Some(value) => Some(ExpressionView::IntegerLiteral { token, value }),
            None => None,
        },
        TokenView::True => Some(ExpressionView::Boolean { token, value: true }),
        TokenView::False => Some(ExpressionView::Boolean { token, value: false }),
        _ => None,
    }
}

/// Whether `token` is one of the eight binary operators.
pub open spec fn is_binary_operator(token: TokenView) -> bool {
    token is Plus || token is Minus || token is Slash || token is Asterisk || token is Eq
        || token is NotEq || token is Lt || token is Gt
}

/// Whether `token` is one of the two prefix operators.
pub open spec fn is_prefix_operator(token: TokenView) -> bool {
    token is Bang || token is Minus
}

/// Whether an expression ends in front of `token`: it is no binary
/// operator and opens no argument list.
pub open spec fn ends_expression(token: TokenView) -> bool {
    precedence_of(token) == Precedence::Lowest
}

/// The application of the binary operator `operator` to two operands.
pub open spec fn binary(left: ExpressionView, operator: TokenView, right: ExpressionView)
    -> ExpressionView {
    ExpressionView::Infix {
        token: operator,
        left: Box::new(left),
        operator: operator.literal(),
        right: Box::new(right),
    }
}

/// The application of the prefix operator `operator` to its operand.
pub open spec fn unary(operator: TokenView, right: ExpressionView) -> ExpressionView {
    ExpressionView::Prefix { token: operator, operator: operator.literal(), right: Box::new(right) }
}

/// An expression is not extended in front of a semicolon, nor by an
/// operator that binds no tighter than `precedence`.
pub proof fn lemma_chain_stops(state: ParserView, left: ExpressionView, precedence: Precedence)
    requires
        state.peek() is Semicolon || precedence_of(state.peek()).rank() <= precedence.rank(),
    ensures
        parse_infix_chain(state, left, precedence) == (Parsed { state, value: Some(left) }),
{
}

/// An expression is extended by an operator that binds tighter than
/// `precedence`, and what results is extended further in the same way.
pub proof fn lemma_chain_goes_on(
    state: ParserView,
    left: ExpressionView,
    precedence: Precedence,
    extended: ExpressionView,
    after: ParserView,
)
    requires
        !(state.peek() is Semicolon),
        precedence.rank() < precedence_of(state.peek()).rank(),
        parse_infix(state.advance(), state.peek(), left) == (Parsed {
            state: after,
            value: Some(extended),
        }),
        after.no_longer_than(state.advance()),
    ensures
        parse_infix_chain(state, left, precedence) == parse_infix_chain(
            after,
            extended,
            precedence,
        ),
{
}

/// A single token that is an expression by itself is parsed as that
/// expression, whatever follows it, when no operator that binds tighter
/// than `precedence` does.
pub proof fn lemma_atom_alone(state: ParserView, precedence: Precedence)
    requires
        atom(state.cur()) is Some,
        state.peek() is Semicolon || precedence_of(state.peek()).rank() <= precedence.rank(),
    ensures
        parse_expression(state, precedence) == (Parsed { state, value: atom(state.cur()) }),
{
    lemma_chain_stops(state, atom(state.cur())->0, precedence);
}

/// A prefix operator in front of a single-token operand is applied to it:
/// `!5` is `(!5)`.
///
/// The operand is followed by the end of the tokens or by a token in front
/// of which an expression ends.
pub proof fn lemma_prefix_operator(state: ParserView)
    requires
        state.tokens.len() >= 2,
        is_prefix_operator(state.tokens[0]),
        atom(state.tokens[1]) is Some,
        state.tokens.len() == 2 || ends_expression(state.tokens[2]),
    ensures
        parse_expression(state, Precedence::Lowest) == (Parsed {
            state: state.advance(),
            value: Some(unary(state.tokens[0], atom(state.tokens[1])->0)),
        }),
        render_expression(unary(state.tokens[0], atom(state.tokens[1])->0)) == "("@
            + state.tokens[0].literal() + render_expression(atom(state.tokens[1])->0) + ")"@,
{
    let at_operand = state.advance();
    assert(at_operand.cur() == state.tokens[1]);
    assert(at_operand.peek() == if state.tokens.len() == 2 {
        TokenView::Eof
    } else {
        state.tokens[2]
    });
    lemma_atom_alone(at_operand, Precedence::Prefix);
    let whole = unary(state.tokens[0], atom(state.tokens[1])->0);
    assert(parse_prefix_expression(state) == (Parsed { state: at_operand, value: Some(whole) }));
    assert(parse_prefix(state, state.cur()) == parse_prefix_expression(state));
    lemma_chain_stops(at_operand, whole, Precedence::Lowest);
}

/// A binary operator, being the current token, takes the operand that is
/// handed to it as its left operand, whatever that is, and the
/// single-token operand behind it as its right one.
///
/// The right operand is followed by the end of the tokens or by a token in
/// front of which an expression ends.
pub proof fn lemma_infix_expression(state: ParserView, left: ExpressionView)
    requires
        state.tokens.len() >= 2,
        is_binary_operator(state.tokens[0]),
        atom(state.tokens[1]) is Some,
        state.tokens.len() == 2 || ends_expression(state.tokens[2]),
    ensures
        parse_infix_expression(state, left) == (Parsed {
            state: state.advance(),
            value: Some(binary(left, state.tokens[0], atom(state.tokens[1])->0)),
        }),
        render_expression(binary(left, state.tokens[0], atom(state.tokens[1])->0)) == "("@
            + render_expression(left) + " "@ + state.tokens[0].literal() + " "@
            + render_expression(atom(state.tokens[1])->0) + ")"@,
{
    let at_right = state.advance();
    assert(at_right.cur() == state.tokens[1]);
    assert(at_right.peek() == if state.tokens.len() == 2 {
        TokenView::Eof
    } else {
        state.tokens[2]
    });
    lemma_atom_alone(at_right, precedence_of(state.tokens[0]));
}

/// A binary operator between two single-token operands is applied to
/// them: `5 + 5` is `(5 + 5)`.
///
/// The right operand is followed by the end of the tokens or by a token in
/// front of which an expression ends.
pub proof fn lemma_binary_operator(state: ParserView)
    requires
        state.tokens.len() >= 3,
        atom(state.tokens[0]) is Some,
        is_binary_operator(state.tokens[1]),
        atom(state.tokens[2]) is Some,
        state.tokens.len() == 3 || ends_expression(state.tokens[3]),
    ensures
        parse_expression(state, Precedence::Lowest) == (Parsed {
            state: state.advance().advance(),
            value: Some(
                binary(atom(state.tokens[0])->0, state.tokens[1], atom(state.tokens[2])->0),
            ),
        }),
        render_expression(
            binary(atom(state.tokens[0])->0, state.tokens[1], atom(state.tokens[2])->0),
        ) == "("@ + render_expression(atom(state.tokens[0])->0) + " "@
            + state.tokens[1].literal() + " "@ + render_expression(atom(state.tokens[2])->0)
            + ")"@,
{
    let left = atom(state.tokens[0])->0;
    let operator = state.tokens[1];
    let right = atom(state.tokens[2])->0;
    let at_operator = state.advance();
    let at_right = at_operator.advance();
    assert(at_operator.cur() == operator);
    assert(at_right.cur() == state.tokens[2]);
    assert(at_right.peek() == if state.tokens.len() == 3 {
        TokenView::Eof
    } else {
        state.tokens[3]
    });
    lemma_atom_alone(at_right, precedence_of(operator));
    let whole = binary(left, operator, right);
    assert(parse_infix_expression(at_operator, left) == (Parsed {
        state: at_right,
        value: Some(whole),
    }));
    assert(parse_infix(at_operator, operator, left) == parse_infix_expression(at_operator, left));
    lemma_chain_goes_on(state, left, Precedence::Lowest, whole, at_right);
    lemma_chain_stops(at_right, whole, Precedence::Lowest);
    assert(parse_prefix(state, state.cur()) == (Parsed { state, value: Some(left) }));
}

/// Of two binary operators in a row, the first takes the operand between
/// them unless the second binds tighter. So operators of one precedence
/// group from the left, `a + b + c` being `((a + b) + c)`, and a tighter
/// operator groups first wherever it stands, `a + b * c` being
/// `(a + (b * c))` and `a * b + c` being `((a * b) + c)`.
///
/// The last operand is followed by the end of the tokens or by a token in
/// front of which an expression ends.
pub proof fn lemma_two_binary_operators(state: ParserView)
    requires
        state.tokens.len() >= 5,
        atom(state.tokens[0]) is Some,
        is_binary_operator(state.tokens[1]),
        atom(state.tokens[2]) is Some,
        is_binary_operator(state.tokens[3]),
        atom(state.tokens[4]) is Some,
        state.tokens.len() == 5 || ends_expression(state.tokens[5]),
    ensures
        parse_expression(state, Precedence::Lowest).state
            == state.advance().advance().advance().advance(),
        precedence_of(state.tokens[1]).rank() >= precedence_of(state.tokens[3]).rank()
            ==> parse_expression(state, Precedence::Lowest).value == Some(
            binary(
                binary(atom(state.tokens[0])->0, state.tokens[1], atom(state.tokens[2])->0),
                state.tokens[3],
                atom(state.tokens[4])->0,
            ),
        ),
        precedence_of(state.tokens[1]).rank() < precedence_of(state.tokens[3]).rank()
            ==> parse_expression(state, Precedence::Lowest).value == Some(
            binary(
                atom(state.tokens[0])->0,
                state.tokens[1],
                binary(atom(state.tokens[2])->0, state.tokens[3], atom(state.tokens[4])->0),
            ),
        ),
{
    let first = atom(state.tokens[0])->0;
    let second = atom(state.tokens[2])->0;
    let third = atom(state.tokens[4])->0;
    let early = state.tokens[1];
    let late = state.tokens[3];
    let at_early = state.advance();
    let at_second = at_early.advance();
    let at_late = at_second.advance();
    let at_third = at_late.advance();
    assert(at_early.cur() == early);
    assert(at_second.cur() == state.tokens[2] && at_second.peek() == late);
    assert(at_late.cur() == late);
    assert(at_third.cur() == state.tokens[4]);
    assert(at_third.peek() == if state.tokens.len() == 5 {
        TokenView::Eof
    } else {
        state.tokens[5]
    });
    assert(parse_prefix(state, state.cur()) == (Parsed { state, value: Some(first) }));
    assert(parse_infix(at_early, early, first) == parse_infix_expression(at_early, first));
    // The right operand of the later operator is the last token alone.
    lemma_atom_alone(at_third, precedence_of(late));
    if precedence_of(early).rank() >= precedence_of(late).rank() {
        // The earlier operator ends in front of the later one.
        lemma_atom_alone(at_second, precedence_of(early));
        let inner = binary(first, early, second);
        assert(parse_infix_expression(at_early, first) == (Parsed {
            state: at_second,
            value: Some(inner),
        }));
        lemma_chain_goes_on(state, first, Precedence::Lowest, inner, at_second);
        let whole = binary(inner, late, third);
        assert(parse_infix_expression(at_late, inner) == (Parsed {
            state: at_third,
            value: Some(whole),
        }));
        assert(parse_infix(at_late, late, inner) == parse_infix_expression(at_late, inner));
        lemma_chain_goes_on(at_second, inner, Precedence::Lowest, whole, at_third);
        lemma_chain_stops(at_third, whole, Precedence::Lowest);
    } else {
        // The later operator takes the middle operand first.
        let inner = binary(second, late, third);
        assert(parse_infix_expression(at_late, second) == (Parsed {
            state: at_third,
            value: Some(inner),
        }));
        assert(parse_infix(at_late, late, second) == parse_infix_expression(at_late, second));
        lemma_chain_goes_on(at_second, second, precedence_of(early), inner, at_third);
        lemma_chain_stops(at_third, inner, precedence_of(early));
        assert(parse_prefix(at_second, at_second.cur()) == (Parsed {
            state: at_second,
            value: Some(second),
        }));
        assert(parse_expression(at_second, precedence_of(early)) == (Parsed {
            state: at_third,
            value: Some(inner),
        }));
        let whole = binary(first, early, inner);
        assert(parse_infix_expression(at_early, first) == (Parsed {
            state: at_third,
            value: Some(whole),
        }));
        lemma_chain_goes_on(state, first, Precedence::Lowest, whole, at_third);
        lemma_chain_stops(at_third, whole, Precedence::Lowest);
    }
}

/// The call of `function` on one argument, with the closing parenthesis
/// as its token.
pub open spec fn call_on(function: ExpressionView, argument: ExpressionView) -> ExpressionView {
    ExpressionView::Call {
        token: TokenView::Rparen,
        function: Box::new(function),
        arguments: seq![argument],
    }
}

/// A single-token function in front of a single-token argument in
/// parentheses is parsed as the call of the one on the other, whatever
/// precedence is asked for.
///
/// The closing parenthesis is followed by the end of the tokens or by a
/// token in front of which an expression ends.
pub proof fn lemma_call(state: ParserView, precedence: Precedence)
    requires
        state.tokens.len() >= 4,
        atom(state.tokens[0]) is Some,
        state.tokens[1] is Lparen,
        atom(state.tokens[2]) is Some,
        state.tokens[3] is Rparen,
        state.tokens.len() == 4 || ends_expression(state.tokens[4]),
        precedence.rank() < Precedence::Call.rank(),
    ensures
        parse_expression(state, precedence) == (Parsed {
            state: state.advance().advance().advance(),
            value: Some(call_on(atom(state.tokens[0])->0, atom(state.tokens[2])->0)),
        }),
{
    let function = atom(state.tokens[0])->0;
    let argument = atom(state.tokens[2])->0;
    let at_opening = state.advance();
    let at_argument = at_opening.advance();
    let at_closing = at_argument.advance();
    assert(at_opening.cur() is Lparen);
    assert(at_argument.cur() == state.tokens[2] && at_argument.peek() is Rparen);
    assert(at_closing.cur() == TokenView::Rparen);
    assert(at_closing.peek() == if state.tokens.len() == 4 {
        TokenView::Eof
    } else {
        state.tokens[4]
    });
    lemma_atom_alone(at_argument, Precedence::Lowest);
    assert(expect_peek(at_argument, TokenView::Rparen) == (Parsed {
        state: at_closing,
        value: true,
    }));
    assert(parse_more_arguments(at_argument, seq![argument]) == (Parsed {
        state: at_closing,
        value: Some(seq![argument]),
    }));
    assert(parse_call_arguments(at_opening) == (Parsed {
        state: at_closing,
        value: Some(seq![argument]),
    }));
    let whole = call_on(function, argument);
    assert(parse_call_expression(at_opening, function) == (Parsed {
        state: at_closing,
        value: Some(whole),
    }));
    assert(parse_infix(at_opening, state.peek(), function) == parse_call_expression(
        at_opening,
        function,
    ));
    assert(parse_prefix(state, state.cur()) == (Parsed { state, value: Some(function) }));
    lemma_chain_goes_on(state, function, precedence, whole, at_closing);
    lemma_chain_stops(at_closing, whole, precedence);
}

/// A call binds tighter than any binary operator: in `a + f(x)` the
/// operator takes the call as its right operand.
///
/// The closing parenthesis is followed by the end of the tokens or by a
/// token in front of which an expression ends.
pub proof fn lemma_call_binds_tighter(state: ParserView)
    requires
        state.tokens.len() >= 6,
        atom(state.tokens[0]) is Some,
        is_binary_operator(state.tokens[1]),
        atom(state.tokens[2]) is Some,
        state.tokens[3] is Lparen,
        atom(state.tokens[4]) is Some,
        state.tokens[5] is Rparen,
        state.tokens.len() == 6 || ends_expression(state.tokens[6]),
    ensures
        parse_expression(state, Precedence::Lowest) == (Parsed {
            state: state.advance().advance().advance().advance().advance(),
            value: Some(
                binary(
                    atom(state.tokens[0])->0,
                    state.tokens[1],
                    call_on(atom(state.tokens[2])->0, atom(state.tokens[4])->0),
                ),
            ),
        }),
{
    let left = atom(state.tokens[0])->0;
    let operator = state.tokens[1];
    let call = call_on(atom(state.tokens[2])->0, atom(state.tokens[4])->0);
    let at_operator = state.advance();
    let at_function = at_operator.advance();
    let at_closing = at_function.advance().advance().advance();
    assert(at_operator.cur() == operator);
    assert(at_function.tokens == state.tokens.skip(2));
    lemma_call(at_function, precedence_of(operator));
    let whole = binary(left, operator, call);
    assert(parse_infix_expression(at_operator, left) == (Parsed {
        state: at_closing,
        value: Some(whole),
    }));
    assert(parse_infix(at_operator, operator, left) == parse_infix_expression(at_operator, left));
    assert(parse_prefix(state, state.cur()) == (Parsed { state, value: Some(left) }));
    assert(at_closing.tokens == state.tokens.skip(5));
    lemma_chain_goes_on(state, left, Precedence::Lowest, whole, at_closing);
    lemma_chain_stops(at_closing, whole, Precedence::Lowest);
}

} // verus!
