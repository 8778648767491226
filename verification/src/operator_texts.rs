//! How operators group their operands, said of source text: what the
//! shortest texts with one and with two operators are parsed into.

use vstd::prelude::*;
use crate::ast::{render_expression, render_program, ExpressionView, ProgramView};
use crate::grammar::{parse_expression, parse_program, precedence_of, start_on};
use crate::lexer::{lemma_eof_repeats, lemma_token_stream_unfolds, token_stream};
use crate::operators::{
    atom, binary, lemma_binary_operator, lemma_prefix_operator, lemma_two_binary_operators,
    unary,
};
use crate::parser::Precedence;
use crate::relex::{
    lemma_binary_operator_is_read, lemma_binary_operator_length, lemma_blank_is_passed,
    lemma_plain_is_read, lemma_plain_text_starts, lemma_prefix_operator_is_read,
};
use crate::round_trip::{
    binary_operator_of, lemma_lone_expression, lemma_operator_spellings, one_expression, plain,
    prefix_operator_of, reparsed, tokens_of,
};
use crate::text::{lemma_four_parts, lemma_literal_of_decimal};

verus! {

/// Whether `expression` is a plain expression of one token: a name, a
/// number or a boolean.
pub open spec fn atomic(expression: ExpressionView) -> bool {
    plain(expression) && (expression is Identifier || expression is IntegerLiteral
        || expression is Boolean)
}

/// An atomic expression is the one token of its text, and that token
/// alone is parsed into the expression as the parser builds it.
pub proof fn lemma_atomic(expression: ExpressionView)
    requires
        atomic(expression),
    ensures
        tokens_of(expression).len() == 1,
        atom(tokens_of(expression)[0]) == Some(reparsed(expression)),
        render_expression(reparsed(expression)) == render_expression(expression),
{
    match expression {
        ExpressionView::IntegerLiteral { token, value } => {
            lemma_literal_of_decimal(value);
        },
        _ => {},
    }
}

/// The text of a prefix operator in front of an atomic operand is read as
/// the two tokens of operator and operand.
pub proof fn lemma_prefix_text_is_read(operator: Seq<char>, operand: ExpressionView)
    requires
        prefix_operator_of(operator) is Some,
        atomic(operand),
    ensures
        start_on(operator + render_expression(operand)).tokens == seq![
            prefix_operator_of(operator)->0,
            tokens_of(operand)[0],
        ],
{
    let text = operator + render_expression(operand);
    lemma_plain_text_starts(operand);
    reveal_strlit("!");
    reveal_strlit("-");
    assert(operator.len() == 1);
    assert(text.subrange(0, 1) == operator);
    assert(text[1] == render_expression(operand)[0]);
    lemma_prefix_operator_is_read(text, 0, operator);
    assert(text.subrange(1, text.len() as int) == render_expression(operand));
    lemma_plain_is_read(text, 1, operand);
    lemma_eof_repeats(text);
    lemma_token_stream_unfolds(text, text.len() as int);
    lemma_atomic(operand);
    assert(tokens_of(operand) == seq![tokens_of(operand)[0]]);
}

/// A prefix operator in front of a name, a number or a boolean is applied
/// to it: the text `!5` is parsed, without an error, into the one
/// expression `(!5)`.
pub proof fn lemma_prefix_operator_text(operator: Seq<char>, operand: ExpressionView)
    requires
        prefix_operator_of(operator) is Some,
        atomic(operand),
    ensures
        parse_program(start_on(operator + render_expression(operand))).value == one_expression(
            prefix_operator_of(operator)->0,
            unary(prefix_operator_of(operator)->0, reparsed(operand)),
        ),
        parse_program(start_on(operator + render_expression(operand))).state.errors.len() == 0,
        render_program(
            ProgramView {
                statements: parse_program(
                    start_on(operator + render_expression(operand)),
                ).value,
            },
        ) == "("@ + operator + render_expression(operand) + ")"@,
{
    let start = start_on(operator + render_expression(operand));
    lemma_prefix_text_is_read(operator, operand);
    lemma_operator_spellings(operator);
    lemma_atomic(operand);
    lemma_prefix_operator(start);
    lemma_lone_expression(
        start,
        unary(prefix_operator_of(operator)->0, reparsed(operand)),
    );
}

/// A binary operator with a space on either side is read as that
/// operator.
pub proof fn lemma_spaced_operator_is_read(input: Seq<char>, at: int, operator: Seq<char>)
    requires
        0 <= at,
        binary_operator_of(operator) is Some,
        at + operator.len() + 2 <= input.len(),
        input.subrange(at, at + operator.len() + 2) == " "@ + operator + " "@,
    ensures
        token_stream(input, at) == seq![binary_operator_of(operator)->0] + token_stream(
            input,
            at + operator.len() + 2,
        ),
{
    reveal_strlit(" ");
    let spaced = input.subrange(at, at + operator.len() + 2);
    lemma_binary_operator_length(operator);
    assert(input[at] == ' ') by {
        assert(spaced[0] == ' ');
    }
    assert(input[at + 1 + operator.len() as int] == ' ') by {
        assert(spaced[1 + operator.len() as int] == ' ');
    }
    assert(input.subrange(at + 1, at + 1 + operator.len()) == operator) by {
        assert forall|i: int| 0 <= i < operator.len() implies input[at + 1 + i]
            == operator[i] by {
            assert(spaced[1 + i] == operator[i]);
        }
    }
    lemma_blank_is_passed(input, at);
    lemma_binary_operator_is_read(input, at + 1, operator);
    lemma_blank_is_passed(input, at + 1 + operator.len());
}

/// The text of two atomic operands with a binary operator between them
/// and a space on either side of it is read as the three tokens of
/// operands and operator.
pub proof fn lemma_binary_text_is_read(
    left: ExpressionView,
    operator: Seq<char>,
    right: ExpressionView,
)
    requires
        atomic(left),
        binary_operator_of(operator) is Some,
        atomic(right),
    ensures
        start_on(
            render_expression(left) + (" "@ + operator + " "@) + render_expression(right),
        ).tokens == seq![
            tokens_of(left)[0],
            binary_operator_of(operator)->0,
            tokens_of(right)[0],
        ],
{
    reveal_strlit(" ");
    let first = render_expression(left);
    let spaced = " "@ + operator + " "@;
    let second = render_expression(right);
    let text = first + spaced + second + Seq::<char>::empty();
    assert(text == first + spaced + second);
    lemma_four_parts(first, spaced, second, Seq::<char>::empty());
    let symbol_at = first.len() as int;
    let second_at = symbol_at + spaced.len();
    assert(text[symbol_at] == ' ') by {
        assert(text.subrange(symbol_at, second_at)[0] == ' ');
    }
    lemma_plain_is_read(text, 0, left);
    lemma_spaced_operator_is_read(text, symbol_at, operator);
    lemma_plain_is_read(text, second_at, right);
    lemma_eof_repeats(text);
    lemma_token_stream_unfolds(text, text.len() as int);
    lemma_atomic(left);
    lemma_atomic(right);
    assert(tokens_of(left) == seq![tokens_of(left)[0]]);
    assert(tokens_of(right) == seq![tokens_of(right)[0]]);
}

/// A binary operator between two names, numbers or booleans is applied to
/// them: the text `5 + 5` is parsed, without an error, into the one
/// expression `(5 + 5)`.
pub proof fn lemma_binary_operator_text(
    left: ExpressionView,
    operator: Seq<char>,
    right: ExpressionView,
)
    requires
        atomic(left),
        binary_operator_of(operator) is Some,
        atomic(right),
    ensures
        parse_program(
            start_on(
                render_expression(left) + (" "@ + operator + " "@) + render_expression(right),
            ),
        ).value == one_expression(
            tokens_of(left)[0],
            binary(reparsed(left), binary_operator_of(operator)->0, reparsed(right)),
        ),
        parse_program(
            start_on(
                render_expression(left) + (" "@ + operator + " "@) + render_expression(right),
            ),
        ).state.errors.len() == 0,
        render_program(
            ProgramView {
                statements: parse_program(
                    start_on(
                        render_expression(left) + (" "@ + operator + " "@) + render_expression(
                            right,
                        ),
                    ),
                ).value,
            },
        ) == "("@ + render_expression(left) + " "@ + operator + " "@ + render_expression(right)
            + ")"@,
{
    let text = render_expression(left) + (" "@ + operator + " "@) + render_expression(right);
    let start = start_on(text);
    let whole = binary(reparsed(left), binary_operator_of(operator)->0, reparsed(right));
    lemma_binary_text_is_read(left, operator, right);
    lemma_operator_spellings(operator);
    lemma_atomic(left);
    lemma_atomic(right);
    lemma_binary_operator(start);
    assert(start.advance().advance().tokens.len() == 1);
    lemma_lone_expression(start, whole);
}

/// An atomic operand with a binary operator behind it, a space on either
/// side of the operator, is read as the two tokens of operand and
/// operator.
pub proof fn lemma_operand_and_operator_are_read(
    input: Seq<char>,
    at: int,
    operand: ExpressionView,
    operator: Seq<char>,
)
    requires
        0 <= at,
        atomic(operand),
        binary_operator_of(operator) is Some,
        at + render_expression(operand).len() + operator.len() + 2 <= input.len(),
        input.subrange(at, at + render_expression(operand).len() + operator.len() + 2)
            == render_expression(operand) + (" "@ + operator + " "@),
    ensures
        token_stream(input, at) == seq![tokens_of(operand)[0], binary_operator_of(operator)->0]
            + token_stream(input, at + render_expression(operand).len() + operator.len() + 2),
{
    reveal_strlit(" ");
    let text = render_expression(operand);
    let spaced = " "@ + operator + " "@;
    let found = input.subrange(at, at + text.len() + spaced.len());
    let symbol_at = at + text.len();
    assert(input.subrange(at, symbol_at) == text) by {
        assert forall|i: int| 0 <= i < text.len() implies input[at + i] == text[i] by {
            assert(found[i] == text[i]);
        }
    }
    assert(input.subrange(symbol_at, symbol_at + spaced.len()) == spaced) by {
        assert forall|i: int| 0 <= i < spaced.len() implies input[symbol_at + i]
            == spaced[i] by {
            assert(found[text.len() + i] == spaced[i]);
        }
    }
    assert(input[symbol_at] == ' ') by {
        assert(spaced[0] == ' ');
    }
    lemma_plain_is_read(input, at, operand);
    lemma_spaced_operator_is_read(input, symbol_at, operator);
    lemma_atomic(operand);
    assert(tokens_of(operand) == seq![tokens_of(operand)[0]]);
}

/// The text of three atomic operands with two binary operators between
/// them, a space on either side of each operator.
pub open spec fn chain_text(
    first: ExpressionView,
    early: Seq<char>,
    second: ExpressionView,
    late: Seq<char>,
    third: ExpressionView,
) -> Seq<char> {
    (render_expression(first) + (" "@ + early + " "@)) + (render_expression(second) + (" "@
        + late + " "@)) + render_expression(third)
}

/// The text of three atomic operands with two binary operators between
/// them is read as the five tokens of operands and operators.
pub proof fn lemma_chain_text_is_read(
    first: ExpressionView,
    early: Seq<char>,
    second: ExpressionView,
    late: Seq<char>,
    third: ExpressionView,
)
    requires
        atomic(first),
        binary_operator_of(early) is Some,
        atomic(second),
        binary_operator_of(late) is Some,
        atomic(third),
    ensures
        start_on(chain_text(first, early, second, late, third)).tokens == seq![
            tokens_of(first)[0],
            binary_operator_of(early)->0,
            tokens_of(second)[0],
            binary_operator_of(late)->0,
            tokens_of(third)[0],
        ],
{
    reveal_strlit(" ");
    let front = render_expression(first) + (" "@ + early + " "@);
    let middle = render_expression(second) + (" "@ + late + " "@);
    let back = render_expression(third);
    let text = front + middle + back + Seq::<char>::empty();
    assert(text == chain_text(first, early, second, late, third));
    assert(front.len() == render_expression(first).len() + early.len() + 2);
    assert(middle.len() == render_expression(second).len() + late.len() + 2);
    lemma_four_parts(front, middle, back, Seq::<char>::empty());
    lemma_operand_and_operator_are_read(text, 0, first, early);
    lemma_operand_and_operator_are_read(text, front.len() as int, second, late);
    lemma_plain_is_read(text, (front.len() + middle.len()) as int, third);
    lemma_eof_repeats(text);
    lemma_token_stream_unfolds(text, text.len() as int);
    lemma_atomic(third);
    assert(tokens_of(third) == seq![tokens_of(third)[0]]);
}

/// Of two binary operators in a row between names, numbers and booleans,
/// the first takes the operand between them unless the second binds
/// tighter: the text `a + b + c` is parsed into `((a + b) + c)`, never
/// into `(a + (b + c))`, the text `a + b * c` into `(a + (b * c))`.
pub proof fn lemma_two_binary_operators_text(
    first: ExpressionView,
    early: Seq<char>,
    second: ExpressionView,
    late: Seq<char>,
    third: ExpressionView,
)
    requires
        atomic(first),
        binary_operator_of(early) is Some,
        atomic(second),
        binary_operator_of(late) is Some,
        atomic(third),
    ensures
        parse_program(start_on(chain_text(first, early, second, late, third))).state.errors.len()
            == 0,
        precedence_of(binary_operator_of(early)->0).rank() >= precedence_of(
            binary_operator_of(late)->0,
        ).rank() ==> render_program(
            ProgramView {
                statements: parse_program(
                    start_on(chain_text(first, early, second, late, third)),
                ).value,
            },
        ) == "("@ + ("("@ + render_expression(first) + " "@ + early + " "@ + render_expression(
            second,
        ) + ")"@) + " "@ + late + " "@ + render_expression(third) + ")"@,
        precedence_of(binary_operator_of(early)->0).rank() < precedence_of(
            binary_operator_of(late)->0,
        ).rank() ==> render_program(
            ProgramView {
                statements: parse_program(
                    start_on(chain_text(first, early, second, late, third)),
                ).value,
            },
        ) == "("@ + render_expression(first) + " "@ + early + " "@ + ("("@ + render_expression(
            second,
        ) + " "@ + late + " "@ + render_expression(third) + ")"@) + ")"@,
{
    let start = start_on(chain_text(first, early, second, late, third));
    lemma_chain_text_is_read(first, early, second, late, third);
    lemma_operator_spellings(early);
    lemma_operator_spellings(late);
    lemma_atomic(first);
    lemma_atomic(second);
    lemma_atomic(third);
    lemma_two_binary_operators(start);
    let parsed = parse_expression(start, Precedence::Lowest);
    assert(start.advance().advance().advance().advance().tokens.len() == 1);
    lemma_lone_expression(start, parsed.value->0);
}

} // verus!
