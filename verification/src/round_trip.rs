//! Rendering and parsing agree: the canonical text of an expression built
//! from names, numbers, booleans and operators is parsed back into an
//! expression of the same canonical text.

use vstd::prelude::*;
use crate::ast::{
    render_expression, render_program, render_statement, statement_texts, ExpressionView,
    ProgramView, StatementView,
};
use crate::grammar::{
    expect_peek, parse_expression, parse_expression_statement, parse_grouped_expression,
    parse_infix, parse_infix_expression, parse_prefix, parse_prefix_expression, parse_program,
    parse_statement, precedence_of, prepend, start_on, Parsed, ParserView,
};
use crate::lexer::{lemma_eof_repeats, lemma_token_stream_unfolds};
use crate::relex::lemma_plain_is_read;
use crate::soundness::sound_expression;
use crate::operators::{
    binary, is_binary_operator, is_prefix_operator, lemma_chain_goes_on, lemma_chain_stops, unary,
};
use crate::parser::Precedence;
use crate::text::{
    all_in_class, concat, decimal, lemma_literal_of_decimal, lemma_numeral_value_bounds,
    lemma_part_stands, CharClass,
};
use crate::token::{keyword_or_ident, TokenView};

verus! {

/// The prefix operator that `text` spells.
pub open spec fn prefix_operator_of(text: Seq<char>) -> Option<TokenView> {
    if text == "!"@ {
        Some(TokenView::Bang)
    } else if text == "-"@ {
        Some(TokenView::Minus)
    } else {
        None
    }
}

/// The binary operator that `text` spells.
pub open spec fn binary_operator_of(text: Seq<char>) -> Option<TokenView> {
    if text == "+"@ {
        Some(TokenView::Plus)
    } else if text == "-"@ {
        Some(TokenView::Minus)
    } else if text == "*"@ {
        Some(TokenView::Asterisk)
    } else if text == "/"@ {
        Some(TokenView::Slash)
    } else if text == "<"@ {
        Some(TokenView::Lt)
    } else if text == ">"@ {
        Some(TokenView::Gt)
    } else if text == "=="@ {
        Some(TokenView::Eq)
    } else if text == "!="@ {
        Some(TokenView::NotEq)
    } else {
        None
    }
}

/// Whether `expression` is built from names, numbers that are not
/// negative, booleans, and the prefix and binary operators alone: a name
/// being a run of letters that spells no keyword, and an operator one that
/// the language has. Its tokens may be any.
pub open spec fn plain(expression: ExpressionView) -> bool
    decreases expression,
{
    match expression {
        ExpressionView::Identifier { token, value } => value.len() > 0 && all_in_class(
            CharClass::Letter,
            value,
        ) && keyword_or_ident(value) is Ident,
        ExpressionView::IntegerLiteral { token, value } => 0 <= value <= i32::MAX,
        ExpressionView::Boolean { token, value } => true,
        ExpressionView::Prefix { token, operator, right } => prefix_operator_of(operator) is Some
            && plain(*right),
        ExpressionView::Infix { token, left, operator, right } => binary_operator_of(operator)
            is Some && plain(*left) && plain(*right),
        _ => false,
    }
}

/// The tokens of the canonical text of a plain expression.
pub open spec fn tokens_of(expression: ExpressionView) -> Seq<TokenView>
    decreases expression,
{
    match expression {
        ExpressionView::Identifier { token, value } => seq![TokenView::Ident(value)],
        ExpressionView::IntegerLiteral { token, value } => seq![TokenView::Int(decimal(value))],
        ExpressionView::Boolean { token, value } => seq![
            if value {
                TokenView::True
            } else {
                TokenView::False
            },
        ],
        ExpressionView::Prefix { token, operator, right } => seq![
            TokenView::Lparen,
            prefix_operator_of(operator)->0,
        ] + tokens_of(*right) + seq![TokenView::Rparen],
        ExpressionView::Infix { token, left, operator, right } => seq![TokenView::Lparen]
            + tokens_of(*left) + seq![binary_operator_of(operator)->0] + tokens_of(*right)
            + seq![TokenView::Rparen],
        _ => Seq::empty(),
    }
}

/// A plain expression as the parser builds it: the same names, numbers,
/// booleans and operators, each node with the token that the parser gives
/// it.
pub open spec fn reparsed(expression: ExpressionView) -> ExpressionView
    decreases expression,
{
    match expression {
        ExpressionView::Identifier { token, value } => ExpressionView::Identifier {
            token: TokenView::Ident(value),
            value,
        },
        ExpressionView::IntegerLiteral { token, value } => ExpressionView::IntegerLiteral {
            token: TokenView::Int(decimal(value)),
            value,
        },
        ExpressionView::Boolean { token, value } => ExpressionView::Boolean {
            token: if value {
                TokenView::True
            } else {
                TokenView::False
            },
            value,
        },
        ExpressionView::Prefix { token, operator, right } => unary(
            prefix_operator_of(operator)->0,
            reparsed(*right),
        ),
        ExpressionView::Infix { token, left, operator, right } => binary(
            reparsed(*left),
            binary_operator_of(operator)->0,
            reparsed(*right),
        ),
        _ => expression,
    }
}

/// The state of `state` after `passed` of its tokens.
pub open spec fn after(state: ParserView, passed: int) -> ParserView {
    ParserView { tokens: state.tokens.skip(passed), errors: state.errors }
}

/// The state after some tokens has the next one as its current token, and
/// moving on from it passes one token more.
pub proof fn lemma_after(state: ParserView, passed: int)
    requires
        0 <= passed < state.tokens.len(),
    ensures
        after(state, passed).cur() == state.tokens[passed],
        after(state, passed).peek() == if passed + 1 < state.tokens.len() {
            state.tokens[passed + 1]
        } else {
            TokenView::Eof
        },
        after(state, passed).advance() == after(state, passed + 1),
        after(state, passed).tokens.len() == state.tokens.len() - passed,
        after(state, 0) == state,
{
    assert(state.tokens.skip(passed).drop_first() == state.tokens.skip(passed + 1));
    assert(state.tokens.skip(0) == state.tokens);
}

/// An operator is the token of its own spelling.
pub proof fn lemma_operator_spellings(text: Seq<char>)
    ensures
        prefix_operator_of(text) matches Some(operator) ==> operator.literal() == text
            && is_prefix_operator(operator),
        binary_operator_of(text) matches Some(operator) ==> operator.literal() == text
            && is_binary_operator(operator) && precedence_of(operator).rank() > 0,
{
}

/// The tokens of a plain expression are at least one, and the first is
/// none that opens a statement or ends the tokens.
pub proof fn lemma_tokens_of(expression: ExpressionView)
    requires
        plain(expression),
    ensures
        tokens_of(expression).len() > 0,
        !(tokens_of(expression)[0] is Eof),
        !(tokens_of(expression)[0] is Let),
        !(tokens_of(expression)[0] is Return),
    decreases expression,
{
}

/// The parser takes a plain expression as the parser builds it for what it
/// is: its canonical text is that of the expression.
pub proof fn lemma_reparsed_renders_alike(expression: ExpressionView)
    requires
        plain(expression),
    ensures
        plain(reparsed(expression)),
        render_expression(reparsed(expression)) == render_expression(expression),
        reparsed(reparsed(expression)) == reparsed(expression),
        tokens_of(reparsed(expression)) == tokens_of(expression),
    decreases expression,
{
    match expression {
        ExpressionView::Prefix { token, operator, right } => {
            lemma_operator_spellings(operator);
            lemma_reparsed_renders_alike(*right);
        },
        ExpressionView::Infix { token, left, operator, right } => {
            lemma_operator_spellings(operator);
            lemma_reparsed_renders_alike(*left);
            lemma_reparsed_renders_alike(*right);
        },
        _ => {},
    }
}

/// What starts an expression and is followed by nothing that extends it is
/// the whole expression.
pub proof fn lemma_expression_is_its_start(
    state: ParserView,
    precedence: Precedence,
    behind: ParserView,
    value: ExpressionView,
)
    requires
        parse_prefix(state, state.cur()) == (Parsed { state: behind, value: Some(value) }),
        behind.no_longer_than(state),
        behind.peek() is Semicolon || precedence_of(behind.peek()).rank() <= precedence.rank(),
    ensures
        parse_expression(state, precedence) == (Parsed { state: behind, value: Some(value) }),
{
    lemma_chain_stops(behind, value, precedence);
}

/// A prefix operator and its operand between parentheses are parsed as
/// the operator applied to the operand, if the operand is parsed for what
/// it is.
pub proof fn lemma_parse_unary(
    state: ParserView,
    passed: int,
    symbol: TokenView,
    operand: ExpressionView,
    width: int,
)
    requires
        is_prefix_operator(symbol),
        0 <= passed,
        0 < width,
        passed + width + 3 <= state.tokens.len(),
        state.tokens[passed] is Lparen,
        state.tokens[passed + 1] == symbol,
        state.tokens[passed + 2 + width] is Rparen,
        parse_prefix(after(state, passed + 2), state.tokens[passed + 2]) == (Parsed {
            state: after(state, passed + 1 + width),
            value: Some(operand),
        }),
    ensures
        parse_prefix(after(state, passed), state.tokens[passed]) == (Parsed {
            state: after(state, passed + 2 + width),
            value: Some(unary(symbol, operand)),
        }),
{
    let here = after(state, passed);
    let at_symbol = after(state, passed + 1);
    let at_operand = after(state, passed + 2);
    let at_last = after(state, passed + 1 + width);
    lemma_after(state, passed);
    lemma_after(state, passed + 1);
    lemma_after(state, passed + 2);
    lemma_after(state, passed + 1 + width);
    lemma_after(state, passed + 2 + width);
    lemma_expression_is_its_start(at_operand, Precedence::Prefix, at_last, operand);
    let applied = unary(symbol, operand);
    assert(parse_prefix_expression(at_symbol) == (Parsed { state: at_last, value: Some(applied) }));
    assert(parse_prefix(at_symbol, at_symbol.cur()) == parse_prefix_expression(at_symbol));
    lemma_expression_is_its_start(at_symbol, Precedence::Lowest, at_last, applied);
    assert(expect_peek(at_last, TokenView::Rparen) == (Parsed {
        state: after(state, passed + 2 + width),
        value: true,
    }));
    assert(parse_prefix(here, state.tokens[passed]) == parse_grouped_expression(here));
}

/// Two operands with a binary operator between them, all between
/// parentheses, are parsed as the operator applied to the operands, if
/// each operand is parsed for what it is.
pub proof fn lemma_parse_binary(
    state: ParserView,
    passed: int,
    left: ExpressionView,
    left_width: int,
    symbol: TokenView,
    right: ExpressionView,
    right_width: int,
)
    requires
        is_binary_operator(symbol),
        0 <= passed,
        0 < left_width,
        0 < right_width,
        passed + left_width + right_width + 3 <= state.tokens.len(),
        state.tokens[passed] is Lparen,
        state.tokens[passed + 1 + left_width] == symbol,
        state.tokens[passed + 2 + left_width + right_width] is Rparen,
        parse_prefix(after(state, passed + 1), state.tokens[passed + 1]) == (Parsed {
            state: after(state, passed + left_width),
            value: Some(left),
        }),
        parse_prefix(
            after(state, passed + 2 + left_width),
            state.tokens[passed + 2 + left_width],
        ) == (Parsed {
            state: after(state, passed + 1 + left_width + right_width),
            value: Some(right),
        }),
    ensures
        parse_prefix(after(state, passed), state.tokens[passed]) == (Parsed {
            state: after(state, passed + 2 + left_width + right_width),
            value: Some(binary(left, symbol, right)),
        }),
{
    let here = after(state, passed);
    let at_left = after(state, passed + 1);
    let at_left_end = after(state, passed + left_width);
    let at_symbol = after(state, passed + 1 + left_width);
    let at_right = after(state, passed + 2 + left_width);
    let at_last = after(state, passed + 1 + left_width + right_width);
    lemma_after(state, passed);
    lemma_after(state, passed + 1);
    lemma_after(state, passed + left_width);
    lemma_after(state, passed + 1 + left_width);
    lemma_after(state, passed + 2 + left_width);
    lemma_after(state, passed + 1 + left_width + right_width);
    lemma_after(state, passed + 2 + left_width + right_width);
    lemma_expression_is_its_start(at_right, precedence_of(symbol), at_last, right);
    let applied = binary(left, symbol, right);
    assert(parse_infix_expression(at_symbol, left) == (Parsed {
        state: at_last,
        value: Some(applied),
    }));
    assert(parse_infix(at_symbol, symbol, left) == parse_infix_expression(at_symbol, left));
    lemma_chain_goes_on(at_left_end, left, Precedence::Lowest, applied, at_last);
    lemma_chain_stops(at_last, applied, Precedence::Lowest);
    assert(parse_expression(at_left, Precedence::Lowest) == (Parsed {
        state: at_last,
        value: Some(applied),
    }));
    assert(expect_peek(at_last, TokenView::Rparen) == (Parsed {
        state: after(state, passed + 2 + left_width + right_width),
        value: true,
    }));
    assert(parse_prefix(here, state.tokens[passed]) == parse_grouped_expression(here));
}

/// Where the tokens of an operator and its operand between parentheses
/// stand, each of them stands at its place.
pub proof fn lemma_unary_layout(
    tokens: Seq<TokenView>,
    passed: int,
    symbol: TokenView,
    inner: Seq<TokenView>,
)
    requires
        0 <= passed,
        passed + inner.len() + 3 <= tokens.len(),
        tokens.subrange(passed, passed + inner.len() + 3) == seq![TokenView::Lparen, symbol]
            + inner + seq![TokenView::Rparen],
    ensures
        tokens[passed] is Lparen,
        tokens[passed + 1] == symbol,
        tokens.subrange(passed + 2, passed + 2 + inner.len()) == inner,
        tokens[passed + 2 + inner.len()] is Rparen,
{
    let opening = seq![TokenView::Lparen, symbol];
    let closing = seq![TokenView::Rparen];
    lemma_part_stands(tokens, passed, opening, inner, closing);
    assert(opening[0] is Lparen && opening[1] == symbol);
    assert(closing[0] is Rparen);
}

/// Where the tokens of two operands and the operator between them, all
/// between parentheses, stand, each of them stands at its place.
pub proof fn lemma_binary_layout(
    tokens: Seq<TokenView>,
    passed: int,
    first: Seq<TokenView>,
    symbol: TokenView,
    second: Seq<TokenView>,
)
    requires
        0 <= passed,
        passed + first.len() + second.len() + 3 <= tokens.len(),
        tokens.subrange(passed, passed + first.len() + second.len() + 3) == seq![
            TokenView::Lparen,
        ] + first + seq![symbol] + second + seq![TokenView::Rparen],
    ensures
        tokens[passed] is Lparen,
        tokens.subrange(passed + 1, passed + 1 + first.len()) == first,
        tokens[passed + 1 + first.len()] == symbol,
        tokens.subrange(passed + 2 + first.len(), passed + 2 + first.len() + second.len())
            == second,
        tokens[passed + 2 + first.len() + second.len()] is Rparen,
{
    let opening = seq![TokenView::Lparen];
    let middle = seq![symbol];
    let closing = seq![TokenView::Rparen];
    let whole = opening + first + middle + second + closing;
    assert(whole == opening + first + (middle + second + closing));
    lemma_part_stands(tokens, passed, opening, first, middle + second + closing);
    assert(opening[0] is Lparen);
    assert((middle + second + closing)[0] == symbol);
    assert(whole == (opening + first + middle) + second + closing);
    lemma_part_stands(tokens, passed, opening + first + middle, second, closing);
    assert(closing[0] is Rparen);
}

/// Where the token of a name, a number or a boolean stands, what starts
/// an expression there is that name, number or boolean as the parser
/// builds it, and the parser stays on the token.
pub proof fn lemma_parse_plain_atom(state: ParserView, passed: int, expression: ExpressionView)
    requires
        plain(expression),
        expression is Identifier || expression is IntegerLiteral || expression is Boolean,
        0 <= passed < state.tokens.len(),
        state.tokens[passed] == tokens_of(expression)[0],
    ensures
        tokens_of(expression).len() == 1,
        parse_prefix(after(state, passed), state.tokens[passed]) == (Parsed {
            state: after(state, passed),
            value: Some(reparsed(expression)),
        }),
{
    lemma_after(state, passed);
    match expression {
        ExpressionView::IntegerLiteral { token, value } => {
            lemma_literal_of_decimal(value);
        },
        _ => {},
    }
}

/// Where the tokens of a plain expression stand in a row, what starts an
/// expression at the first of them is that expression as the parser builds
/// it, and the parser stops on the last of them without an error.
pub proof fn lemma_parse_plain(state: ParserView, passed: int, expression: ExpressionView)
    requires
        plain(expression),
        0 <= passed,
        passed + tokens_of(expression).len() <= state.tokens.len(),
        state.tokens.subrange(passed, passed + tokens_of(expression).len()) == tokens_of(
            expression,
        ),
    ensures
        tokens_of(expression).len() > 0,
        parse_prefix(after(state, passed), state.tokens[passed]) == (Parsed {
            state: after(state, passed + tokens_of(expression).len() - 1),
            value: Some(reparsed(expression)),
        }),
    decreases expression,
{
    lemma_tokens_of(expression);
    match expression {
        ExpressionView::Prefix { token, operator, right } => {
            lemma_operator_spellings(operator);
            lemma_tokens_of(*right);
            let symbol = prefix_operator_of(operator)->0;
            let inner = tokens_of(*right);
            lemma_unary_layout(state.tokens, passed, symbol, inner);
            lemma_parse_plain(state, passed + 2, *right);
            lemma_parse_unary(state, passed, symbol, reparsed(*right), inner.len() as int);
        },
        ExpressionView::Infix { token, left, operator, right } => {
            lemma_operator_spellings(operator);
            lemma_tokens_of(*left);
            lemma_tokens_of(*right);
            let symbol = binary_operator_of(operator)->0;
            let first = tokens_of(*left);
            let second = tokens_of(*right);
            lemma_binary_layout(state.tokens, passed, first, symbol, second);
            lemma_parse_plain(state, passed + 1, *left);
            lemma_parse_plain(state, passed + 2 + first.len(), *right);
            lemma_parse_binary(
                state,
                passed,
                reparsed(*left),
                first.len() as int,
                symbol,
                reparsed(*right),
                second.len() as int,
            );
        },
        _ => {
            assert(state.tokens[passed] == state.tokens.subrange(
                passed,
                passed + tokens_of(expression).len(),
            )[0]);
            lemma_parse_plain_atom(state, passed, expression);
        },
    }
}

/// The tokens of the canonical text of a plain expression are the tokens
/// of that expression.
pub proof fn lemma_tokens_of_text(expression: ExpressionView)
    requires
        plain(expression),
    ensures
        start_on(render_expression(expression)).tokens == tokens_of(expression),
{
    let text = render_expression(expression);
    assert(text.subrange(0, text.len() as int) == text);
    lemma_plain_is_read(text, 0, expression);
    lemma_eof_repeats(text);
    lemma_token_stream_unfolds(text, text.len() as int);
}

/// The canonical text of a plain expression is parsed back, without an
/// error, into an expression of the same canonical text: the expression as
/// the parser builds it.
pub proof fn lemma_expression_round_trip(expression: ExpressionView)
    requires
        plain(expression),
    ensures
        parse_expression(start_on(render_expression(expression)), Precedence::Lowest).value
            == Some(reparsed(expression)),
        parse_expression(
            start_on(render_expression(expression)),
            Precedence::Lowest,
        ).state.errors.len() == 0,
        parse_expression(
            start_on(render_expression(expression)),
            Precedence::Lowest,
        ).state.tokens.len() == 1,
        render_expression(reparsed(expression)) == render_expression(expression),
{
    let start = start_on(render_expression(expression));
    let count = tokens_of(expression).len() as int;
    lemma_tokens_of_text(expression);
    lemma_tokens_of(expression);
    assert(start.tokens.subrange(0, count) == tokens_of(expression));
    lemma_parse_plain(start, 0, expression);
    lemma_after(start, 0);
    lemma_after(start, count - 1);
    lemma_expression_is_its_start(
        start,
        Precedence::Lowest,
        after(start, count - 1),
        reparsed(expression),
    );
    lemma_reparsed_renders_alike(expression);
}

/// The program of one expression statement that starts with `token`.
pub open spec fn one_expression(token: TokenView, expression: ExpressionView) -> Seq<
    StatementView,
> {
    seq![StatementView::Expression { token, expression: Some(expression) }]
}

/// A program that is one expression, parsed without an error up to its
/// last token, is parsed into one expression statement, and its canonical
/// text is that of the expression.
pub proof fn lemma_lone_expression(state: ParserView, expression: ExpressionView)
    requires
        state.tokens.len() > 0,
        !(state.tokens[0] is Let) && !(state.tokens[0] is Return) && !(state.tokens[0] is Eof),
        parse_expression(state, Precedence::Lowest).value == Some(expression),
        parse_expression(state, Precedence::Lowest).state.tokens.len() == 1,
        parse_expression(state, Precedence::Lowest).state.errors == state.errors,
    ensures
        parse_program(state).value == one_expression(state.tokens[0], expression),
        parse_program(state).state.errors == state.errors,
        render_program(ProgramView { statements: parse_program(state).value })
            == render_expression(expression),
{
    let parsed = parse_expression(state, Precedence::Lowest);
    let statement = StatementView::Expression {
        token: state.tokens[0],
        expression: Some(expression),
    };
    assert(parse_statement(state) == parse_expression_statement(state));
    assert(parse_statement(state) == (Parsed { state: parsed.state, value: Some(statement) }));
    let end = parsed.state.advance();
    assert(end.tokens.len() == 0);
    assert(parse_program(end).value == Seq::<StatementView>::empty());
    assert(parse_program(state).value == prepend(Some(statement), Seq::empty()));
    assert(prepend(Some(statement), Seq::<StatementView>::empty()) == seq![statement]);
    let texts = statement_texts(seq![statement]);
    assert(texts == seq![render_statement(statement)]);
    assert(texts.drop_last() == Seq::<Seq<char>>::empty());
    assert(concat(texts) == concat(texts.drop_last()) + texts.last());
    assert(concat(Seq::<Seq<char>>::empty()) == Seq::<char>::empty());
}

/// The canonical text of a plain expression is parsed, as a program, into
/// one statement and no error, and that program has the same canonical
/// text. Parsing what was rendered and rendering it again changes nothing.
pub proof fn lemma_round_trip(expression: ExpressionView)
    requires
        plain(expression),
    ensures
        parse_program(start_on(render_expression(expression))).value == seq![
            StatementView::Expression {
                token: tokens_of(expression)[0],
                expression: Some(reparsed(expression)),
            },
        ],
        parse_program(start_on(render_expression(expression))).state.errors.len() == 0,
        render_program(
            ProgramView {
                statements: parse_program(start_on(render_expression(expression))).value,
            },
        ) == render_expression(expression),
{
    let start = start_on(render_expression(expression));
    lemma_tokens_of_text(expression);
    lemma_tokens_of(expression);
    lemma_expression_round_trip(expression);
    assert(parse_expression(start, Precedence::Lowest).state.errors == start.errors);
    lemma_lone_expression(start, reparsed(expression));
    lemma_reparsed_renders_alike(expression);
}

/// Whether `expression` is built from names, numbers, booleans and the
/// prefix and binary operators alone.
pub open spec fn simple(expression: ExpressionView) -> bool
    decreases expression,
{
    match expression {
        ExpressionView::Identifier { token, value } => true,
        ExpressionView::IntegerLiteral { token, value } => true,
        ExpressionView::Boolean { token, value } => true,
        ExpressionView::Prefix { token, operator, right } => simple(*right),
        ExpressionView::Infix { token, left, operator, right } => simple(*left) && simple(*right),
        _ => false,
    }
}

/// A simple expression that the parser built is plain.
pub proof fn lemma_sound_and_simple_is_plain(expression: ExpressionView)
    requires
        sound_expression(expression),
        simple(expression),
    ensures
        plain(expression),
    decreases expression,
{
    match expression {
        ExpressionView::IntegerLiteral { token, value } => {
            lemma_numeral_value_bounds(token.literal());
        },
        ExpressionView::Prefix { token, operator, right } => {
            lemma_sound_and_simple_is_plain(*right);
        },
        ExpressionView::Infix { token, left, operator, right } => {
            lemma_sound_and_simple_is_plain(*left);
            lemma_sound_and_simple_is_plain(*right);
        },
        _ => {},
    }
}

/// Parsing again what was parsed and rendered changes nothing: the
/// canonical text of a simple expression that the parser built is parsed,
/// without an error, into a program of that same canonical text.
pub proof fn lemma_parsed_round_trip(expression: ExpressionView)
    requires
        sound_expression(expression),
        simple(expression),
    ensures
        parse_program(start_on(render_expression(expression))).state.errors.len() == 0,
        parse_program(start_on(render_expression(expression))).value.len() == 1,
        render_program(
            ProgramView {
                statements: parse_program(start_on(render_expression(expression))).value,
            },
        ) == render_expression(expression),
{
    lemma_sound_and_simple_is_plain(expression);
    lemma_round_trip(expression);
}

} // verus!
