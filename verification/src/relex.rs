//! The tokenizer on canonical text: the text of a plain expression is read
//! back as the tokens of that expression.

use vstd::prelude::*;
use crate::ast::{render_expression, ExpressionView};
use crate::lexer::{
    lemma_eof_repeats, lemma_keyword_or_ident_is_no_eof, lemma_run_end,
    lemma_token_stream_unfolds, lex_step, proper_token, run_end, token_at, token_stream, Lexed,
};
use crate::round_trip::{binary_operator_of, plain, prefix_operator_of, tokens_of};
use crate::text::{
    all_in_class, decimal, in_class, lemma_decimal_digits, lemma_part_stands, CharClass,
};
use crate::token::{keyword_or_ident, TokenView};

verus! {

/// A run of characters of one class, with none of the class behind it, is
/// the longest run from its start.
pub proof fn lemma_run_is_longest(class: CharClass, input: Seq<char>, from: int, to: int)
    requires
        0 <= from <= to <= input.len(),
        forall|i: int| from <= i < to ==> in_class(class, #[trigger] input[i]),
        to == input.len() || !in_class(class, input[to]),
    ensures
        run_end(class, input, from) == to,
    decreases to - from,
{
    if from < to {
        lemma_run_is_longest(class, input, from + 1, to);
    }
}

/// A blank in front of the tokens changes nothing about them.
pub proof fn lemma_blank_is_passed(input: Seq<char>, at: int)
    requires
        0 <= at < input.len(),
        in_class(CharClass::Blank, input[at]),
    ensures
        token_stream(input, at) == token_stream(input, at + 1),
{
    assert(lex_step(input, at) == lex_step(input, at + 1));
    lemma_token_stream_unfolds(input, at);
    lemma_token_stream_unfolds(input, at + 1);
}

/// Where no blank stands, the next token is the one that starts there.
pub proof fn lemma_token_starts_here(input: Seq<char>, at: int)
    requires
        0 <= at < input.len(),
        !in_class(CharClass::Blank, input[at]),
    ensures
        lex_step(input, at) == token_at(input, at),
        !(token_at(input, at).token is Eof),
        token_stream(input, at) == seq![token_at(input, at).token] + token_stream(
            input,
            token_at(input, at).next,
        ),
{
    lemma_token_stream_unfolds(input, at);
    lemma_run_end(CharClass::Letter, input, at);
    lemma_keyword_or_ident_is_no_eof(
        input.subrange(at, run_end(CharClass::Letter, input, at)),
    );
}

/// A run of letters between other characters is read as one word.
pub proof fn lemma_word_is_read(input: Seq<char>, at: int, word: Seq<char>)
    requires
        0 <= at,
        word.len() > 0,
        at + word.len() <= input.len(),
        input.subrange(at, at + word.len()) == word,
        all_in_class(CharClass::Letter, word),
        at + word.len() == input.len() || !in_class(CharClass::Letter, input[at + word.len()]),
    ensures
        token_stream(input, at) == seq![keyword_or_ident(word)] + token_stream(
            input,
            at + word.len(),
        ),
{
    assert forall|i: int| at <= i < at + word.len() implies in_class(
        CharClass::Letter,
        #[trigger] input[i],
    ) by {
        assert(input[i] == word[i - at]);
    }
    lemma_run_is_longest(CharClass::Letter, input, at, at + word.len());
    assert(in_class(CharClass::Letter, input[at]));
    lemma_token_starts_here(input, at);
}

/// A run of digits between other characters is read as one integer
/// literal.
pub proof fn lemma_number_is_read(input: Seq<char>, at: int, digits: Seq<char>)
    requires
        0 <= at,
        digits.len() > 0,
        at + digits.len() <= input.len(),
        input.subrange(at, at + digits.len()) == digits,
        all_in_class(CharClass::Digit, digits),
        at + digits.len() == input.len() || !in_class(
            CharClass::Digit,
            input[at + digits.len()],
        ),
    ensures
        token_stream(input, at) == seq![TokenView::Int(digits)] + token_stream(
            input,
            at + digits.len(),
        ),
{
    assert forall|i: int| at <= i < at + digits.len() implies in_class(
        CharClass::Digit,
        #[trigger] input[i],
    ) by {
        assert(input[i] == digits[i - at]);
    }
    lemma_run_is_longest(CharClass::Digit, input, at, at + digits.len());
    assert(in_class(CharClass::Digit, input[at]));
    lemma_token_starts_here(input, at);
}

/// A prefix operator in front of anything but `=` is read as that
/// operator.
pub proof fn lemma_prefix_operator_is_read(input: Seq<char>, at: int, operator: Seq<char>)
    requires
        0 <= at,
        prefix_operator_of(operator) is Some,
        at + operator.len() < input.len(),
        input.subrange(at, at + operator.len()) == operator,
        input[at + operator.len()] != '=',
    ensures
        operator.len() == 1,
        token_stream(input, at) == seq![prefix_operator_of(operator)->0] + token_stream(
            input,
            at + 1,
        ),
{
    reveal_strlit("!");
    reveal_strlit("-");
    assert(input[at] == operator[0]);
    lemma_token_starts_here(input, at);
}

/// A binary operator in front of a space is read as that operator.
pub proof fn lemma_binary_operator_is_read(input: Seq<char>, at: int, operator: Seq<char>)
    requires
        0 <= at,
        binary_operator_of(operator) is Some,
        at + operator.len() < input.len(),
        input.subrange(at, at + operator.len()) == operator,
        input[at + operator.len()] == ' ',
    ensures
        1 <= operator.len() <= 2,
        token_stream(input, at) == seq![binary_operator_of(operator)->0] + token_stream(
            input,
            at + operator.len(),
        ),
{
    reveal_strlit("+");
    reveal_strlit("-");
    reveal_strlit("*");
    reveal_strlit("/");
    reveal_strlit("<");
    reveal_strlit(">");
    reveal_strlit("==");
    reveal_strlit("!=");
    assert(input[at] == operator[0]);
    if operator.len() == 2 {
        assert(input[at + 1] == operator[1]);
    }
    lemma_token_starts_here(input, at);
}

/// The canonical text of a plain expression is not empty, and it starts
/// with a letter, a digit or an opening parenthesis.
pub proof fn lemma_plain_text_starts(expression: ExpressionView)
    requires
        plain(expression),
    ensures
        render_expression(expression).len() > 0,
        in_class(CharClass::Letter, render_expression(expression)[0]) || in_class(
            CharClass::Digit,
            render_expression(expression)[0],
        ) || render_expression(expression)[0] == '(',
{
    reveal_strlit("true");
    reveal_strlit("false");
    reveal_strlit("(");
    match expression {
        ExpressionView::Identifier { token, value } => {},
        ExpressionView::IntegerLiteral { token, value } => {
            lemma_decimal_digits(value as nat);
        },
        _ => {},
    }
}

/// Whether a name or a number ends at `end`: for want of more text, or in
/// front of a character that is neither a letter nor a digit.
pub open spec fn token_ends(input: Seq<char>, end: int) -> bool {
    end == input.len() || !(in_class(CharClass::Letter, input[end]) || in_class(
        CharClass::Digit,
        input[end],
    ))
}

/// An opening or closing parenthesis is read as that token.
pub proof fn lemma_parenthesis_is_read(input: Seq<char>, at: int)
    requires
        0 <= at < input.len(),
        input[at] == '(' || input[at] == ')',
    ensures
        token_stream(input, at) == seq![
            if input[at] == '(' {
                TokenView::Lparen
            } else {
                TokenView::Rparen
            },
        ] + token_stream(input, at + 1),
{
    lemma_token_starts_here(input, at);
}

/// A prefix operator and the text of its operand between parentheses are
/// read as the tokens of the parentheses, the operator and the operand, if
/// the operand's text is read as the operand's tokens.
pub proof fn lemma_unary_is_read(
    input: Seq<char>,
    at: int,
    operator: Seq<char>,
    operand: Seq<char>,
    operand_tokens: Seq<TokenView>,
)
    requires
        0 <= at,
        prefix_operator_of(operator) is Some,
        operand.len() > 0,
        operand[0] != '=',
        at + 2 + operator.len() + operand.len() <= input.len(),
        input.subrange(at, at + 2 + operator.len() + operand.len()) == "("@ + operator + operand
            + ")"@,
        token_stream(input, at + 2) == operand_tokens + token_stream(
            input,
            at + 2 + operand.len(),
        ),
    ensures
        operator.len() == 1,
        token_stream(input, at) == seq![TokenView::Lparen, prefix_operator_of(operator)->0]
            + operand_tokens + seq![TokenView::Rparen] + token_stream(
            input,
            at + 3 + operand.len(),
        ),
{
    reveal_strlit("(");
    reveal_strlit(")");
    reveal_strlit("!");
    reveal_strlit("-");
    assert("("@ + operator + (operand + ")"@) == "("@ + operator + operand + ")"@);
    lemma_part_stands(input, at, "("@, operator, operand + ")"@);
    lemma_part_stands(input, at, "("@ + operator, operand, ")"@);
    assert(input[at] == '(') by {
        assert("("@[0] == '(');
    }
    assert(input[at + 2] == operand[0]) by {
        assert(input.subrange(at + 2, at + 2 + operand.len())[0] == operand[0]);
    }
    assert(input[at + 2 + operand.len()] == ')') by {
        assert(")"@[0] == ')');
    }
    lemma_parenthesis_is_read(input, at);
    lemma_prefix_operator_is_read(input, at + 1, operator);
    lemma_parenthesis_is_read(input, at + 2 + operand.len());
}

/// The texts of two operands with a binary operator between them, all
/// between parentheses, are read as the tokens of the parentheses, the
/// operands and the operator, if each operand's text is read as that
/// operand's tokens.
pub proof fn lemma_binary_is_read(
    input: Seq<char>,
    at: int,
    left: Seq<char>,
    left_tokens: Seq<TokenView>,
    operator: Seq<char>,
    right: Seq<char>,
    right_tokens: Seq<TokenView>,
)
    requires
        0 <= at,
        binary_operator_of(operator) is Some,
        at + 4 + left.len() + operator.len() + right.len() <= input.len(),
        input.subrange(at, at + 4 + left.len() + operator.len() + right.len()) == "("@ + left
            + " "@ + operator + " "@ + right + ")"@,
        token_stream(input, at + 1) == left_tokens + token_stream(input, at + 1 + left.len()),
        token_stream(input, at + 3 + left.len() + operator.len()) == right_tokens
            + token_stream(input, at + 3 + left.len() + operator.len() + right.len()),
    ensures
        token_stream(input, at) == seq![TokenView::Lparen] + left_tokens + seq![
            binary_operator_of(operator)->0,
        ] + right_tokens + seq![TokenView::Rparen] + token_stream(
            input,
            at + 4 + left.len() + operator.len() + right.len(),
        ),
{
    reveal_strlit("(");
    reveal_strlit(")");
    reveal_strlit(" ");
    let whole = "("@ + left + " "@ + operator + " "@ + right + ")"@;
    let symbol_at = at + 2 + left.len();
    let right_at = symbol_at + operator.len() + 1;
    let close_at = right_at + right.len();
    assert(whole == "("@ + left + (" "@ + operator + " "@ + right + ")"@));
    lemma_part_stands(input, at, "("@, left, " "@ + operator + " "@ + right + ")"@);
    assert(whole == ("("@ + left + " "@) + operator + (" "@ + right + ")"@));
    lemma_part_stands(input, at, "("@ + left + " "@, operator, " "@ + right + ")"@);
    assert(whole == ("("@ + left + " "@ + operator + " "@) + right + ")"@);
    lemma_part_stands(input, at, "("@ + left + " "@ + operator + " "@, right, ")"@);
    assert(input[at] == '(') by {
        assert("("@[0] == '(');
    }
    assert(input[symbol_at - 1] == ' ') by {
        assert((" "@ + operator + " "@ + right + ")"@)[0] == ' ');
    }
    assert(input[right_at - 1] == ' ') by {
        assert((" "@ + right + ")"@)[0] == ' ');
    }
    assert(input[close_at] == ')') by {
        assert(")"@[0] == ')');
    }
    lemma_parenthesis_is_read(input, at);
    lemma_blank_is_passed(input, symbol_at - 1);
    lemma_binary_operator_is_read(input, symbol_at, operator);
    lemma_blank_is_passed(input, right_at - 1);
    lemma_parenthesis_is_read(input, close_at);
}

/// The canonical text of a plain expression is read as the tokens of that
/// expression, wherever it stands in front of the end of the text or of a
/// character that is neither a letter nor a digit.
pub proof fn lemma_plain_is_read(input: Seq<char>, at: int, expression: ExpressionView)
    requires
        plain(expression),
        0 <= at,
        at + render_expression(expression).len() <= input.len(),
        input.subrange(at, at + render_expression(expression).len()) == render_expression(
            expression,
        ),
        token_ends(input, at + render_expression(expression).len()),
    ensures
        token_stream(input, at) == tokens_of(expression) + token_stream(
            input,
            at + render_expression(expression).len(),
        ),
    decreases expression,
{
    let text = render_expression(expression);
    match expression {
        ExpressionView::Identifier { token, value } => {
            lemma_word_is_read(input, at, value);
        },
        ExpressionView::IntegerLiteral { token, value } => {
            lemma_decimal_digits(value as nat);
            lemma_number_is_read(input, at, decimal(value));
        },
        ExpressionView::Boolean { token, value } => {
            reveal_strlit("true");
            reveal_strlit("false");
            reveal_strlit("fn");
            reveal_strlit("let");
            reveal_strlit("return");
            lemma_word_is_read(input, at, text);
        },
        ExpressionView::Prefix { token, operator, right } => {
            reveal_strlit("(");
            reveal_strlit(")");
            reveal_strlit("!");
            reveal_strlit("-");
            let operand = render_expression(*right);
            lemma_plain_text_starts(*right);
            lemma_part_stands(input, at, "("@ + operator, operand, ")"@);
            assert(input[at + 2 + operand.len()] == ')') by {
                assert(")"@[0] == ')');
            }
            lemma_plain_is_read(input, at + 2, *right);
            lemma_unary_is_read(input, at, operator, operand, tokens_of(*right));
        },
        ExpressionView::Infix { token, left, operator, right } => {
            reveal_strlit("(");
            reveal_strlit(")");
            reveal_strlit(" ");
            let first = render_expression(*left);
            let second = render_expression(*right);
            lemma_binary_operator_length(operator);
            assert(text == "("@ + first + (" "@ + operator + " "@ + second + ")"@));
            lemma_part_stands(input, at, "("@, first, " "@ + operator + " "@ + second + ")"@);
            assert(text == ("("@ + first + " "@ + operator + " "@) + second + ")"@);
            lemma_part_stands(input, at, "("@ + first + " "@ + operator + " "@, second, ")"@);
            assert(input[at + 1 + first.len()] == ' ') by {
                assert((" "@ + operator + " "@ + second + ")"@)[0] == ' ');
            }
            assert(input[at + 3 + first.len() + operator.len() + second.len()] == ')') by {
                assert(")"@[0] == ')');
            }
            lemma_plain_is_read(input, at + 1, *left);
            lemma_plain_is_read(input, at + 3 + first.len() + operator.len(), *right);
            lemma_binary_is_read(
                input,
                at,
                first,
                tokens_of(*left),
                operator,
                second,
                tokens_of(*right),
            );
        },
        _ => {},
    }
}

/// A binary operator is spelled with one or two characters.
pub proof fn lemma_binary_operator_length(operator: Seq<char>)
    requires
        binary_operator_of(operator) is Some,
    ensures
        1 <= operator.len() <= 2,
{
    reveal_strlit("+");
    reveal_strlit("-");
    reveal_strlit("*");
    reveal_strlit("/");
    reveal_strlit("<");
    reveal_strlit(">");
    reveal_strlit("==");
    reveal_strlit("!=");
}

/// A text that one token takes up from its start to its end is read as
/// that token alone.
pub proof fn lemma_text_is_one_token(text: Seq<char>, token: TokenView)
    requires
        text.len() > 0,
        !in_class(CharClass::Blank, text[0]),
        token_at(text, 0) == (Lexed { token, next: text.len() as int }),
    ensures
        token_stream(text, 0) == seq![token],
{
    lemma_token_starts_here(text, 0);
    lemma_eof_repeats(text);
    lemma_token_stream_unfolds(text, text.len() as int);
}

/// The literal text of an operator or a punctuation mark is read back as
/// that token alone.
pub proof fn lemma_mark_is_read_back(token: TokenView)
    requires
        token is Assign || token is Plus || token is Minus || token is Bang || token is Asterisk
            || token is Slash || token is Lt || token is Gt || token is Comma
            || token is Semicolon || token is Lparen || token is Rparen || token is Lbrace
            || token is Rbrace || token is Eq || token is NotEq,
    ensures
        token_stream(token.literal(), 0) == seq![token],
{
    reveal_strlit("=");
    reveal_strlit("+");
    reveal_strlit("-");
    reveal_strlit("!");
    reveal_strlit("*");
    reveal_strlit("/");
    reveal_strlit("<");
    reveal_strlit(">");
    reveal_strlit(",");
    reveal_strlit(";");
    reveal_strlit("(");
    reveal_strlit(")");
    reveal_strlit("{");
    reveal_strlit("}");
    reveal_strlit("==");
    reveal_strlit("!=");
    let text = token.literal();
    assert(text.len() == 1 || text.len() == 2);
    lemma_text_is_one_token(text, token);
}

/// The literal text of a keyword is read back as that keyword alone.
pub proof fn lemma_keyword_is_read_back(token: TokenView)
    requires
        token is Let || token is Function || token is True || token is False || token is If
            || token is Else || token is Return,
    ensures
        token_stream(token.literal(), 0) == seq![token],
{
    reveal_strlit("fn");
    reveal_strlit("let");
    reveal_strlit("return");
    reveal_strlit("true");
    reveal_strlit("false");
    reveal_strlit("if");
    reveal_strlit("else");
    let text = token.literal();
    assert(text.len() >= 2);
    assert(text.subrange(0, text.len() as int) == text);
    lemma_word_is_read(text, 0, text);
    lemma_eof_repeats(text);
    lemma_token_stream_unfolds(text, text.len() as int);
    assert(keyword_or_ident(text) == token);
}

/// The literal text of a token is read back as that token alone: of every
/// token that a tokenizer hands out but the one for an unknown character,
/// whose literal text is empty.
pub proof fn lemma_literal_is_read_back(token: TokenView)
    requires
        proper_token(token),
        !(token is Illegal),
    ensures
        token_stream(token.literal(), 0) == seq![token],
{
    let text = token.literal();
    match token {
        TokenView::Ident(word) => {
            assert(text.subrange(0, text.len() as int) == text);
            lemma_word_is_read(text, 0, text);
            lemma_eof_repeats(text);
            lemma_token_stream_unfolds(text, text.len() as int);
        },
        TokenView::Int(digits) => {
            assert(text.subrange(0, text.len() as int) == text);
            lemma_number_is_read(text, 0, text);
            lemma_eof_repeats(text);
            lemma_token_stream_unfolds(text, text.len() as int);
        },
        TokenView::Let => lemma_keyword_is_read_back(token),
        TokenView::Function => lemma_keyword_is_read_back(token),
        TokenView::True => lemma_keyword_is_read_back(token),
        TokenView::False => lemma_keyword_is_read_back(token),
        TokenView::If => lemma_keyword_is_read_back(token),
        TokenView::Else => lemma_keyword_is_read_back(token),
        TokenView::Return => lemma_keyword_is_read_back(token),
        _ => lemma_mark_is_read_back(token),
    }
}

} // verus!
