//! Texts that are `let` statements throughout: what such a text is parsed
//! into, said from the names and values that it binds and the blanks that
//! it is laid out with.

use vstd::prelude::*;
use crate::ast::{render_expression, ExpressionView, IdentifierView, StatementView};
use crate::grammar::{parse_prefix, parse_program, start_on, Parsed, ParserView};
use crate::lexer::{lemma_eof_repeats, lemma_token_stream_unfolds, proper_token, token_stream};
use crate::parser::Precedence;
use crate::relex::{
    lemma_blank_is_passed, lemma_number_is_read, lemma_plain_is_read, lemma_plain_text_starts,
    lemma_token_starts_here, lemma_word_is_read,
};
use crate::round_trip::{
    after, lemma_after, lemma_expression_is_its_start, lemma_parse_plain,
    lemma_reparsed_renders_alike, lemma_tokens_of, plain, reparsed, tokens_of,
};
use crate::statements::{
    behind_let_statement, binds, lemma_let_statement, let_statement_at, let_statements,
    let_value,
};
use crate::text::{
    all_in_class, in_class, lemma_literal_of_decimal, lemma_part_stands, literal_value,
    CharClass,
};
use crate::token::{keyword_or_ident, TokenView};

verus! {

/// The blanks that a `let` statement is laid out with: those behind `let`,
/// behind the name, behind `=`, behind the value and behind the semicolon.
pub struct Blanks {
    pub after_let: Seq<char>,
    pub after_name: Seq<char>,
    pub after_assign: Seq<char>,
    pub after_value: Seq<char>,
    pub after_semicolon: Seq<char>,
}

impl Blanks {
    /// Whether all of them are blanks, and at least one stands behind
    /// `let`.
    pub open spec fn proper(self) -> bool {
        &&& self.after_let.len() > 0
        &&& all_in_class(CharClass::Blank, self.after_let)
        &&& all_in_class(CharClass::Blank, self.after_name)
        &&& all_in_class(CharClass::Blank, self.after_assign)
        &&& all_in_class(CharClass::Blank, self.after_value)
        &&& all_in_class(CharClass::Blank, self.after_semicolon)
    }

    /// One space behind `let`, the name and `=`, and a line feed behind the
    /// semicolon.
    pub open spec fn one_line() -> Blanks {
        Blanks {
            after_let: seq![' '],
            after_name: seq![' '],
            after_assign: seq![' '],
            after_value: Seq::empty(),
            after_semicolon: seq!['\n'],
        }
    }

    /// One space behind `let`, the name and `=`, and nothing else: as a
    /// statement is rendered.
    pub open spec fn rendered() -> Blanks {
        Blanks {
            after_let: seq![' '],
            after_name: seq![' '],
            after_assign: seq![' '],
            after_value: Seq::empty(),
            after_semicolon: Seq::empty(),
        }
    }
}

/// A `let` statement to be: the name, the value for it, the text that the
/// value is written as, and the blanks between its parts.
pub struct Binding {
    pub name: Seq<char>,
    pub value: ExpressionView,
    pub text: Seq<char>,
    pub blanks: Blanks,
}

impl Binding {
    /// Whether the name is one that the tokenizer reads as an identifier,
    /// the value a plain expression, written as what it is, and the blanks
    /// are blanks.
    pub open spec fn proper(self) -> bool {
        proper_token(TokenView::Ident(self.name)) && plain(self.value) && self.spelled()
            && self.blanks.proper()
    }

    /// Whether the text is one that the value can be written as: its
    /// canonical text or, for a number, any numeral of digits that shows
    /// it.
    pub open spec fn spelled(self) -> bool {
        self.text == render_expression(self.value) || (self.value matches ExpressionView::IntegerLiteral {
            token,
            value,
        } && self.text.len() > 0 && all_in_class(CharClass::Digit, self.text) && literal_value(
            self.text,
        ) == Some(value))
    }

    /// The tokens of the value as it is written.
    pub open spec fn value_tokens(self) -> Seq<TokenView> {
        if self.value is IntegerLiteral {
            seq![TokenView::Int(self.text)]
        } else {
            tokens_of(self.value)
        }
    }

    /// The value as the parser builds it from what is written.
    pub open spec fn written(self) -> ExpressionView {
        match self.value {
            ExpressionView::IntegerLiteral { token, value } => ExpressionView::IntegerLiteral {
                token: TokenView::Int(self.text),
                value,
            },
            _ => reparsed(self.value),
        }
    }

    /// The source text that binds the name to the value: `let`, the name,
    /// `=`, the text of the value and a semicolon, each with its blanks
    /// behind it.
    pub open spec fn line(self) -> Seq<char> {
        "let"@ + self.behind_let()
    }

    /// That text behind `let`.
    pub open spec fn behind_let(self) -> Seq<char> {
        self.blanks.after_let + (self.name + self.behind_name())
    }

    /// That text behind the name.
    pub open spec fn behind_name(self) -> Seq<char> {
        self.blanks.after_name + ("="@ + self.behind_assign())
    }

    /// That text behind `=`.
    pub open spec fn behind_assign(self) -> Seq<char> {
        self.blanks.after_assign + (self.text + self.behind_value())
    }

    /// That text behind the value.
    pub open spec fn behind_value(self) -> Seq<char> {
        self.blanks.after_value + (";"@ + self.blanks.after_semicolon)
    }

    /// Where the name starts in that text.
    pub open spec fn name_at(self) -> int {
        3 + self.blanks.after_let.len() as int
    }

    /// Where `=` stands in that text.
    pub open spec fn assign_at(self) -> int {
        self.name_at() + self.name.len() + self.blanks.after_name.len()
    }

    /// Where the value starts in that text.
    pub open spec fn value_at(self) -> int {
        self.assign_at() + 1 + self.blanks.after_assign.len()
    }

    /// Where the semicolon stands in that text.
    pub open spec fn semicolon_at(self) -> int {
        self.value_at() + self.text.len() + self.blanks.after_value.len()
    }

    /// Whether that text stands at `at` in `input`.
    pub open spec fn stands_at(self, input: Seq<char>, at: int) -> bool {
        &&& self.proper()
        &&& 0 <= at
        &&& at + self.line().len() <= input.len()
        &&& input.subrange(at, at + self.line().len()) == self.line()
    }

    /// The tokens of that text.
    pub open spec fn tokens(self) -> Seq<TokenView> {
        seq![TokenView::Let, TokenView::Ident(self.name), TokenView::Assign]
            + self.value_tokens() + seq![TokenView::Semicolon]
    }

    /// The statement that the line is parsed into.
    pub open spec fn statement(self) -> StatementView {
        StatementView::Let {
            token: TokenView::Let,
            name: Some(IdentifierView { token: TokenView::Ident(self.name), value: self.name }),
            value: Some(self.written()),
        }
    }
}

/// Whether every binding of `bindings` is proper.
pub open spec fn all_proper(bindings: Seq<Binding>) -> bool {
    forall|i: int| 0 <= i < bindings.len() ==> (#[trigger] bindings[i]).proper()
}

/// The source text of `bindings`: their lines in their order.
pub open spec fn lines_of(bindings: Seq<Binding>) -> Seq<char>
    decreases bindings.len(),
{
    if bindings.len() == 0 {
        Seq::empty()
    } else {
        bindings[0].line() + lines_of(bindings.drop_first())
    }
}

/// The tokens of that text.
pub open spec fn tokens_of_lines(bindings: Seq<Binding>) -> Seq<TokenView>
    decreases bindings.len(),
{
    if bindings.len() == 0 {
        Seq::empty()
    } else {
        bindings[0].tokens() + tokens_of_lines(bindings.drop_first())
    }
}

/// A run of blanks in front of the tokens changes nothing about them.
pub proof fn lemma_blanks_are_passed(input: Seq<char>, at: int, blanks: Seq<char>)
    requires
        0 <= at,
        at + blanks.len() <= input.len(),
        input.subrange(at, at + blanks.len()) == blanks,
        all_in_class(CharClass::Blank, blanks),
    ensures
        token_stream(input, at) == token_stream(input, at + blanks.len()),
    decreases blanks.len(),
{
    if blanks.len() > 0 {
        let rest = blanks.drop_first();
        assert(input[at] == blanks[0]);
        assert(input.subrange(at + 1, at + 1 + rest.len()) == rest) by {
            assert forall|i: int| 0 <= i < rest.len() implies input[at + 1 + i] == rest[i] by {
                assert(input[at + 1 + i] == blanks[i + 1]);
            }
        }
        assert(all_in_class(CharClass::Blank, rest)) by {
            assert forall|i: int| 0 <= i < rest.len() implies in_class(
                CharClass::Blank,
                #[trigger] rest[i],
            ) by {
                assert(rest[i] == blanks[i + 1]);
            }
        }
        lemma_blank_is_passed(input, at);
        lemma_blanks_are_passed(input, at + 1, rest);
    }
}

/// Where a piece and what is behind it stand in a text that stands in
/// `input`, the piece stands in `input`, what is behind it stands in the
/// text, and the first character behind the piece is in `input` behind it.
pub proof fn lemma_piece_stands(
    input: Seq<char>,
    at: int,
    text: Seq<char>,
    from: int,
    piece: Seq<char>,
    behind: Seq<char>,
)
    requires
        0 <= at,
        at + text.len() <= input.len(),
        input.subrange(at, at + text.len()) == text,
        0 <= from <= text.len(),
        text.subrange(from, text.len() as int) == piece + behind,
    ensures
        from + piece.len() + behind.len() == text.len(),
        input.subrange(at + from, at + from + piece.len()) == piece,
        text.subrange(from + piece.len(), text.len() as int) == behind,
        behind.len() > 0 ==> input[at + from + piece.len()] == behind[0],
{
    let found = input.subrange(at, at + text.len());
    let tail = text.subrange(from, text.len() as int);
    assert(tail.len() == piece.len() + behind.len());
    assert forall|i: int| 0 <= i < piece.len() implies input[at + from + i] == piece[i] by {
        assert(found[from + i] == text[from + i]);
        assert(tail[i] == text[from + i]);
    }
    assert forall|i: int| 0 <= i < behind.len() implies text[from + piece.len() + i]
        == behind[i] by {
        assert(tail[piece.len() + i] == text[from + piece.len() + i]);
    }
    if behind.len() > 0 {
        assert(found[from + piece.len()] == text[from + piece.len()]);
    }
}

/// Whether a piece of text and the blanks behind it stand at `from` in
/// `text`, with `behind` behind them, and `text` stands at `at` in
/// `input`.
pub open spec fn stands(
    input: Seq<char>,
    at: int,
    text: Seq<char>,
    from: int,
    piece: Seq<char>,
    blanks: Seq<char>,
    behind: Seq<char>,
) -> bool {
    &&& 0 <= at
    &&& at + text.len() <= input.len()
    &&& input.subrange(at, at + text.len()) == text
    &&& 0 <= from <= text.len()
    &&& text.subrange(from, text.len() as int) == piece + (blanks + behind)
    &&& all_in_class(CharClass::Blank, blanks)
}

/// What standing gives: the piece and the blanks stand in `input`, what
/// is behind them stands in `text`, and the character behind the piece is
/// a blank or the first behind the blanks.
pub proof fn lemma_stands(
    input: Seq<char>,
    at: int,
    text: Seq<char>,
    from: int,
    piece: Seq<char>,
    blanks: Seq<char>,
    behind: Seq<char>,
)
    requires
        stands(input, at, text, from, piece, blanks, behind),
    ensures
        from + piece.len() + blanks.len() + behind.len() == text.len(),
        input.subrange(at + from, at + from + piece.len()) == piece,
        input.subrange(
            at + from + piece.len(),
            at + from + piece.len() + blanks.len(),
        ) == blanks,
        text.subrange(from + piece.len() + blanks.len(), text.len() as int) == behind,
        blanks.len() > 0 ==> in_class(CharClass::Blank, input[at + from + piece.len()]),
        blanks.len() == 0 && behind.len() > 0 ==> input[at + from + piece.len()] == behind[0],
        token_stream(input, at + from + piece.len()) == token_stream(
            input,
            at + from + piece.len() + blanks.len(),
        ),
{
    lemma_piece_stands(input, at, text, from, piece, blanks + behind);
    lemma_piece_stands(input, at, text, from + piece.len(), blanks, behind);
    if blanks.len() > 0 {
        assert((blanks + behind)[0] == blanks[0]);
    } else if behind.len() > 0 {
        assert((blanks + behind)[0] == behind[0]);
    }
    lemma_blanks_are_passed(input, at + from + piece.len(), blanks);
}

/// A word with blanks behind it is read as the token of the word.
pub proof fn lemma_word_and_blanks(
    input: Seq<char>,
    at: int,
    text: Seq<char>,
    from: int,
    word: Seq<char>,
    blanks: Seq<char>,
    behind: Seq<char>,
)
    requires
        stands(input, at, text, from, word, blanks, behind),
        word.len() > 0,
        all_in_class(CharClass::Letter, word),
        blanks.len() > 0 || (behind.len() > 0 && !in_class(CharClass::Letter, behind[0])),
    ensures
        token_stream(input, at + from) == seq![keyword_or_ident(word)] + token_stream(
            input,
            at + from + word.len() + blanks.len(),
        ),
        text.subrange(from + word.len() + blanks.len(), text.len() as int) == behind,
{
    lemma_stands(input, at, text, from, word, blanks, behind);
    lemma_word_is_read(input, at + from, word);
}

/// `=` in front of anything but another `=`, and a semicolon, with blanks
/// behind them, are read as their tokens.
pub proof fn lemma_mark_and_blanks(
    input: Seq<char>,
    at: int,
    text: Seq<char>,
    from: int,
    mark: Seq<char>,
    blanks: Seq<char>,
    behind: Seq<char>,
)
    requires
        stands(input, at, text, from, mark, blanks, behind),
        mark.len() == 1,
        mark[0] == ';' || (mark[0] == '=' && (blanks.len() > 0 || (behind.len() > 0
            && behind[0] != '='))),
    ensures
        token_stream(input, at + from) == seq![
            if mark[0] == ';' {
                TokenView::Semicolon
            } else {
                TokenView::Assign
            },
        ] + token_stream(input, at + from + 1 + blanks.len()),
        text.subrange(from + 1 + blanks.len(), text.len() as int) == behind,
{
    lemma_stands(input, at, text, from, mark, blanks, behind);
    assert(input[at + from] == mark[0]) by {
        assert(input.subrange(at + from, at + from + mark.len())[0] == mark[0]);
    }
    lemma_token_starts_here(input, at + from);
}

/// The canonical text of a plain expression with blanks behind it, and
/// neither a letter nor a digit behind those, is read as the tokens of the
/// expression.
pub proof fn lemma_value_and_blanks(
    input: Seq<char>,
    at: int,
    text: Seq<char>,
    from: int,
    value: ExpressionView,
    blanks: Seq<char>,
    behind: Seq<char>,
)
    requires
        stands(input, at, text, from, render_expression(value), blanks, behind),
        plain(value),
        blanks.len() > 0 || (behind.len() > 0 && !(in_class(CharClass::Letter, behind[0])
            || in_class(CharClass::Digit, behind[0]))),
    ensures
        token_stream(input, at + from) == tokens_of(value) + token_stream(
            input,
            at + from + render_expression(value).len() + blanks.len(),
        ),
        text.subrange(
            from + render_expression(value).len() + blanks.len(),
            text.len() as int,
        ) == behind,
{
    lemma_stands(input, at, text, from, render_expression(value), blanks, behind);
    lemma_plain_is_read(input, at + from, value);
}

/// `let` at the front of the text of a binding is read as that keyword.
pub proof fn lemma_let_is_read(input: Seq<char>, at: int, binding: Binding)
    requires
        binding.stands_at(input, at),
    ensures
        token_stream(input, at) == seq![TokenView::Let] + token_stream(
            input,
            at + binding.name_at(),
        ),
        binding.line().subrange(binding.name_at(), binding.line().len() as int) == binding.name
            + binding.behind_name(),
{
    reveal_strlit("let");
    reveal_strlit("fn");
    let line = binding.line();
    assert(line.subrange(0, line.len() as int) == line);
    lemma_word_and_blanks(
        input,
        at,
        line,
        0,
        "let"@,
        binding.blanks.after_let,
        binding.name + binding.behind_name(),
    );
}

/// The name in the text of a binding is read as an identifier.
pub proof fn lemma_name_is_read(input: Seq<char>, at: int, binding: Binding)
    requires
        binding.stands_at(input, at),
        0 <= binding.name_at() <= binding.line().len(),
        binding.line().subrange(binding.name_at(), binding.line().len() as int) == binding.name
            + binding.behind_name(),
    ensures
        token_stream(input, at + binding.name_at()) == seq![TokenView::Ident(binding.name)]
            + token_stream(input, at + binding.assign_at()),
        binding.line().subrange(binding.assign_at(), binding.line().len() as int) == "="@
            + binding.behind_assign(),
{
    reveal_strlit("=");
    let behind = "="@ + binding.behind_assign();
    assert(behind[0] == '=');
    lemma_word_and_blanks(
        input,
        at,
        binding.line(),
        binding.name_at(),
        binding.name,
        binding.blanks.after_name,
        behind,
    );
}

/// `=` in the text of a binding is read as that token.
pub proof fn lemma_assign_is_read(input: Seq<char>, at: int, binding: Binding)
    requires
        binding.stands_at(input, at),
        0 <= binding.assign_at() <= binding.line().len(),
        binding.line().subrange(binding.assign_at(), binding.line().len() as int) == "="@
            + binding.behind_assign(),
    ensures
        token_stream(input, at + binding.assign_at()) == seq![TokenView::Assign] + token_stream(
            input,
            at + binding.value_at(),
        ),
        binding.line().subrange(binding.value_at(), binding.line().len() as int)
            == binding.text + binding.behind_value(),
{
    reveal_strlit("=");
    let behind = binding.text + binding.behind_value();
    lemma_plain_text_starts(binding.value);
    assert(behind[0] == binding.text[0]);
    assert("="@.len() == 1 && "="@[0] == '=');
    lemma_mark_and_blanks(
        input,
        at,
        binding.line(),
        binding.assign_at(),
        "="@,
        binding.blanks.after_assign,
        behind,
    );
}

/// The value in the text of a binding is read as its tokens.
#[verifier::rlimit(40)]
pub proof fn lemma_value_is_read(input: Seq<char>, at: int, binding: Binding)
    requires
        binding.stands_at(input, at),
        0 <= binding.value_at() <= binding.line().len(),
        binding.line().subrange(binding.value_at(), binding.line().len() as int)
            == binding.text + binding.behind_value(),
    ensures
        token_stream(input, at + binding.value_at()) == binding.value_tokens() + token_stream(
            input,
            at + binding.semicolon_at(),
        ),
        binding.line().subrange(binding.semicolon_at(), binding.line().len() as int) == ";"@
            + binding.blanks.after_semicolon,
{
    reveal_strlit(";");
    let behind = ";"@ + binding.blanks.after_semicolon;
    assert(behind[0] == ';');
    if binding.text == render_expression(binding.value) {
        lemma_value_and_blanks(
            input,
            at,
            binding.line(),
            binding.value_at(),
            binding.value,
            binding.blanks.after_value,
            behind,
        );
        if binding.value is IntegerLiteral {
            assert(tokens_of(binding.value) == binding.value_tokens());
        }
    } else {
        lemma_stands(
            input,
            at,
            binding.line(),
            binding.value_at(),
            binding.text,
            binding.blanks.after_value,
            behind,
        );
        lemma_number_is_read(input, at + binding.value_at(), binding.text);
    }
}

/// The semicolon at the end of the text of a binding is read as that
/// token, and the blanks behind it are passed.
pub proof fn lemma_semicolon_is_read(input: Seq<char>, at: int, binding: Binding)
    requires
        binding.stands_at(input, at),
        0 <= binding.semicolon_at() <= binding.line().len(),
        binding.line().subrange(binding.semicolon_at(), binding.line().len() as int) == ";"@
            + binding.blanks.after_semicolon,
    ensures
        token_stream(input, at + binding.semicolon_at()) == seq![TokenView::Semicolon]
            + token_stream(input, at + binding.line().len()),
{
    reveal_strlit(";");
    let blanks = binding.blanks.after_semicolon;
    assert(";"@.len() == 1 && ";"@[0] == ';');
    assert(blanks + Seq::<char>::empty() == blanks);
    lemma_mark_and_blanks(
        input,
        at,
        binding.line(),
        binding.semicolon_at(),
        ";"@,
        blanks,
        Seq::<char>::empty(),
    );
    assert(binding.line().subrange(binding.semicolon_at(), binding.line().len() as int).len()
        == 1 + blanks.len());
}

/// The text of a proper binding is read as the tokens of that binding.
pub proof fn lemma_line_is_read(input: Seq<char>, at: int, binding: Binding)
    requires
        binding.proper(),
        0 <= at,
        at + binding.line().len() <= input.len(),
        input.subrange(at, at + binding.line().len()) == binding.line(),
    ensures
        token_stream(input, at) == binding.tokens() + token_stream(
            input,
            at + binding.line().len(),
        ),
{
    lemma_line_length(binding);
    lemma_let_is_read(input, at, binding);
    lemma_name_is_read(input, at, binding);
    lemma_assign_is_read(input, at, binding);
    lemma_value_is_read(input, at, binding);
    lemma_semicolon_is_read(input, at, binding);
}

/// The parts of the text of a binding stand in it one behind the other.
pub proof fn lemma_line_length(binding: Binding)
    ensures
        binding.line().len() == binding.semicolon_at() + 1
            + binding.blanks.after_semicolon.len(),
        0 <= binding.name_at() <= binding.assign_at() < binding.value_at()
            <= binding.semicolon_at() < binding.line().len(),
{
    reveal_strlit("let");
    reveal_strlit("=");
    reveal_strlit(";");
}

/// The lines of proper bindings are read as the tokens of those bindings.
pub proof fn lemma_lines_are_read(input: Seq<char>, at: int, bindings: Seq<Binding>)
    requires
        all_proper(bindings),
        0 <= at <= input.len(),
        input.subrange(at, input.len() as int) == lines_of(bindings),
    ensures
        token_stream(input, at) == tokens_of_lines(bindings),
    decreases bindings.len(),
{
    if bindings.len() == 0 {
        assert(input.subrange(at, input.len() as int).len() == 0);
        lemma_eof_repeats(input);
        lemma_token_stream_unfolds(input, input.len() as int);
    } else {
        let first = bindings[0];
        let rest = bindings.drop_first();
        let width = first.line().len() as int;
        assert(first.proper());
        assert(all_proper(rest)) by {
            assert forall|i: int| 0 <= i < rest.len() implies (#[trigger] rest[i]).proper() by {
                assert(rest[i] == bindings[i + 1]);
            }
        }
        let whole = input.subrange(at, input.len() as int);
        assert(whole.len() == width + lines_of(rest).len());
        assert(input.subrange(at, at + width) == first.line()) by {
            assert forall|i: int| 0 <= i < width implies input[at + i] == first.line()[i] by {
                assert(whole[i] == first.line()[i]);
            }
        }
        assert(input.subrange(at + width, input.len() as int) == lines_of(rest)) by {
            assert forall|i: int| 0 <= i < lines_of(rest).len() implies input[at + width + i]
                == lines_of(rest)[i] by {
                assert(whole[width + i] == lines_of(rest)[i]);
            }
        }
        lemma_line_is_read(input, at, first);
        lemma_lines_are_read(input, at + width, rest);
    }
}

/// The tokens of the value of a proper binding are parsed into that value
/// as it is written, and the parser stops on the last of them.
pub proof fn lemma_written_is_parsed(state: ParserView, passed: int, binding: Binding)
    requires
        binding.proper(),
        0 <= passed,
        passed + binding.value_tokens().len() <= state.tokens.len(),
        state.tokens.subrange(passed, passed + binding.value_tokens().len())
            == binding.value_tokens(),
    ensures
        binding.value_tokens().len() > 0,
        parse_prefix(after(state, passed), state.tokens[passed]) == (Parsed {
            state: after(state, passed + binding.value_tokens().len() - 1),
            value: Some(binding.written()),
        }),
{
    match binding.value {
        ExpressionView::IntegerLiteral { token, value } => {
            lemma_after(state, passed);
            lemma_literal_of_decimal(value);
            assert(state.tokens[passed] == state.tokens.subrange(passed, passed + 1)[0]);
            assert(literal_value(binding.text) == Some(value));
        },
        _ => {
            lemma_parse_plain(state, passed, binding.value);
        },
    }
}

/// Where the tokens of a proper binding stand, a valid `let` statement
/// stands: its name is the binding's, its value is parsed into the
/// binding's, and behind it the tokens behind the binding's are left.
pub proof fn lemma_binding_is_valid(state: ParserView, passed: int, binding: Binding)
    requires
        binding.proper(),
        0 <= passed,
        passed + binding.tokens().len() <= state.tokens.len(),
        state.tokens.subrange(passed, passed + binding.tokens().len()) == binding.tokens(),
    ensures
        let_statement_at(after(state, passed)),
        after(state, passed).peek() == TokenView::Ident(binding.name),
        let_value(after(state, passed)).value == Some(binding.written()),
        behind_let_statement(after(state, passed)) == after(
            state,
            passed + binding.tokens().len(),
        ),
{
    let opening = seq![TokenView::Let, TokenView::Ident(binding.name), TokenView::Assign];
    let closing = seq![TokenView::Semicolon];
    let inner = binding.value_tokens();
    let width = inner.len() as int;
    lemma_tokens_of(binding.value);
    lemma_part_stands(state.tokens, passed, opening, inner, closing);
    assert(state.tokens[passed] is Let && state.tokens[passed + 1] == TokenView::Ident(
        binding.name,
    ) && state.tokens[passed + 2] is Assign) by {
        assert(opening[0] is Let && opening[1] == TokenView::Ident(binding.name) && opening[2]
            is Assign);
    }
    assert(state.tokens[passed + 3 + width] is Semicolon) by {
        assert(closing[0] is Semicolon);
    }
    lemma_after(state, passed);
    lemma_after(state, passed + 1);
    lemma_after(state, passed + 2);
    lemma_after(state, passed + 3);
    lemma_after(state, passed + 2 + width);
    lemma_after(state, passed + 3 + width);
    lemma_written_is_parsed(state, passed + 3, binding);
    lemma_expression_is_its_start(
        after(state, passed + 3),
        Precedence::Lowest,
        after(state, passed + 2 + width),
        binding.written(),
    );
    if passed + 4 + width < state.tokens.len() {
        lemma_after(state, passed + 4 + width);
    } else {
        assert(after(state, passed + 3 + width).advance().tokens == state.tokens.skip(
            passed + 4 + width,
        ));
    }
}

/// Where the tokens of proper bindings stand and nothing behind them,
/// valid `let` statements stand, one for each binding, and they are parsed
/// into the statements of those bindings.
pub proof fn lemma_bindings_are_parsed(state: ParserView, passed: int, bindings: Seq<Binding>)
    requires
        all_proper(bindings),
        0 <= passed <= state.tokens.len(),
        state.tokens.subrange(passed, state.tokens.len() as int) == tokens_of_lines(bindings),
    ensures
        let_statements(after(state, passed), bindings.len()),
        parse_program(after(state, passed)).value == Seq::new(
            bindings.len(),
            |i: int| bindings[i].statement(),
        ),
        parse_program(after(state, passed)).state.errors == state.errors,
    decreases bindings.len(),
{
    let here = after(state, passed);
    let expected = Seq::new(bindings.len(), |i: int| bindings[i].statement());
    if bindings.len() == 0 {
        assert(here.tokens.len() == 0);
        assert(parse_program(here).value == expected);
    } else {
        let first = bindings[0];
        let rest = bindings.drop_first();
        let width = first.tokens().len() as int;
        assert(first.proper());
        assert(all_proper(rest)) by {
            assert forall|i: int| 0 <= i < rest.len() implies (#[trigger] rest[i]).proper() by {
                assert(rest[i] == bindings[i + 1]);
            }
        }
        let whole = state.tokens.subrange(passed, state.tokens.len() as int);
        assert(whole.len() == width + tokens_of_lines(rest).len());
        assert(state.tokens.subrange(passed, passed + width) == first.tokens()) by {
            assert forall|i: int| 0 <= i < width implies state.tokens[passed + i]
                == first.tokens()[i] by {
                assert(whole[i] == first.tokens()[i]);
            }
        }
        assert(state.tokens.subrange(passed + width, state.tokens.len() as int)
            == tokens_of_lines(rest)) by {
            assert forall|i: int| 0 <= i < tokens_of_lines(rest).len() implies state.tokens[passed
                + width + i] == tokens_of_lines(rest)[i] by {
                assert(whole[width + i] == tokens_of_lines(rest)[i]);
            }
        }
        lemma_binding_is_valid(state, passed, first);
        lemma_bindings_are_parsed(state, passed + width, rest);
        lemma_first_statement(here, first, after(state, passed + width));
        let later = Seq::new(rest.len(), |i: int| rest[i].statement());
        assert(expected == seq![first.statement()] + later) by {
            assert forall|i: int| 0 <= i < expected.len() implies expected[i] == (seq![
                first.statement(),
            ] + later)[i] by {
                if i > 0 {
                    assert(rest[i - 1] == bindings[i]);
                }
            }
        }
    }
}

/// A valid `let` statement at the front of a program is the first
/// statement that the program is parsed into, and the others are those of
/// the program behind it.
pub proof fn lemma_first_statement(state: ParserView, binding: Binding, behind: ParserView)
    requires
        let_statement_at(state),
        state.peek() == TokenView::Ident(binding.name),
        let_value(state).value == Some(binding.written()),
        behind_let_statement(state) == behind,
        behind.tokens.len() < state.tokens.len(),
    ensures
        parse_program(state).value == seq![binding.statement()] + parse_program(behind).value,
        parse_program(state).state == parse_program(behind).state,
        behind.errors == state.errors,
{
    lemma_let_statement(state);
    assert(state.advance().cur() == state.peek());
}

/// The value of a proper binding as the parser builds it has the
/// canonical text of the value.
pub proof fn lemma_written_renders_alike(binding: Binding)
    requires
        binding.proper(),
    ensures
        render_expression(binding.written()) == render_expression(binding.value),
{
    lemma_reparsed_renders_alike(binding.value);
}

/// A text of `let` statements, whatever blanks it is laid out with, is
/// parsed into one `let` statement for each, in their order: the statement
/// at each place binds the name written at that place, which is not empty,
/// to the value written there, and that value has the canonical text of
/// what was written. No error is recorded.
pub proof fn lemma_let_lines(bindings: Seq<Binding>)
    requires
        all_proper(bindings),
    ensures
        let_statements(start_on(lines_of(bindings)), bindings.len()),
        parse_program(start_on(lines_of(bindings))).value == Seq::new(
            bindings.len(),
            |i: int| bindings[i].statement(),
        ),
        parse_program(start_on(lines_of(bindings))).value.len() == bindings.len(),
        parse_program(start_on(lines_of(bindings))).state.errors.len() == 0,
        forall|i: int|
            0 <= i < bindings.len() ==> binds(
                #[trigger] parse_program(start_on(lines_of(bindings))).value[i],
                bindings[i].name,
            ) && bindings[i].name.len() > 0 && render_expression(bindings[i].written())
                == render_expression(bindings[i].value),
{
    let text = lines_of(bindings);
    let start = start_on(text);
    assert(text.subrange(0, text.len() as int) == text);
    lemma_lines_are_read(text, 0, bindings);
    assert(start.tokens.subrange(0, start.tokens.len() as int) == start.tokens);
    lemma_bindings_are_parsed(start, 0, bindings);
    assert(after(start, 0) == start) by {
        assert(start.tokens.skip(0) == start.tokens);
    }
    assert forall|i: int| 0 <= i < bindings.len() implies binds(
        #[trigger] parse_program(start).value[i],
        bindings[i].name,
    ) && bindings[i].name.len() > 0 && render_expression(bindings[i].written())
        == render_expression(bindings[i].value) by {
        assert(bindings[i].proper());
        lemma_written_renders_alike(bindings[i]);
    }
}

} // verus!
