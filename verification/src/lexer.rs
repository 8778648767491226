//! The tokenizer: a cursor over the source text that hands out one token at a
//! time, and the mathematical account of the tokens it hands out.

use vstd::prelude::*;
use vstd::string::StrSliceExecFns;
use vstd::string::StringExecFns;
use crate::text::{all_in_class, in_class, CharClass};
use crate::token::{keyword_or_ident, lookup_ident, Token, TokenView};

verus! {

/// The end of the longest run of characters of `class` that starts at `from`:
/// the first position at or after `from` whose character is not of the class,
/// or the length of `input` when there is none.
pub open spec fn run_end(class: CharClass, input: Seq<char>, from: int) -> int
    decreases input.len() - from,
{
    if 0 <= from < input.len() && in_class(class, input[from]) {
        run_end(class, input, from + 1)
    } else {
        from
    }
}

/// What one step of the tokenizer yields: a token and the position behind it.
pub struct Lexed {
    pub token: TokenView,
    pub next: int,
}

/// The token spelled by the single character `c`, for the characters that
/// are a token by themselves whatever follows them.
pub open spec fn punctuation(c: char) -> Option<TokenView> {
    if c == '-' {
        Some(TokenView::Minus)
    } else if c == '+' {
        Some(TokenView::Plus)
    } else if c == ';' {
        Some(TokenView::Semicolon)
    } else if c == '(' {
        Some(TokenView::Lparen)
    } else if c == ')' {
        Some(TokenView::Rparen)
    } else if c == '{' {
        Some(TokenView::Lbrace)
    } else if c == '}' {
        Some(TokenView::Rbrace)
    } else if c == ',' {
        Some(TokenView::Comma)
    } else if c == '<' {
        Some(TokenView::Lt)
    } else if c == '>' {
        Some(TokenView::Gt)
    } else if c == '*' {
        Some(TokenView::Asterisk)
    } else if c == '/' {
        Some(TokenView::Slash)
    } else {
        None
    }
}

/// The token that starts at `at`, a position of `input` that holds no blank,
/// and the position behind that token.
pub open spec fn token_at(input: Seq<char>, at: int) -> Lexed
    recommends
        0 <= at < input.len(),
{
    let c = input[at];
    let followed_by_equals = at + 1 < input.len() && input[at + 1] == '=';
    if punctuation(c) is Some {
        Lexed { token: punctuation(c)->0, next: at + 1 }
    } else if c == '=' {
        if followed_by_equals {
            Lexed { token: TokenView::Eq, next: at + 2 }
        } else {
            Lexed { token: TokenView::Assign, next: at + 1 }
        }
    } else if c == '!' {
        if followed_by_equals {
            Lexed { token: TokenView::NotEq, next: at + 2 }
        } else {
            Lexed { token: TokenView::Bang, next: at + 1 }
        }
    } else if in_class(CharClass::Letter, c) {
        let end = run_end(CharClass::Letter, input, at);
        Lexed { token: keyword_or_ident(input.subrange(at, end)), next: end }
    } else if in_class(CharClass::Digit, c) {
        let end = run_end(CharClass::Digit, input, at);
        Lexed { token: TokenView::Int(input.subrange(at, end)), next: end }
    } else {
        Lexed { token: TokenView::Illegal, next: at + 1 }
    }
}

/// One step of the tokenizer from position `from`: blanks are passed over,
/// then comes the token found there, or `Eof` at the end of the input.
pub open spec fn lex_step(input: Seq<char>, from: int) -> Lexed {
    let at = run_end(CharClass::Blank, input, from);
    if 0 <= at < input.len() {
        token_at(input, at)
    } else {
        Lexed { token: TokenView::Eof, next: at }
    }
}

/// All the tokens of `input` from position `from` on, without the final `Eof`.
pub open spec fn token_stream(input: Seq<char>, from: int) -> Seq<TokenView>
    decreases input.len() - from,
{
    let step = lex_step(input, from);
    if step.token is Eof || !(from < step.next <= input.len()) {
        Seq::empty()
    } else {
        seq![step.token] + token_stream(input, step.next)
    }
}

/// A run ends at or behind its start, and within the text when it starts
/// there; no character of the run's class stands at its end, and every
/// character before the end is of the class.
pub proof fn lemma_run_end(class: CharClass, input: Seq<char>, from: int)
    requires
        0 <= from <= input.len(),
    ensures
        from <= run_end(class, input, from) <= input.len(),
        run_end(class, input, from) < input.len() ==> !in_class(
            class,
            input[run_end(class, input, from)],
        ),
        forall|i: int| from <= i < run_end(class, input, from) ==> in_class(class, #[trigger] input[i]),
    decreases input.len() - from,
{
    if from < input.len() && in_class(class, input[from]) {
        lemma_run_end(class, input, from + 1);
    }
}

/// A step of the tokenizer from inside the text ends inside the text, and
/// behind its start unless it yields `Eof`.
pub proof fn lemma_lex_step_advances(input: Seq<char>, from: int)
    requires
        0 <= from <= input.len(),
    ensures
        from <= lex_step(input, from).next <= input.len(),
        !(lex_step(input, from).token is Eof) ==> from < lex_step(input, from).next,
        lex_step(input, from).token is Eof ==> lex_step(input, from).next == input.len(),
{
    let at = run_end(CharClass::Blank, input, from);
    lemma_run_end(CharClass::Blank, input, from);
    if at < input.len() {
        lemma_run_end(CharClass::Letter, input, at);
        lemma_run_end(CharClass::Digit, input, at);
        lemma_keyword_or_ident_is_no_eof(input.subrange(at, run_end(CharClass::Letter, input, at)));
    }
}

/// At the end of the text every step yields `Eof` and stays there.
pub proof fn lemma_eof_repeats(input: Seq<char>)
    ensures
        lex_step(input, input.len() as int) == (Lexed {
            token: TokenView::Eof,
            next: input.len() as int,
        }),
{
}

/// The tokens from a position on are the token of the next step and the
/// tokens behind it, unless that step yields `Eof`: then none is left, there
/// or behind it.
pub proof fn lemma_token_stream_unfolds(input: Seq<char>, from: int)
    requires
        0 <= from <= input.len(),
    ensures
        from <= lex_step(input, from).next <= input.len(),
        lex_step(input, from).token is Eof ==> token_stream(input, from) == Seq::<
            TokenView,
        >::empty() && token_stream(input, lex_step(input, from).next) == Seq::<TokenView>::empty(),
        !(lex_step(input, from).token is Eof) ==> token_stream(input, from) == seq![
            lex_step(input, from).token,
        ] + token_stream(input, lex_step(input, from).next),
        token_stream(input, from).len() == 0 ==> lex_step(input, from).token is Eof,
{
    lemma_lex_step_advances(input, from);
    if lex_step(input, from).token is Eof {
        lemma_run_end(CharClass::Blank, input, input.len() as int);
    }
}

/// What holds of every token that a tokenizer hands out before the end of
/// its text: it is no `Eof`; an identifier is a non-empty run of letters
/// that spells no keyword; an integer literal is a non-empty run of digits.
pub open spec fn proper_token(token: TokenView) -> bool {
    match token {
        TokenView::Eof => false,
        TokenView::Ident(text) => text.len() > 0 && all_in_class(CharClass::Letter, text)
            && keyword_or_ident(text) == token,
        TokenView::Int(text) => text.len() > 0 && all_in_class(CharClass::Digit, text),
        _ => true,
    }
}

/// Whether every token of `tokens` is one that a tokenizer can hand out.
pub open spec fn proper_tokens(tokens: Seq<TokenView>) -> bool {
    forall|i: int| 0 <= i < tokens.len() ==> proper_token(#[trigger] tokens[i])
}

/// The token of a step is `Eof` or one that a tokenizer can hand out.
pub proof fn lemma_lex_step_is_proper(input: Seq<char>, from: int)
    requires
        0 <= from <= input.len(),
    ensures
        lex_step(input, from).token is Eof || proper_token(lex_step(input, from).token),
{
    let at = run_end(CharClass::Blank, input, from);
    lemma_run_end(CharClass::Blank, input, from);
    if at < input.len() {
        let c = input[at];
        if punctuation(c) is None && c != '=' && c != '!' {
            if in_class(CharClass::Letter, c) {
                lemma_run_end(CharClass::Letter, input, at);
                let end = run_end(CharClass::Letter, input, at);
                let word = input.subrange(at, end);
                assert forall|i: int| 0 <= i < word.len() implies in_class(
                    CharClass::Letter,
                    #[trigger] word[i],
                ) by {
                    assert(word[i] == input[at + i]);
                }
            } else if in_class(CharClass::Digit, c) {
                lemma_run_end(CharClass::Digit, input, at);
                let end = run_end(CharClass::Digit, input, at);
                let digits = input.subrange(at, end);
                assert forall|i: int| 0 <= i < digits.len() implies in_class(
                    CharClass::Digit,
                    #[trigger] digits[i],
                ) by {
                    assert(digits[i] == input[at + i]);
                }
            }
        }
    }
}

/// Every token that a tokenizer hands out before the end of its text is a
/// proper one.
pub proof fn lemma_token_stream_is_proper(input: Seq<char>, from: int)
    requires
        0 <= from <= input.len(),
    ensures
        proper_tokens(token_stream(input, from)),
    decreases input.len() - from,
{
    let step = lex_step(input, from);
    lemma_lex_step_advances(input, from);
    lemma_lex_step_is_proper(input, from);
    if !(step.token is Eof) {
        lemma_token_stream_is_proper(input, step.next);
        let rest = token_stream(input, step.next);
        let all = token_stream(input, from);
        assert forall|i: int| 0 <= i < all.len() implies proper_token(#[trigger] all[i]) by {
            if i > 0 {
                assert(all[i] == rest[i - 1]);
            }
        }
    }
}

/// A word is never the end of the input.
pub proof fn lemma_keyword_or_ident_is_no_eof(word: Seq<char>)
    ensures
        !(keyword_or_ident(word) is Eof),
        !(keyword_or_ident(word) is Illegal),
{
}

/// The mathematical model of a [`Lexer`]: the text and the cursor in it.
pub struct LexerView {
    pub input: Seq<char>,
    pub position: int,
}

/// A cursor over a source text.
#[derive(Debug)]
pub struct Lexer {
    input: String,
    length: usize,
    position: usize,
}

impl View for Lexer {
    type V = LexerView;

    /// The text and the cursor. The length that the tokenizer keeps beside
    /// them is that of the text, so the model has no place for it.
    closed spec fn view(&self) -> LexerView {
        LexerView { input: self.input@, position: self.position as int }
    }
}

impl Default for Lexer {
    /// A tokenizer on the empty text.
    fn default() -> (lexer: Self)
        ensures
            lexer@.input == Seq::<char>::empty(),
            lexer@.position == 0,
    {
        Lexer { input: String::new(), length: 0, position: 0 }
    }
}

impl Lexer {
    #[verifier::type_invariant]
    spec fn cursor_in_text(self) -> bool {
        self.length == self.input@.len() && self.position <= self.length
    }

    /// A tokenizer at the start of `input`.
    pub fn new(input: &str) -> (lexer: Self)
        ensures
            lexer@.input == input@,
            lexer@.position == 0,
    {
        Lexer { input: String::from_str(input), length: input.unicode_len(), position: 0 }
    }

    /// The character under the cursor, or `None` at the end of the text.
    fn current(&self) -> (ch: Option<char>)
        ensures
            0 <= self@.position <= self@.input.len(),
            ch == if self@.position < self@.input.len() {
                Some(self@.input[self@.position])
            } else {
                None
            },
    {
        proof {
            use_type_invariant(self);
        }
        if self.position < self.length {
            Some(self.input.as_str().get_char(self.position))
        } else {
            None
        }
    }

    /// The character behind the one under the cursor, or NUL where there is
    /// none.
    pub fn peek_char(&self) -> (c: char)
        ensures
            c == if self@.position + 1 < self@.input.len() {
                self@.input[self@.position + 1]
            } else {
                '\0'
            },
    {
        proof {
            use_type_invariant(self);
        }
        if self.position < self.length && self.position + 1 < self.length {
            self.input.as_str().get_char(self.position + 1)
        } else {
            '\0'
        }
    }

    /// Moves the cursor one character on; at the end of the text it stays.
    pub fn read_char(&mut self)
        ensures
            final(self)@.input == old(self)@.input,
            final(self)@.position == if old(self)@.position < old(self)@.input.len() {
                old(self)@.position + 1
            } else {
                old(self)@.position
            },
    {
        proof {
            use_type_invariant(&*self);
        }
        if self.position < self.length {
            self.position = self.position + 1;
        }
    }

    /// Whether `ch` is an ASCII letter or the underscore.
    fn is_letter(ch: char) -> (yes: bool)
        ensures
            yes == in_class(CharClass::Letter, ch),
    {
        ('a' <= ch && ch <= 'z') || ('A' <= ch && ch <= 'Z') || ch == '_'
    }

    /// Whether `ch` is an ASCII digit.
    fn is_digit(ch: char) -> (yes: bool)
        ensures
            yes == in_class(CharClass::Digit, ch),
    {
        '0' <= ch && ch <= '9'
    }

    /// Moves the cursor over blanks to the next character that is none.
    pub fn skip_whitespace(&mut self)
        ensures
            final(self)@.input == old(self)@.input,
            final(self)@.position == run_end(
                CharClass::Blank,
                old(self)@.input,
                old(self)@.position,
            ),
    {
        loop
            invariant
                self@.input == old(self)@.input,
                run_end(CharClass::Blank, self@.input, self@.position) == run_end(
                    CharClass::Blank,
                    old(self)@.input,
                    old(self)@.position,
                ),
            ensures
                self@.input == old(self)@.input,
                self@.position == run_end(
                    CharClass::Blank,
                    old(self)@.input,
                    old(self)@.position,
                ),
            decreases self@.input.len() - self@.position,
        {
            match self.current() {
                Some(ch) => {
                    if ch != ' ' && ch != '\t' && ch != '\n' && ch != '\r' {
                        break ;
                    }
                    self.read_char();
                },
                None => {
                    break ;
                },
            }
        }
    }

    /// Reads the run of digits under the cursor and leaves the cursor behind
    /// it.
    fn read_number(&mut self) -> (digits: String)
        ensures
            final(self)@.input == old(self)@.input,
            final(self)@.position == run_end(
                CharClass::Digit,
                old(self)@.input,
                old(self)@.position,
            ),
            digits@ == old(self)@.input.subrange(old(self)@.position, final(self)@.position),
    {
        proof {
            use_type_invariant(&*self);
        }
        let start = self.position;
        loop
            invariant
                self@.input == old(self)@.input,
                start == old(self)@.position,
                start <= self@.position <= self@.input.len(),
                run_end(CharClass::Digit, self@.input, self@.position) == run_end(
                    CharClass::Digit,
                    old(self)@.input,
                    old(self)@.position,
                ),
            ensures
                self@.input == old(self)@.input,
                start <= self@.position <= self@.input.len(),
                self@.position == run_end(
                    CharClass::Digit,
                    old(self)@.input,
                    old(self)@.position,
                ),
            decreases self@.input.len() - self@.position,
        {
            match self.current() {
                Some(ch) => {
                    if !Self::is_digit(ch) {
                        break ;
                    }
                    self.read_char();
                },
                None => {
                    break ;
                },
            }
        }
        String::from_str(self.input.as_str().substring_char(start, self.position))
    }

    /// Reads the run of letters under the cursor and leaves the cursor behind
    /// it.
    fn read_identifier(&mut self) -> (word: String)
        ensures
            final(self)@.input == old(self)@.input,
            final(self)@.position == run_end(
                CharClass::Letter,
                old(self)@.input,
                old(self)@.position,
            ),
            word@ == old(self)@.input.subrange(old(self)@.position, final(self)@.position),
    {
        proof {
            use_type_invariant(&*self);
        }
        let start = self.position;
        loop
            invariant
                self@.input == old(self)@.input,
                start == old(self)@.position,
                start <= self@.position <= self@.input.len(),
                run_end(CharClass::Letter, self@.input, self@.position) == run_end(
                    CharClass::Letter,
                    old(self)@.input,
                    old(self)@.position,
                ),
            ensures
                self@.input == old(self)@.input,
                start <= self@.position <= self@.input.len(),
                self@.position == run_end(
                    CharClass::Letter,
                    old(self)@.input,
                    old(self)@.position,
                ),
            decreases self@.input.len() - self@.position,
        {
            match self.current() {
                Some(ch) => {
                    if !Self::is_letter(ch) {
                        break ;
                    }
                    self.read_char();
                },
                None => {
                    break ;
                },
            }
        }
        String::from_str(self.input.as_str().substring_char(start, self.position))
    }

    /// The token that the single character `ch` spells, if it spells one
    /// whatever follows it.
    fn punctuation_token(ch: char) -> (token: Option<Token>)
        ensures
            token is Some == punctuation(ch) is Some,
            token matches Some(t) ==> t@ == punctuation(ch)->0,
    {
        if ch == '-' {
            Some(Token::Minus)
        } else if ch == '+' {
            Some(Token::Plus)
        } else if ch == ';' {
            Some(Token::Semicolon)
        } else if ch == '(' {
            Some(Token::Lparen)
        } else if ch == ')' {
            Some(Token::Rparen)
        } else if ch == '{' {
            Some(Token::Lbrace)
        } else if ch == '}' {
            Some(Token::Rbrace)
        } else if ch == ',' {
            Some(Token::Comma)
        } else if ch == '<' {
            Some(Token::Lt)
        } else if ch == '>' {
            Some(Token::Gt)
        } else if ch == '*' {
            Some(Token::Asterisk)
        } else if ch == '/' {
            Some(Token::Slash)
        } else {
            None
        }
    }

    /// Hands out the next token and moves the cursor behind it. At the end of
    /// the text the token is `Eof`, again and again.
    pub fn next_token(&mut self) -> (token: Token)
        ensures
            final(self)@.input == old(self)@.input,
            token@ == lex_step(old(self)@.input, old(self)@.position).token,
            final(self)@.position == lex_step(old(self)@.input, old(self)@.position).next,
            0 <= old(self)@.position <= final(self)@.position <= final(self)@.input.len(),
            token@ is Eof ==> final(self)@.position == final(self)@.input.len(),
    {
        proof {
            use_type_invariant(&*self);
            lemma_lex_step_advances(self@.input, self@.position);
        }
        self.skip_whitespace();
        let ch = match self.current() {
            Some(ch) => ch,
            None => {
                return Token::Eof;
            },
        };
        if let Some(token) = Self::punctuation_token(ch) {
            self.read_char();
            token
        } else if ch == '=' {
            if self.peek_char() == '=' {
                self.read_char();
                self.read_char();
                Token::Eq
            } else {
                self.read_char();
                Token::Assign
            }
        } else if ch == '!' {
            if self.peek_char() == '=' {
                self.read_char();
                self.read_char();
                Token::NotEq
            } else {
                self.read_char();
                Token::Bang
            }
        } else if Self::is_letter(ch) {
            let word = self.read_identifier();
            lookup_ident(word.as_str())
        } else if Self::is_digit(ch) {
            Token::Int(self.read_number())
        } else {
            self.read_char();
            Token::Illegal
        }
    }
}

} // verus!
