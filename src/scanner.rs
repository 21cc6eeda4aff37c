//! The scanner: turns source text into tokens in one left-to-right pass.

use crate::error::{error, report_text};
use crate::keyword::{keyword, keyword_type};
use crate::literal::{Literal, Value};
use crate::number::{all_digits, decimal_double, is_decimal_digit, is_digit, is_numeral, parse_numeral};
use crate::token::{Token, TokenType, TokenView};
use vstd::prelude::*;

verus! {

/// Unicode's Alphabetic property.
pub uninterp spec fn alphabetic(c: char) -> bool;

/// Unicode's Alphabetic or Numeric property.
pub uninterp spec fn alphanumeric(c: char) -> bool;

/// Relies on `char::is_alphabetic`, which depends on the character alone.
#[verifier::external_body]
fn is_alpha(c: char) -> (r: bool)
    ensures
        r == alphabetic(c),
{
    c.is_alphabetic()
}

/// Relies on `char::is_alphanumeric`, which depends on the character alone.
#[verifier::external_body]
fn is_alnum(c: char) -> (r: bool)
    ensures
        r == alphanumeric(c),
{
    c.is_alphanumeric()
}

/// Relies on `str::chars`: the characters of the text, in order.
#[verifier::external_body]
fn chars_of(s: &str) -> (r: Vec<char>)
    ensures
        r@ == s@,
{
    s.chars().collect()
}

/// The classes of characters that the scanner consumes in runs.
pub enum CharClass {
    Digit,
    Word,
    NotQuote,
    NotNewline,
}

pub open spec fn in_class(k: CharClass, c: char) -> bool {
    match k {
        CharClass::Digit => is_decimal_digit(c),
        CharClass::Word => alphanumeric(c),
        CharClass::NotQuote => c != '"',
        CharClass::NotNewline => c != '\n',
    }
}

/// Where a run of characters of class `k` that starts at `i` ends.
pub open spec fn run_end(src: Seq<char>, i: int, k: CharClass) -> int
    decreases src.len() - i,
{
    if i < 0 || i >= src.len() || !in_class(k, src[i]) {
        i
    } else {
        run_end(src, i + 1, k)
    }
}

/// How many line breaks a text holds.
pub open spec fn newlines(s: Seq<char>) -> nat
    decreases s.len(),
{
    if s.len() == 0 {
        0
    } else {
        newlines(s.drop_last()) + if s.last() == '\n' {
            1nat
        } else {
            0nat
        }
    }
}

/// What one step of the scanner does: where it stops, the line it is on
/// then, and the token and the diagnostic it produces, if any.
pub struct ScanStep {
    pub end: int,
    pub line: nat,
    pub token: Option<TokenView>,
    pub error: Option<Seq<char>>,
}

pub open spec fn next_is(src: Seq<char>, i: int, c: char) -> bool {
    0 <= i < src.len() && src[i] == c
}

pub open spec fn emit(tt: TokenType, src: Seq<char>, s: int, e: int, line: nat) -> ScanStep {
    ScanStep {
        end: e,
        line,
        token: Some(TokenView { ttype: tt, lexeme: src.subrange(s, e), literal: None, line }),
        error: None,
    }
}

/// A token of one character, or of two where the second is `=`.
pub open spec fn emit_pair(src: Seq<char>, s: int, line: nat, one: TokenType, two: TokenType) -> ScanStep {
    if next_is(src, s + 1, '=') {
        emit(two, src, s, s + 2, line)
    } else {
        emit(one, src, s, s + 1, line)
    }
}

pub open spec fn skip(e: int, line: nat) -> ScanStep {
    ScanStep { end: e, line, token: None, error: None }
}

pub open spec fn fail(e: int, line: nat, msg: Seq<char>) -> ScanStep {
    ScanStep { end: e, line, token: None, error: Some(report_text(line, Seq::empty(), msg)) }
}

/// Where a number that starts at `s` ends: digits, then a dot and digits
/// only where a digit follows the dot.
pub open spec fn number_end(src: Seq<char>, s: int) -> int {
    let e = run_end(src, s + 1, CharClass::Digit);
    if next_is(src, e, '.') && e + 1 < src.len() && is_decimal_digit(src[e + 1]) {
        run_end(src, e + 2, CharClass::Digit)
    } else {
        e
    }
}

pub open spec fn string_step(src: Seq<char>, s: int, line: nat) -> ScanStep {
    let e = run_end(src, s + 1, CharClass::NotQuote);
    let l = line + newlines(src.subrange(s + 1, e));
    if e >= src.len() {
        fail(e, l, "Unterminated string"@)
    } else {
        ScanStep {
            end: e + 1,
            line: l,
            token: Some(
                TokenView {
                    ttype: TokenType::String,
                    lexeme: src.subrange(s, e + 1),
                    literal: Some(Value::Str(src.subrange(s + 1, e))),
                    line: l,
                },
            ),
            error: None,
        }
    }
}

pub open spec fn number_step(src: Seq<char>, s: int, line: nat) -> ScanStep {
    let e = number_end(src, s);
    ScanStep {
        end: e,
        line,
        token: Some(
            TokenView {
                ttype: TokenType::Number,
                lexeme: src.subrange(s, e),
                literal: Some(Value::Number(decimal_double(src.subrange(s, e)))),
                line,
            },
        ),
        error: None,
    }
}

pub open spec fn word_step(src: Seq<char>, s: int, line: nat) -> ScanStep {
    let e = run_end(src, s + 1, CharClass::Word);
    let tt = match keyword_type(src.subrange(s, e)) {
        Some(k) => k,
        None => TokenType::Identifier,
    };
    emit(tt, src, s, e, line)
}

/// One step of the scanner at position `s`, on line `line`.
pub open spec fn scan_step(src: Seq<char>, s: int, line: nat) -> ScanStep {
    let c = src[s];
    if c == '(' {
        emit(TokenType::LeftParen, src, s, s + 1, line)
    } else if c == ')' {
        emit(TokenType::RightParen, src, s, s + 1, line)
    } else if c == '{' {
        emit(TokenType::LeftBrace, src, s, s + 1, line)
    } else if c == '}' {
        emit(TokenType::RightBrace, src, s, s + 1, line)
    } else if c == ',' {
        emit(TokenType::Comma, src, s, s + 1, line)
    } else if c == '.' {
        emit(TokenType::Dot, src, s, s + 1, line)
    } else if c == '-' {
        emit(TokenType::Minus, src, s, s + 1, line)
    } else if c == '+' {
        emit(TokenType::Plus, src, s, s + 1, line)
    } else if c == ';' {
        emit(TokenType::Semicolon, src, s, s + 1, line)
    } else if c == '*' {
        emit(TokenType::Star, src, s, s + 1, line)
    } else if c == '!' {
        emit_pair(src, s, line, TokenType::Bang, TokenType::BangEqual)
    } else if c == '=' {
        emit_pair(src, s, line, TokenType::Equal, TokenType::EqualEqual)
    } else if c == '<' {
        emit_pair(src, s, line, TokenType::Less, TokenType::LessEqual)
    } else if c == '>' {
        emit_pair(src, s, line, TokenType::Greater, TokenType::GreaterEqual)
    } else if c == '/' {
        if next_is(src, s + 1, '/') {
            skip(run_end(src, s + 2, CharClass::NotNewline), line)
        } else {
            emit(TokenType::Slash, src, s, s + 1, line)
        }
    } else if c == ' ' || c == '\r' || c == '\t' {
        skip(s + 1, line)
    } else if c == '\n' {
        skip(s + 1, line + 1)
    } else if c == '"' {
        string_step(src, s, line)
    } else if is_decimal_digit(c) {
        number_step(src, s, line)
    } else if alphabetic(c) {
        word_step(src, s, line)
    } else {
        fail(s + 1, line, "Unexpected character"@)
    }
}

pub open spec fn option_seq<A>(o: Option<A>) -> Seq<A> {
    match o {
        Some(a) => seq![a],
        None => Seq::empty(),
    }
}

/// Scans from position `pos` on line `line` to the end: the tokens, the
/// diagnostics, and the line the text ends on.
pub open spec fn scan_from(src: Seq<char>, pos: int, line: nat) -> (Seq<TokenView>, Seq<Seq<char>>, nat)
    decreases src.len() - pos,
{
    if pos < 0 || pos >= src.len() {
        (Seq::empty(), Seq::empty(), line)
    } else {
        let st = scan_step(src, pos, line);
        if st.end <= pos || st.end > src.len() {
            (Seq::empty(), Seq::empty(), line)
        } else {
            let (t, e, l) = scan_from(src, st.end, st.line);
            (option_seq(st.token) + t, option_seq(st.error) + e, l)
        }
    }
}

/// The token that closes every token sequence.
pub open spec fn eof_token(line: nat) -> TokenView {
    TokenView { ttype: TokenType::Eof, lexeme: Seq::empty(), literal: None, line }
}

/// The tokens of a whole text, closed by one end-of-file token, and the
/// diagnostics of its lexical errors.
pub open spec fn scan(src: Seq<char>) -> (Seq<TokenView>, Seq<Seq<char>>) {
    let (t, e, l) = scan_from(src, 0, 1);
    (t.push(eof_token(l)), e)
}

pub open spec fn token_views(v: Seq<Token>) -> Seq<TokenView> {
    v.map_values(|t: Token| t@)
}

pub open spec fn text_views(v: Seq<String>) -> Seq<Seq<char>> {
    v.map_values(|s: String| s@)
}

proof fn lemma_run_end(src: Seq<char>, i: int, k: CharClass, e: int)
    requires
        0 <= i <= e <= src.len(),
        forall|j: int| i <= j < e ==> in_class(k, #[trigger] src[j]),
        e == src.len() || !in_class(k, src[e]),
    ensures
        run_end(src, i, k) == e,
    decreases e - i,
{
    if i < e {
        lemma_run_end(src, i + 1, k, e);
    }
}

proof fn lemma_newlines_step(src: Seq<char>, a: int, b: int)
    requires
        0 <= a <= b < src.len(),
    ensures
        newlines(src.subrange(a, b + 1)) == newlines(src.subrange(a, b)) + if src[b] == '\n' {
            1nat
        } else {
            0nat
        },
{
    assert(src.subrange(a, b + 1).drop_last() =~= src.subrange(a, b));
}

/// `new` is `old` after one step `st`: the cursor and line moved as the step
/// says, and its token and diagnostic, if any, were appended.
pub open spec fn stepped(old: Scanner, new: Scanner, st: ScanStep) -> bool {
    &&& new.wf()
    &&& new.text() == old.text()
    &&& new.position() == st.end
    &&& new.line_number() == st.line
    &&& match st.token {
        Some(t) => new.produced() == old.produced().push(t),
        None => new.produced() == old.produced(),
    }
    &&& match st.error {
        Some(e) => new.diagnostics() == old.diagnostics().push(e),
        None => new.diagnostics() == old.diagnostics(),
    }
}

/// The scanner's state: the text, the tokens and diagnostics so far, and
/// the cursor.
pub struct Scanner {
    source: String,
    src: Vec<char>,
    tokens: Vec<Token>,
    errors: Vec<String>,
    start: usize,
    current: usize,
    line: usize,
}

impl Scanner {
    pub closed spec fn wf(&self) -> bool {
        &&& self.src@ == self.source@
        &&& self.src@.len() < usize::MAX
        &&& self.start <= self.current <= self.src@.len()
        &&& 1 <= self.line <= self.current + 1
    }

    /// Where the scan stands in the text.
    pub closed spec fn position(&self) -> int {
        self.current as int
    }

    /// The line the scan stands on.
    pub closed spec fn line_number(&self) -> nat {
        self.line as nat
    }

    /// The text being scanned.
    pub closed spec fn text(&self) -> Seq<char> {
        self.source@
    }

    /// The tokens produced so far.
    pub closed spec fn produced(&self) -> Seq<TokenView> {
        token_views(self.tokens@)
    }

    /// The diagnostics produced so far.
    pub closed spec fn diagnostics(&self) -> Seq<Seq<char>> {
        text_views(self.errors@)
    }

    /// A scanner at the start of `src`.
    pub fn new(src: String) -> (r: Scanner)
        requires
            src@.len() < usize::MAX,
        ensures
            r.wf(),
            r.text() == src@,
            r.position() == 0,
            r.line_number() == 1,
            r.produced() == Seq::<TokenView>::empty(),
            r.diagnostics() == Seq::<Seq<char>>::empty(),
    {
        let chars = chars_of(src.as_str());
        let r = Scanner {
            source: src,
            src: chars,
            tokens: Vec::new(),
            errors: Vec::new(),
            start: 0,
            current: 0,
            line: 1,
        };
        assert(r.produced() =~= Seq::<TokenView>::empty());
        assert(r.diagnostics() =~= Seq::<Seq<char>>::empty());
        r
    }

    /// The diagnostics of the lexical errors met so far.
    pub fn errors(&self) -> (r: &Vec<String>)
        ensures
            text_views(r@) == self.diagnostics(),
    {
        &self.errors
    }

    fn is_at_end(&self) -> (r: bool)
        ensures
            r == (self.current >= self.src@.len()),
    {
        self.current >= self.src.len()
    }

    fn advance(&mut self) -> (r: char)
        requires
            old(self).current < old(self).src@.len(),
            old(self).src@.len() < usize::MAX,
        ensures
            r == old(self).src@[old(self).current as int],
            final(self).current == old(self).current + 1,
            final(self).src == old(self).src,
            final(self).source == old(self).source,
            final(self).tokens == old(self).tokens,
            final(self).errors == old(self).errors,
            final(self).start == old(self).start,
            final(self).line == old(self).line,
    {
        self.current = self.current + 1;
        self.src[self.current - 1]
    }

    fn peek(&self) -> (r: char)
        ensures
            self.current < self.src@.len() ==> r == self.src@[self.current as int],
            self.current >= self.src@.len() ==> r == '\0',
    {
        if self.is_at_end() {
            return '\0';
        }
        self.src[self.current]
    }

    fn peek_next(&self) -> (r: char)
        requires
            self.src@.len() < usize::MAX,
            self.current < self.src@.len(),
        ensures
            self.current + 1 < self.src@.len() ==> r == self.src@[self.current + 1],
            self.current + 1 >= self.src@.len() ==> r == '\0',
    {
        if self.current + 1 >= self.src.len() {
            return '\0';
        }
        self.src[self.current + 1]
    }

    fn match_char(&mut self, expected: char) -> (r: bool)
        requires
            old(self).current <= old(self).src@.len(),
            old(self).src@.len() < usize::MAX,
        ensures
            r == next_is(old(self).src@, old(self).current as int, expected),
            final(self).current == old(self).current + if r {
                1int
            } else {
                0int
            },
            final(self).src == old(self).src,
            final(self).source == old(self).source,
            final(self).tokens == old(self).tokens,
            final(self).errors == old(self).errors,
            final(self).start == old(self).start,
            final(self).line == old(self).line,
    {
        if self.is_at_end() {
            return false;
        }
        if self.src[self.current] != expected {
            return false;
        }
        self.current = self.current + 1;
        true
    }

    /// Appends a token whose lexeme is the text from `start` to `current`.
    fn add_token(&mut self, ttype: TokenType, literal: Option<Literal>)
        requires
            old(self).wf(),
        ensures
            final(self).wf(),
            final(self).current == old(self).current,
            final(self).start == old(self).start,
            final(self).line == old(self).line,
            final(self).src == old(self).src,
            final(self).source == old(self).source,
            final(self).errors == old(self).errors,
            final(self).produced() == old(self).produced().push(
                TokenView {
                    ttype,
                    lexeme: old(self).src@.subrange(old(self).start as int, old(self).current as int),
                    literal: match literal {
                        Some(l) => Some(l@),
                        None => None,
                    },
                    line: old(self).line as nat,
                },
            ),
    {
        let text = String::from_str(self.source.as_str().substring_char(self.start, self.current));
        let t = Token::new(ttype, text, literal, self.line);
        let ghost before = self.tokens@;
        self.tokens.push(t);
        assert(token_views(self.tokens@) =~= token_views(before).push(t@));
    }

    /// Appends a diagnostic for the current line.
    fn add_error(&mut self, message: &str)
        requires
            old(self).wf(),
        ensures
            final(self).wf(),
            final(self).current == old(self).current,
            final(self).start == old(self).start,
            final(self).line == old(self).line,
            final(self).src == old(self).src,
            final(self).source == old(self).source,
            final(self).tokens == old(self).tokens,
            final(self).diagnostics() == old(self).diagnostics().push(
                report_text(old(self).line as nat, Seq::empty(), message@),
            ),
    {
        let text = error(self.line, String::from_str(message));
        let ghost before = self.errors@;
        self.errors.push(text);
        assert(text_views(self.errors@) =~= text_views(before).push(text@));
    }
    /// Scans a string literal whose opening quote was just consumed.
    fn string(&mut self)
        requires
            old(self).wf(),
            old(self).current == old(self).start + 1,
            old(self).src@[old(self).start as int] == '"',
        ensures
            final(self).current >= old(self).current,
            stepped(*old(self), *final(self), string_step(old(self).text(), old(self).start as int, old(self).line as nat)),
    {
        let ghost src = self.src@;
        let ghost s = self.start as int;
        while self.peek() != '"' && !self.is_at_end()
            invariant
                self.wf(),
                self.src@ == src,
                self.source == old(self).source,
                self.tokens == old(self).tokens,
                self.errors == old(self).errors,
                self.start == s,
                s + 1 <= self.current <= src.len(),
                forall|j: int| s + 1 <= j < self.current ==> #[trigger] src[j] != '"',
                self.line == old(self).line + newlines(src.subrange(s + 1, self.current as int)),
            decreases src.len() - self.current,
        {
            proof {
                lemma_newlines_step(src, s + 1, self.current as int);
            }
            if self.peek() == '\n' {
                self.line = self.line + 1;
            }
            self.advance();
        }
        proof {
            lemma_run_end(src, s + 1, CharClass::NotQuote, self.current as int);
        }
        if self.is_at_end() {
            self.add_error("Unterminated string");
            return;
        }
        self.advance();
        let value = String::from_str(
            self.source.as_str().substring_char(self.start + 1, self.current - 1),
        );
        self.add_token(TokenType::String, Some(Literal::Str(value)));
    }

    /// Scans a number whose first digit was just consumed.
    fn number(&mut self)
        requires
            old(self).wf(),
            old(self).current == old(self).start + 1,
            is_decimal_digit(old(self).src@[old(self).start as int]),
        ensures
            final(self).current >= old(self).current,
            stepped(*old(self), *final(self), number_step(old(self).text(), old(self).start as int, old(self).line as nat)),
    {
        let ghost src = self.src@;
        let ghost s = self.start as int;
        while is_digit(self.peek())
            invariant
                self.wf(),
                self.src@ == src,
                self.source == old(self).source,
                self.tokens == old(self).tokens,
                self.errors == old(self).errors,
                self.start == s,
                self.line == old(self).line,
                s + 1 <= self.current <= src.len(),
                forall|j: int| s <= j < self.current ==> is_decimal_digit(#[trigger] src[j]),
            decreases src.len() - self.current,
        {
            self.advance();
        }
        let ghost e1 = self.current as int;
        proof {
            lemma_run_end(src, s + 1, CharClass::Digit, e1);
        }
        if self.peek() == '.' && is_digit(self.peek_next()) {
            self.advance();
            self.advance();
            while is_digit(self.peek())
                invariant
                    self.wf(),
                    self.src@ == src,
                    self.source == old(self).source,
                    self.tokens == old(self).tokens,
                    self.errors == old(self).errors,
                    self.start == s,
                    self.line == old(self).line,
                    e1 + 2 <= self.current <= src.len(),
                    forall|j: int| e1 + 1 <= j < self.current ==> is_decimal_digit(#[trigger] src[j]),
                decreases src.len() - self.current,
            {
                self.advance();
            }
            proof {
                lemma_run_end(src, e1 + 2, CharClass::Digit, self.current as int);
                let text = src.subrange(s, self.current as int);
                let k = e1 - s;
                assert(all_digits(text.subrange(0, k))) by {
                    assert forall|i: int| 0 <= i < k implies is_decimal_digit(#[trigger] text.subrange(0, k)[i]) by {
                        assert(text.subrange(0, k)[i] == src[s + i]);
                    }
                }
                assert(all_digits(text.subrange(k + 1, text.len() as int))) by {
                    assert forall|i: int| 0 <= i < text.len() - (k + 1) implies is_decimal_digit(
                        #[trigger] text.subrange(k + 1, text.len() as int)[i],
                    ) by {
                        assert(text.subrange(k + 1, text.len() as int)[i] == src[e1 + 1 + i]);
                    }
                }
                assert(is_numeral(text));
            }
        } else {
            proof {
                let text = src.subrange(s, self.current as int);
                assert(all_digits(text)) by {
                    assert forall|i: int| 0 <= i < text.len() implies is_decimal_digit(#[trigger] text[i]) by {
                        assert(text[i] == src[s + i]);
                    }
                }
            }
        }
        let text = self.source.as_str().substring_char(self.start, self.current);
        let n = parse_numeral(text);
        self.add_token(TokenType::Number, Some(Literal::Number(n)));
    }

    /// Scans an identifier or reserved word whose first letter was just consumed.
    fn identifier(&mut self)
        requires
            old(self).wf(),
            old(self).current == old(self).start + 1,
            alphabetic(old(self).src@[old(self).start as int]),
        ensures
            final(self).current >= old(self).current,
            stepped(*old(self), *final(self), word_step(old(self).text(), old(self).start as int, old(self).line as nat)),
    {
        let ghost src = self.src@;
        let ghost s = self.start as int;
        while !self.is_at_end() && is_alnum(self.peek())
            invariant
                self.wf(),
                self.src@ == src,
                self.source == old(self).source,
                self.tokens == old(self).tokens,
                self.errors == old(self).errors,
                self.start == s,
                self.line == old(self).line,
                s + 1 <= self.current <= src.len(),
                forall|j: int| s + 1 <= j < self.current ==> alphanumeric(#[trigger] src[j]),
            decreases src.len() - self.current,
        {
            self.advance();
        }
        proof {
            lemma_run_end(src, s + 1, CharClass::Word, self.current as int);
        }
        let text = self.source.as_str().substring_char(self.start, self.current);
        let ttype = match keyword(text) {
            Some(k) => k,
            None => TokenType::Identifier,
        };
        self.add_token(ttype, None);
    }
    /// Consumes a token-sized piece of text starting at `current`.
    fn scan_token(&mut self)
        requires
            old(self).wf(),
            old(self).start == old(self).current,
            old(self).current < old(self).src@.len(),
        ensures
            final(self).current > old(self).current,
            stepped(
                *old(self),
                *final(self),
                scan_step(old(self).text(), old(self).current as int, old(self).line as nat),
            ),
    {
        let ghost src = self.src@;
        let ghost s = self.start as int;
        let c = self.advance();
        if c == '(' {
            self.add_token(TokenType::LeftParen, None);
        } else if c == ')' {
            self.add_token(TokenType::RightParen, None);
        } else if c == '{' {
            self.add_token(TokenType::LeftBrace, None);
        } else if c == '}' {
            self.add_token(TokenType::RightBrace, None);
        } else if c == ',' {
            self.add_token(TokenType::Comma, None);
        } else if c == '.' {
            self.add_token(TokenType::Dot, None);
        } else if c == '-' {
            self.add_token(TokenType::Minus, None);
        } else if c == '+' {
            self.add_token(TokenType::Plus, None);
        } else if c == ';' {
            self.add_token(TokenType::Semicolon, None);
        } else if c == '*' {
            self.add_token(TokenType::Star, None);
        } else if c == '!' {
            let ttype = if self.match_char('=') {
                TokenType::BangEqual
            } else {
                TokenType::Bang
            };
            self.add_token(ttype, None);
        } else if c == '=' {
            let ttype = if self.match_char('=') {
                TokenType::EqualEqual
            } else {
                TokenType::Equal
            };
            self.add_token(ttype, None);
        } else if c == '<' {
            let ttype = if self.match_char('=') {
                TokenType::LessEqual
            } else {
                TokenType::Less
            };
            self.add_token(ttype, None);
        } else if c == '>' {
            let ttype = if self.match_char('=') {
                TokenType::GreaterEqual
            } else {
                TokenType::Greater
            };
            self.add_token(ttype, None);
        } else if c == '/' {
            if self.match_char('/') {
                while self.peek() != '\n' && !self.is_at_end()
                    invariant
                        self.wf(),
                        self.src@ == src,
                        self.source == old(self).source,
                        self.tokens == old(self).tokens,
                        self.errors == old(self).errors,
                        self.line == old(self).line,
                        s + 2 <= self.current <= src.len(),
                        forall|j: int| s + 2 <= j < self.current ==> #[trigger] src[j] != '\n',
                    decreases src.len() - self.current,
                {
                    self.advance();
                }
                proof {
                    lemma_run_end(src, s + 2, CharClass::NotNewline, self.current as int);
                }
            } else {
                self.add_token(TokenType::Slash, None);
            }
        } else if c == ' ' || c == '\r' || c == '\t' {
        } else if c == '\n' {
            self.line = self.line + 1;
        } else if c == '"' {
            self.string();
        } else if is_digit(c) {
            self.number();
        } else if is_alpha(c) {
            self.identifier();
        } else {
            self.add_error("Unexpected character");
        }
    }

    /// Scans the rest of the text: appends its tokens and diagnostics,
    /// then one end-of-file token, and returns every token produced.
    pub fn scan_tokens(&mut self) -> (r: &Vec<Token>)
        requires
            old(self).wf(),
        ensures
            final(self).wf(),
            final(self).text() == old(self).text(),
            token_views(r@) == final(self).produced(),
            ({
                let (t, e, l) = scan_from(
                    old(self).text(),
                    old(self).position(),
                    old(self).line_number(),
                );
                &&& final(self).produced() == old(self).produced() + t.push(eof_token(l))
                &&& final(self).diagnostics() == old(self).diagnostics() + e
            }),
    {
        let ghost src = self.src@;
        let ghost t0 = self.produced();
        let ghost e0 = self.diagnostics();
        let ghost goal = scan_from(src, self.current as int, self.line as nat);
        while !self.is_at_end()
            invariant
                self.wf(),
                self.src@ == src,
                self.text() == old(self).text(),
                ({
                    let (t, e, l) = scan_from(src, self.current as int, self.line as nat);
                    &&& t0 + goal.0 == self.produced() + t
                    &&& e0 + goal.1 == self.diagnostics() + e
                    &&& goal.2 == l
                }),
            decreases src.len() - self.current,
        {
            self.start = self.current;
            let ghost before = *self;
            self.scan_token();
            proof {
                let st = scan_step(src, before.current as int, before.line as nat);
                let (t, e, l) = scan_from(src, st.end, st.line);
                assert(before.produced() + (option_seq(st.token) + t) =~= self.produced() + t);
                assert(before.diagnostics() + (option_seq(st.error) + e) =~= self.diagnostics() + e);
            }
        }
        let eof = Token::new(TokenType::Eof, String::new(), None, self.line);
        let ghost before = self.tokens@;
        self.tokens.push(eof);
        proof {
            assert(token_views(self.tokens@) =~= token_views(before).push(eof@));
            assert(self.produced() =~= t0 + goal.0.push(eof_token(goal.2)));
        }
        &self.tokens
    }
}

} // verus!
