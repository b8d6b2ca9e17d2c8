use vstd::prelude::*;

use crate::text::{chars_of, string_range};
use crate::token::{tok_matches, Token, TokenKind, TokenTag};

verus! {

// ---------------------------------------------------------------------------
// Specification of the scan step.
//
// `spec_scan` is the mathematical scanner: from a source text, a position
// and a 1-based line counter it determines the next token (as a
// `TokenTag` plus a lexeme range) and the scanner state after it.  The
// executable `Scanner` is proved to follow it step by step, which makes
// tokenization deterministic: every consumer of the scanner sees the one
// token stream that `spec_scan` defines.
// ---------------------------------------------------------------------------
/// Horizontal whitespace (a newline is handled separately: it advances the
/// line counter).
pub open spec fn is_ws_char(c: char) -> bool {
    c == ' ' || c == '\r' || c == '\t'
}

pub open spec fn is_digit_char(c: char) -> bool {
    '0' <= c && c <= '9'
}

/// ASCII alphabetic or underscore: the characters that may begin an
/// identifier.
pub open spec fn is_alpha_char(c: char) -> bool {
    ('a' <= c && c <= 'z') || ('A' <= c && c <= 'Z') || c == '_'
}

/// The characters that may continue an identifier.
pub open spec fn is_alnum_char(c: char) -> bool {
    is_alpha_char(c) || is_digit_char(c)
}

/// Index of the first newline at or after `p`, or the end of the source:
/// where a `//` comment ends.
pub open spec fn comment_end(src: Seq<char>, p: int) -> int
    decreases src.len() - p,
{
    if p < 0 || p >= src.len() {
        src.len() as int
    } else if src[p] == '\n' {
        p
    } else {
        comment_end(src, p + 1)
    }
}

pub proof fn lemma_comment_end_bounds(src: Seq<char>, p: int)
    requires
        0 <= p <= src.len(),
    ensures
        p <= comment_end(src, p) <= src.len(),
    decreases src.len() - p,
{
    if p < src.len() && src[p] != '\n' {
        lemma_comment_end_bounds(src, p + 1);
    }
}

/// Index of the first `"` at or after `p`, or the end of the source:
/// where a string literal's closing quote stands.
pub open spec fn quote_end(src: Seq<char>, p: int) -> int
    decreases src.len() - p,
{
    if p < 0 || p >= src.len() {
        src.len() as int
    } else if src[p] == '"' {
        p
    } else {
        quote_end(src, p + 1)
    }
}

/// End of the maximal digit run beginning at `p`.
pub open spec fn digits_end(src: Seq<char>, p: int) -> int
    decreases src.len() - p,
{
    if 0 <= p < src.len() && is_digit_char(src[p]) {
        digits_end(src, p + 1)
    } else {
        p
    }
}

/// End of the maximal identifier-character run beginning at `p`.
pub open spec fn ident_end(src: Seq<char>, p: int) -> int
    decreases src.len() - p,
{
    if 0 <= p < src.len() && is_alnum_char(src[p]) {
        ident_end(src, p + 1)
    } else {
        p
    }
}

/// Number of newline characters in `src[a..b)`.
pub open spec fn newlines(src: Seq<char>, a: int, b: int) -> int
    decreases b - a,
{
    if a < 0 || a >= b || a >= src.len() {
        0
    } else if src[a] == '\n' {
        1 + newlines(src, a + 1, b)
    } else {
        newlines(src, a + 1, b)
    }
}

/// State after skipping whitespace and `//` comments from `(p, l)`: the
/// new position and the new line counter (each consumed newline advances
/// it by one).
pub open spec fn ws_skip(src: Seq<char>, p: int, l: int) -> (int, int)
    decreases src.len() - p,
    via ws_skip_dec
{
    if p >= src.len() {
        (p, l)
    } else if is_ws_char(src[p]) {
        ws_skip(src, p + 1, l)
    } else if src[p] == '\n' {
        ws_skip(src, p + 1, l + 1)
    } else if src[p] == '/' && p + 1 < src.len() && src[p + 1] == '/' {
        ws_skip(src, comment_end(src, p + 2), l)
    } else {
        (p, l)
    }
}

#[via_fn]
proof fn ws_skip_dec(src: Seq<char>, p: int, l: int) {
    if 0 <= p + 2 <= src.len() {
        lemma_comment_end_bounds(src, p + 2);
    }
}

/// End of a number lexeme whose first digit stands just before `p`: the
/// integer digit run, then a fraction only if a `.` is directly followed
/// by a digit (so `123.` stops before the dot).
pub open spec fn num_end(src: Seq<char>, p: int) -> int {
    let d1 = digits_end(src, p);
    if d1 < src.len() && src[d1] == '.' && d1 + 1 < src.len() && is_digit_char(src[d1 + 1]) {
        digits_end(src, d1 + 1)
    } else {
        d1
    }
}

/// The sixteen keywords; any other identifier lexeme is an `Identifier`.
pub open spec fn kw_or_ident_tag(lex: Seq<char>) -> TokenTag {
    if lex == "and"@ {
        TokenTag::And
    } else if lex == "class"@ {
        TokenTag::Class
    } else if lex == "else"@ {
        TokenTag::Else
    } else if lex == "false"@ {
        TokenTag::False
    } else if lex == "for"@ {
        TokenTag::For
    } else if lex == "fun"@ {
        TokenTag::Fun
    } else if lex == "if"@ {
        TokenTag::If
    } else if lex == "nil"@ {
        TokenTag::Nil
    } else if lex == "or"@ {
        TokenTag::Or
    } else if lex == "print"@ {
        TokenTag::Print
    } else if lex == "return"@ {
        TokenTag::Return
    } else if lex == "super"@ {
        TokenTag::Super
    } else if lex == "this"@ {
        TokenTag::This
    } else if lex == "true"@ {
        TokenTag::True
    } else if lex == "var"@ {
        TokenTag::Var
    } else if lex == "while"@ {
        TokenTag::While
    } else {
        TokenTag::Identifier
    }
}

/// One scan step: the token's tag, its lexeme range `[start, end)`, and
/// the line counter after it (which is also the token's `line`, since a
/// token line is sampled after the token's last character).
pub struct ScanOut {
    pub tag: TokenTag,
    pub start: int,
    pub end: int,
    pub line: int,
}

/// The mathematical scanner: the next token from position `p0`, line `l0`.
pub open spec fn spec_scan(src: Seq<char>, p0: int, l0: int) -> ScanOut {
    let (p, l) = ws_skip(src, p0, l0);
    if p >= src.len() {
        ScanOut { tag: TokenTag::Eof, start: p, end: p, line: l }
    } else {
        let c = src[p];
        if is_alpha_char(c) {
            let e = ident_end(src, p + 1);
            ScanOut { tag: kw_or_ident_tag(src.subrange(p, e)), start: p, end: e, line: l }
        } else if is_digit_char(c) {
            let e = num_end(src, p + 1);
            ScanOut { tag: TokenTag::Number, start: p, end: e, line: l }
        } else if c == '(' {
            ScanOut { tag: TokenTag::LeftParen, start: p, end: p + 1, line: l }
        } else if c == ')' {
            ScanOut { tag: TokenTag::RightParen, start: p, end: p + 1, line: l }
        } else if c == '{' {
            ScanOut { tag: TokenTag::LeftBrace, start: p, end: p + 1, line: l }
        } else if c == '}' {
            ScanOut { tag: TokenTag::RightBrace, start: p, end: p + 1, line: l }
        } else if c == ';' {
            ScanOut { tag: TokenTag::Semicolon, start: p, end: p + 1, line: l }
        } else if c == ',' {
            ScanOut { tag: TokenTag::Comma, start: p, end: p + 1, line: l }
        } else if c == '.' {
            ScanOut { tag: TokenTag::Dot, start: p, end: p + 1, line: l }
        } else if c == '-' {
            ScanOut { tag: TokenTag::Minus, start: p, end: p + 1, line: l }
        } else if c == '+' {
            ScanOut { tag: TokenTag::Plus, start: p, end: p + 1, line: l }
        } else if c == '/' {
            ScanOut { tag: TokenTag::Slash, start: p, end: p + 1, line: l }
        } else if c == '*' {
            ScanOut { tag: TokenTag::Star, start: p, end: p + 1, line: l }
        } else if c == '!' {
            if p + 1 < src.len() && src[p + 1] == '=' {
                ScanOut { tag: TokenTag::BangEqual, start: p, end: p + 2, line: l }
            } else {
                ScanOut { tag: TokenTag::Bang, start: p, end: p + 1, line: l }
            }
        } else if c == '=' {
            if p + 1 < src.len() && src[p + 1] == '=' {
                ScanOut { tag: TokenTag::EqualEqual, start: p, end: p + 2, line: l }
            } else {
                ScanOut { tag: TokenTag::Equal, start: p, end: p + 1, line: l }
            }
        } else if c == '<' {
            if p + 1 < src.len() && src[p + 1] == '=' {
                ScanOut { tag: TokenTag::LessEqual, start: p, end: p + 2, line: l }
            } else {
                ScanOut { tag: TokenTag::Less, start: p, end: p + 1, line: l }
            }
        } else if c == '>' {
            if p + 1 < src.len() && src[p + 1] == '=' {
                ScanOut { tag: TokenTag::GreaterEqual, start: p, end: p + 2, line: l }
            } else {
                ScanOut { tag: TokenTag::Greater, start: p, end: p + 1, line: l }
            }
        } else if c == '"' {
            let q = quote_end(src, p + 1);
            if q >= src.len() {
                ScanOut {
                    tag: TokenTag::ErrUnterminated,
                    start: p,
                    end: src.len() as int,
                    line: l + newlines(src, p + 1, src.len() as int),
                }
            } else {
                ScanOut {
                    tag: TokenTag::Str,
                    start: p,
                    end: q + 1,
                    line: l + newlines(src, p + 1, q),
                }
            }
        } else {
            ScanOut { tag: TokenTag::ErrUnexpected, start: p, end: p + 1, line: l }
        }
    }
}

// ---------------------------------------------------------------------------
// Facts about the scan step.
// ---------------------------------------------------------------------------
pub proof fn lemma_quote_end_bounds(src: Seq<char>, p: int)
    requires
        0 <= p <= src.len(),
    ensures
        p <= quote_end(src, p) <= src.len(),
    decreases src.len() - p,
{
    if p < src.len() && src[p] != '"' {
        lemma_quote_end_bounds(src, p + 1);
    }
}

pub proof fn lemma_digits_end_bounds(src: Seq<char>, p: int)
    requires
        0 <= p <= src.len(),
    ensures
        p <= digits_end(src, p) <= src.len(),
    decreases src.len() - p,
{
    if p < src.len() && is_digit_char(src[p]) {
        lemma_digits_end_bounds(src, p + 1);
    }
}

pub proof fn lemma_ident_end_bounds(src: Seq<char>, p: int)
    requires
        0 <= p <= src.len(),
    ensures
        p <= ident_end(src, p) <= src.len(),
    decreases src.len() - p,
{
    if p < src.len() && is_alnum_char(src[p]) {
        lemma_ident_end_bounds(src, p + 1);
    }
}

pub proof fn lemma_newlines_bounds(src: Seq<char>, a: int, b: int)
    requires
        0 <= a,
        b <= src.len(),
    ensures
        0 <= newlines(src, a, b) <= if b >= a {
            b - a
        } else {
            0
        },
    decreases b - a,
{
    if a < b && a < src.len() {
        lemma_newlines_bounds(src, a + 1, b);
    }
}

/// Splitting a newline count at its last position.
pub proof fn lemma_newlines_snoc(src: Seq<char>, a: int, b: int)
    requires
        0 <= a <= b < src.len(),
    ensures
        newlines(src, a, b + 1) == newlines(src, a, b) + if src[b] == '\n' {
            1int
        } else {
            0int
        },
    decreases b - a,
{
    if a < b {
        lemma_newlines_snoc(src, a + 1, b);
    } else {
        assert(newlines(src, a + 1, b + 1) == 0);
    }
}

pub proof fn lemma_ws_skip_bounds(src: Seq<char>, p: int, l: int)
    requires
        0 <= p <= src.len(),
    ensures
        p <= ws_skip(src, p, l).0 <= src.len(),
        l <= ws_skip(src, p, l).1 <= l + (ws_skip(src, p, l).0 - p),
    decreases src.len() - p,
{
    if p < src.len() {
        let c = src[p];
        if is_ws_char(c) {
            lemma_ws_skip_bounds(src, p + 1, l);
        } else if c == '\n' {
            lemma_ws_skip_bounds(src, p + 1, l + 1);
        } else if c == '/' && p + 1 < src.len() && src[p + 1] == '/' {
            lemma_comment_end_bounds(src, p + 2);
            lemma_ws_skip_bounds(src, comment_end(src, p + 2), l);
        }
    }
}

/// Bounds of one scan step: the token's lexeme lies between the start
/// position and the end of the source, a token other than `Eof` is
/// nonempty, `Eof` stands exactly at the end, and the line counter can
/// advance at most one line per consumed character.
pub proof fn lemma_spec_scan_bounds(src: Seq<char>, p0: int, l0: int)
    requires
        0 <= p0 <= src.len(),
    ensures
        p0 <= spec_scan(src, p0, l0).start <= spec_scan(src, p0, l0).end <= src.len(),
        spec_scan(src, p0, l0).start == spec_scan(src, p0, l0).end ==> spec_scan(
            src,
            p0,
            l0,
        ).tag is Eof,
        spec_scan(src, p0, l0).tag is Eof ==> spec_scan(src, p0, l0).start == src.len()
            && spec_scan(src, p0, l0).end == src.len(),
        l0 <= spec_scan(src, p0, l0).line <= l0 + (spec_scan(src, p0, l0).end - p0),
{
    lemma_ws_skip_bounds(src, p0, l0);
    let (p, l) = ws_skip(src, p0, l0);
    if p < src.len() {
        let c = src[p];
        if is_alpha_char(c) {
            lemma_ident_end_bounds(src, p + 1);
        } else if is_digit_char(c) {
            lemma_digits_end_bounds(src, p + 1);
            let d1 = digits_end(src, p + 1);
            if d1 < src.len() && src[d1] == '.' && d1 + 1 < src.len() && is_digit_char(
                src[d1 + 1],
            ) {
                lemma_digits_end_bounds(src, d1 + 1);
            }
        } else if c == '"' {
            lemma_quote_end_bounds(src, p + 1);
            let q = quote_end(src, p + 1);
            if q >= src.len() {
                lemma_newlines_bounds(src, p + 1, src.len() as int);
            } else {
                lemma_newlines_bounds(src, p + 1, q);
            }
        }
    }
}

/// The number of `Number` tokens the scanner will produce from state
/// `(p, l)` to the end of the input: one constant-pool slot is needed for
/// each.
pub open spec fn number_count(src: Seq<char>, p: int, l: int) -> int
    decreases src.len() - spec_scan(src, p, l).start,
    via number_count_dec
{
    if !(0 <= p <= src.len()) {
        0
    } else {
        let t = spec_scan(src, p, l);
        if t.tag is Eof {
            0
        } else {
            (if t.tag is Number {
                1int
            } else {
                0int
            }) + number_count(src, t.end, t.line)
        }
    }
}

#[via_fn]
proof fn number_count_dec(src: Seq<char>, p: int, l: int) {
    if 0 <= p <= src.len() {
        lemma_spec_scan_bounds(src, p, l);
        let t = spec_scan(src, p, l);
        if !(t.tag is Eof) {
            lemma_spec_scan_bounds(src, t.end, t.line);
        }
    }
}

pub proof fn lemma_number_count_nonneg(src: Seq<char>, p: int, l: int)
    ensures
        number_count(src, p, l) >= 0,
    decreases src.len() - spec_scan(src, p, l).start,
{
    if 0 <= p <= src.len() {
        let t = spec_scan(src, p, l);
        if !(t.tag is Eof) {
            lemma_spec_scan_bounds(src, p, l);
            lemma_spec_scan_bounds(src, t.end, t.line);
            lemma_number_count_nonneg(src, t.end, t.line);
        }
    }
}

/// The two ways a scan can fail; the scanner stays usable afterwards,
/// so the caller may resynchronize and continue.
#[derive(Debug, Clone, Copy, PartialEq, Eq, Structural)]
pub enum ScanError {
    UnexpectedCharacter,
    UnterminatedString,
}

// ---------------------------------------------------------------------------
// The executable scanner.
// ---------------------------------------------------------------------------
/// The scanner: pulls one token at a time from a source text, strictly
/// forward.  `start` marks where the most recently scanned token began,
/// `current` where the next scan resumes, `line` the 1-based line of
/// `current`.
#[derive(Debug)]
pub struct Scanner {
    source: Vec<char>,
    start: usize,
    current: usize,
    line: usize,
}

impl Scanner {
    /// The source text being scanned.
    pub closed spec fn src(&self) -> Seq<char> {
        self.source@
    }

    /// The position the next scan resumes from.
    pub closed spec fn pos(&self) -> int {
        self.current as int
    }

    /// Where the most recently scanned token began.
    pub closed spec fn tok_start(&self) -> int {
        self.start as int
    }

    /// The 1-based line of the current position.
    pub closed spec fn line_no(&self) -> int {
        self.line as int
    }

    pub open spec fn wf(&self) -> bool {
        &&& 0 <= self.tok_start() <= self.pos() <= self.src().len()
        &&& 1 <= self.line_no() <= self.pos() + 1
        &&& self.src().len() < usize::MAX
    }

    pub fn new(source: &str) -> (r: Scanner)
        ensures
            r.wf(),
            r.src() == source@,
            r.pos() == 0,
            r.tok_start() == 0,
            r.line_no() == 1,
    {
        Scanner { source: chars_of(source), start: 0, current: 0, line: 1 }
    }

    fn is_at_end(&self) -> (r: bool)
        ensures
            r == (self.pos() >= self.src().len()),
    {
        self.current >= self.source.len()
    }

    /// Consume and return the character at the current position, if any.
    fn advance(&mut self) -> (r: Option<char>)
        requires
            old(self).wf(),
        ensures
            final(self).wf(),
            final(self).src() == old(self).src(),
            final(self).tok_start() == old(self).tok_start(),
            final(self).line_no() == old(self).line_no(),
            old(self).pos() < old(self).src().len() ==> r == Some(
                old(self).src()[old(self).pos()],
            ) && final(self).pos() == old(self).pos() + 1,
            old(self).pos() >= old(self).src().len() ==> r is None && final(self).pos() == old(
                self,
            ).pos(),
    {
        if self.is_at_end() {
            return None;
        }
        let c = self.source[self.current];
        self.current = self.current + 1;
        Some(c)
    }

    /// The character at the current position, without consuming it.
    fn peek(&self) -> (r: Option<char>)
        requires
            self.wf(),
        ensures
            self.pos() < self.src().len() ==> r == Some(self.src()[self.pos()]),
            self.pos() >= self.src().len() ==> r is None,
    {
        if self.is_at_end() {
            None
        } else {
            Some(self.source[self.current])
        }
    }

    /// The character one past the current position, without consuming.
    fn peek_next(&self) -> (r: Option<char>)
        requires
            self.wf(),
        ensures
            self.pos() + 1 < self.src().len() ==> r == Some(self.src()[self.pos() + 1]),
            self.pos() + 1 >= self.src().len() ==> r is None,
    {
        if self.current + 1 >= self.source.len() {
            None
        } else {
            Some(self.source[self.current + 1])
        }
    }

    /// Consume the current character exactly when it equals `expected`.
    fn match_byte(&mut self, expected: char) -> (r: bool)
        requires
            old(self).wf(),
        ensures
            final(self).wf(),
            final(self).src() == old(self).src(),
            final(self).tok_start() == old(self).tok_start(),
            final(self).line_no() == old(self).line_no(),
            r == (old(self).pos() < old(self).src().len() && old(self).src()[old(self).pos()]
                == expected),
            r ==> final(self).pos() == old(self).pos() + 1,
            !r ==> final(self).pos() == old(self).pos(),
    {
        match self.peek() {
            Some(c) => {
                if c == expected {
                    let _ = self.advance();
                    true
                } else {
                    false
                }
            },
            None => false,
        }
    }

    /// The text of the most recently scanned token.
    fn lexeme(&self) -> (r: String)
        requires
            self.wf(),
        ensures
            r@ == self.src().subrange(self.tok_start(), self.pos()),
    {
        string_range(&self.source, self.start, self.current)
    }

    fn make_token(&self, kind: TokenKind) -> (r: Token)
        ensures
            r.kind == kind,
            r.line == self.line_no(),
    {
        Token { kind, line: self.line }
    }

    fn error_token(&self, message: &str) -> (r: Token)
        ensures
            r.kind matches TokenKind::Error(m) && m@ == message@,
            r.line == self.line_no(),
    {
        Token { kind: TokenKind::Error(String::from_str(message)), line: self.line }
    }

    /// Skip whitespace and `//` comments, counting newlines.
    fn skip_whitespace(&mut self)
        requires
            old(self).wf(),
        ensures
            final(self).wf(),
            final(self).src() == old(self).src(),
            final(self).tok_start() == old(self).tok_start(),
            final(self).pos() == ws_skip(old(self).src(), old(self).pos(), old(self).line_no()).0,
            final(self).line_no() == ws_skip(
                old(self).src(),
                old(self).pos(),
                old(self).line_no(),
            ).1,
    {
        let ghost t = ws_skip(old(self).src(), old(self).pos(), old(self).line_no());
        loop
            invariant
                self.wf(),
                self.src() == old(self).src(),
                self.tok_start() == old(self).tok_start(),
                ws_skip(self.src(), self.pos(), self.line_no()) == t,
            ensures
                self.wf(),
                self.src() == old(self).src(),
                self.tok_start() == old(self).tok_start(),
                self.pos() == t.0,
                self.line_no() == t.1,
            decreases self.src().len() - self.pos(),
        {
            match self.peek() {
                Some(c) => {
                    if c == ' ' || c == '\r' || c == '\t' {
                        let _ = self.advance();
                    } else if c == '\n' {
                        let _ = self.advance();
                        self.line = self.line + 1;
                    } else if c == '/' {
                        let next_is_slash = match self.peek_next() {
                            Some(c2) => c2 == '/',
                            None => false,
                        };
                        if next_is_slash {
                            let ghost p = self.pos();
                            let ghost l = self.line_no();
                            let ghost cend = comment_end(self.src(), p);
                            proof {
                                lemma_comment_end_bounds(self.src(), p);
                                lemma_comment_end_bounds(self.src(), p + 2);
                                assert(comment_end(self.src(), p) == comment_end(
                                    self.src(),
                                    p + 1,
                                ));
                                assert(comment_end(self.src(), p + 1) == comment_end(
                                    self.src(),
                                    p + 2,
                                ));
                            }
                            // Consume the two slashes and the comment text,
                            // stopping before a newline or at the end.
                            loop
                                invariant
                                    self.wf(),
                                    self.src() == old(self).src(),
                                    self.tok_start() == old(self).tok_start(),
                                    self.line_no() == l,
                                    p <= self.pos() <= cend <= self.src().len(),
                                    comment_end(self.src(), self.pos()) == cend,
                                ensures
                                    self.wf(),
                                    self.src() == old(self).src(),
                                    self.tok_start() == old(self).tok_start(),
                                    self.line_no() == l,
                                    self.pos() == cend,
                                decreases self.src().len() - self.pos(),
                            {
                                match self.peek() {
                                    Some(cc) => {
                                        if cc != '\n' {
                                            proof {
                                                lemma_comment_end_bounds(
                                                    self.src(),
                                                    self.pos() + 1,
                                                );
                                            }
                                            let _ = self.advance();
                                        } else {
                                            break ;
                                        }
                                    },
                                    None => { break ; },
                                }
                            }
                            proof {
                                assert(comment_end(self.src(), p) == comment_end(
                                    self.src(),
                                    p + 1,
                                ));
                                assert(comment_end(self.src(), p + 1) == comment_end(
                                    self.src(),
                                    p + 2,
                                ));
                                assert(ws_skip(self.src(), p, l) == ws_skip(
                                    self.src(),
                                    self.pos(),
                                    self.line_no(),
                                ));
                            }
                        } else {
                            break ;
                        }
                    } else {
                        break ;
                    }
                },
                None => { break ; },
            }
        }
    }

    /// Scan the remainder of a string literal; the opening quote has just
    /// been consumed and `start` marks it.  Newlines inside the literal
    /// advance the line counter; reaching the end of the input before a
    /// closing quote is the unterminated-string error.
    fn string(&mut self) -> (r: Token)
        requires
            old(self).wf(),
        ensures
            final(self).wf(),
            final(self).src() == old(self).src(),
            final(self).tok_start() == old(self).tok_start(),
            ({
                let q = quote_end(old(self).src(), old(self).pos());
                if q >= old(self).src().len() {
                    &&& final(self).pos() == old(self).src().len()
                    &&& final(self).line_no() == old(self).line_no() + newlines(
                        old(self).src(),
                        old(self).pos(),
                        old(self).src().len() as int,
                    )
                    &&& r.kind matches TokenKind::Error(m) && m@ == "Unterminated string."@
                } else {
                    &&& final(self).pos() == q + 1
                    &&& final(self).line_no() == old(self).line_no() + newlines(
                        old(self).src(),
                        old(self).pos(),
                        q,
                    )
                    &&& r.kind matches TokenKind::String(sv) && sv@ == old(self).src().subrange(
                        old(self).tok_start(),
                        q + 1,
                    )
                }
            }),
            r.line == final(self).line_no(),
    {
        let ghost p0 = self.pos();
        let ghost l0 = self.line_no();
        let ghost q = quote_end(self.src(), p0);
        proof {
            lemma_quote_end_bounds(self.src(), p0);
        }
        loop
            invariant
                self.wf(),
                self.src() == old(self).src(),
                self.tok_start() == old(self).tok_start(),
                0 <= p0 <= self.pos() <= q <= self.src().len(),
                quote_end(self.src(), self.pos()) == q,
                self.line_no() == l0 + newlines(self.src(), p0, self.pos()),
            ensures
                self.wf(),
                self.src() == old(self).src(),
                self.tok_start() == old(self).tok_start(),
                self.pos() == q,
                self.line_no() == l0 + newlines(self.src(), p0, q),
            decreases self.src().len() - self.pos(),
        {
            match self.peek() {
                Some(c) => {
                    if c == '"' {
                        break ;
                    } else {
                        proof {
                            lemma_quote_end_bounds(self.src(), self.pos() + 1);
                            lemma_newlines_snoc(self.src(), p0, self.pos());
                        }
                        let nl = c == '\n';
                        let _ = self.advance();
                        if nl {
                            self.line = self.line + 1;
                        }
                    }
                },
                None => { break ; },
            }
        }
        if self.is_at_end() {
            return self.error_token("Unterminated string.");
        }
        proof {
            lemma_newlines_snoc(self.src(), p0, q);
        }
        let _ = self.advance();  // the closing quote
        let lexeme = self.lexeme();
        self.make_token(TokenKind::String(lexeme))
    }

    /// Scan the remainder of a number; the first digit has just been
    /// consumed.  A `.` is part of the number only when a digit follows
    /// it directly.
    fn number(&mut self) -> (r: Token)
        requires
            old(self).wf(),
        ensures
            final(self).wf(),
            final(self).src() == old(self).src(),
            final(self).tok_start() == old(self).tok_start(),
            final(self).line_no() == old(self).line_no(),
            final(self).pos() == num_end(old(self).src(), old(self).pos()),
            r.kind matches TokenKind::Number(sv) && sv@ == old(self).src().subrange(
                old(self).tok_start(),
                final(self).pos(),
            ),
            r.line == final(self).line_no(),
    {
        let ghost p0 = self.pos();
        let ghost d1 = digits_end(self.src(), p0);
        proof {
            lemma_digits_end_bounds(self.src(), p0);
        }
        // Consume the integer part.
        loop
            invariant
                self.wf(),
                self.src() == old(self).src(),
                self.tok_start() == old(self).tok_start(),
                self.line_no() == old(self).line_no(),
                p0 <= self.pos() <= d1 <= self.src().len(),
                digits_end(self.src(), self.pos()) == d1,
            ensures
                self.wf(),
                self.src() == old(self).src(),
                self.tok_start() == old(self).tok_start(),
                self.line_no() == old(self).line_no(),
                self.pos() == d1,
            decreases self.src().len() - self.pos(),
        {
            match self.peek() {
                Some(b) => {
                    if '0' <= b && b <= '9' {
                        proof {
                            lemma_digits_end_bounds(self.src(), self.pos() + 1);
                        }
                        let _ = self.advance();
                    } else {
                        break ;
                    }
                },
                None => { break ; },
            }
        }
        // Look for a fractional part.
        let dot = match self.peek() {
            Some(b) => b == '.',
            None => false,
        };
        let frac = match self.peek_next() {
            Some(b) => '0' <= b && b <= '9',
            None => false,
        };
        if dot && frac {
            let _ = self.advance();  // consume the '.'
            let ghost d2 = digits_end(self.src(), d1 + 1);
            proof {
                lemma_digits_end_bounds(self.src(), d1 + 1);
            }
            // Consume the fractional digits.
            loop
                invariant
                    self.wf(),
                    self.src() == old(self).src(),
                    self.tok_start() == old(self).tok_start(),
                    self.line_no() == old(self).line_no(),
                    d1 + 1 <= self.pos() <= d2 <= self.src().len(),
                    digits_end(self.src(), self.pos()) == d2,
                ensures
                    self.wf(),
                    self.src() == old(self).src(),
                    self.tok_start() == old(self).tok_start(),
                    self.line_no() == old(self).line_no(),
                    self.pos() == d2,
                decreases self.src().len() - self.pos(),
            {
                match self.peek() {
                    Some(b) => {
                        if '0' <= b && b <= '9' {
                            proof {
                                lemma_digits_end_bounds(self.src(), self.pos() + 1);
                            }
                            let _ = self.advance();
                        } else {
                            break ;
                        }
                    },
                    None => { break ; },
                }
            }
        }
        let lexeme = self.lexeme();
        Token { kind: TokenKind::Number(lexeme), line: self.line }
    }

    /// May a character begin an identifier?
    fn is_alpha(c: char) -> (r: bool)
        ensures
            r == is_alpha_char(c),
    {
        ('a' <= c && c <= 'z') || ('A' <= c && c <= 'Z') || c == '_'
    }

    /// Scan the remainder of an identifier or keyword; its first
    /// character has just been consumed.
    fn identifier(&mut self) -> (r: Token)
        requires
            old(self).wf(),
        ensures
            final(self).wf(),
            final(self).src() == old(self).src(),
            final(self).tok_start() == old(self).tok_start(),
            final(self).line_no() == old(self).line_no(),
            final(self).pos() == ident_end(old(self).src(), old(self).pos()),
            tok_matches(
                r.kind,
                kw_or_ident_tag(
                    old(self).src().subrange(old(self).tok_start(), final(self).pos()),
                ),
                old(self).src().subrange(old(self).tok_start(), final(self).pos()),
            ),
            r.line == final(self).line_no(),
    {
        let ghost e = ident_end(self.src(), self.pos());
        proof {
            lemma_ident_end_bounds(self.src(), self.pos());
        }
        loop
            invariant
                self.wf(),
                self.src() == old(self).src(),
                self.tok_start() == old(self).tok_start(),
                self.line_no() == old(self).line_no(),
                self.pos() <= e <= self.src().len(),
                ident_end(self.src(), self.pos()) == e,
            ensures
                self.wf(),
                self.src() == old(self).src(),
                self.tok_start() == old(self).tok_start(),
                self.line_no() == old(self).line_no(),
                self.pos() == e,
            decreases self.src().len() - self.pos(),
        {
            match self.peek() {
                Some(b) => {
                    let alnum = Scanner::is_alpha(b) || ('0' <= b && b <= '9');
                    if alnum {
                        proof {
                            lemma_ident_end_bounds(self.src(), self.pos() + 1);
                        }
                        let _ = self.advance();
                    } else {
                        break ;
                    }
                },
                None => { break ; },
            }
        }
        let lexeme = self.lexeme();
        let kind = self.identifier_type(lexeme);
        self.make_token(kind)
    }

    /// Scan the next token.  The result and the scanner's new state are
    /// exactly those of the mathematical scanner `spec_scan`, applied to
    /// the state at entry.
    pub fn scan_token(&mut self) -> (r: Token)
        requires
            old(self).wf(),
        ensures
            final(self).wf(),
            final(self).src() == old(self).src(),
            ({
                let o = spec_scan(old(self).src(), old(self).pos(), old(self).line_no());
                &&& final(self).tok_start() == o.start
                &&& final(self).pos() == o.end
                &&& final(self).line_no() == o.line
                &&& r.line == o.line
                &&& tok_matches(r.kind, o.tag, old(self).src().subrange(o.start, o.end))
            }),
    {
        let ghost o = spec_scan(old(self).src(), old(self).pos(), old(self).line_no());
        self.skip_whitespace();
        self.start = self.current;

        if self.is_at_end() {
            return self.make_token(TokenKind::Eof);
        }

        let c = self.advance().unwrap();

        if Scanner::is_alpha(c) {
            return self.identifier();
        }

        if '0' <= c && c <= '9' {
            return self.number();
        }

        if c == '(' {
            self.make_token(TokenKind::LeftParen)
        } else if c == ')' {
            self.make_token(TokenKind::RightParen)
        } else if c == '{' {
            self.make_token(TokenKind::LeftBrace)
        } else if c == '}' {
            self.make_token(TokenKind::RightBrace)
        } else if c == ';' {
            self.make_token(TokenKind::Semicolon)
        } else if c == ',' {
            self.make_token(TokenKind::Comma)
        } else if c == '.' {
            self.make_token(TokenKind::Dot)
        } else if c == '-' {
            self.make_token(TokenKind::Minus)
        } else if c == '+' {
            self.make_token(TokenKind::Plus)
        } else if c == '/' {
            self.make_token(TokenKind::Slash)
        } else if c == '*' {
            self.make_token(TokenKind::Star)
        } else if c == '!' {
            let kind = if self.match_byte('=') {
                TokenKind::BangEqual
            } else {
                TokenKind::Bang
            };
            self.make_token(kind)
        } else if c == '=' {
            let kind = if self.match_byte('=') {
                TokenKind::EqualEqual
            } else {
                TokenKind::Equal
            };
            self.make_token(kind)
        } else if c == '<' {
            let kind = if self.match_byte('=') {
                TokenKind::LessEqual
            } else {
                TokenKind::Less
            };
            self.make_token(kind)
        } else if c == '>' {
            let kind = if self.match_byte('=') {
                TokenKind::GreaterEqual
            } else {
                TokenKind::Greater
            };
            self.make_token(kind)
        } else if c == '"' {
            self.string()
        } else {
            self.error_token("Unexpected character.")
        }
    }

    /// Classify an identifier lexeme: one of the sixteen keywords, or an
    /// `Identifier` carrying the lexeme.
    fn identifier_type(&self, lexeme: String) -> (r: TokenKind)
        ensures
            tok_matches(r, kw_or_ident_tag(lexeme@), lexeme@),
    {
        if lexeme == String::from_str("and") {
            TokenKind::And
        } else if lexeme == String::from_str("class") {
            TokenKind::Class
        } else if lexeme == String::from_str("else") {
            TokenKind::Else
        } else if lexeme == String::from_str("false") {
            TokenKind::False
        } else if lexeme == String::from_str("for") {
            TokenKind::For
        } else if lexeme == String::from_str("fun") {
            TokenKind::Fun
        } else if lexeme == String::from_str("if") {
            TokenKind::If
        } else if lexeme == String::from_str("nil") {
            TokenKind::Nil
        } else if lexeme == String::from_str("or") {
            TokenKind::Or
        } else if lexeme == String::from_str("print") {
            TokenKind::Print
        } else if lexeme == String::from_str("return") {
            TokenKind::Return
        } else if lexeme == String::from_str("super") {
            TokenKind::Super
        } else if lexeme == String::from_str("this") {
            TokenKind::This
        } else if lexeme == String::from_str("true") {
            TokenKind::True
        } else if lexeme == String::from_str("var") {
            TokenKind::Var
        } else if lexeme == String::from_str("while") {
            TokenKind::While
        } else {
            TokenKind::Identifier(lexeme)
        }
    }
}

/// The lexemes of the `Number` tokens the scanner will produce from
/// state `(p, l)`, in scan order.
pub open spec fn number_lexemes(src: Seq<char>, p: int, l: int) -> Seq<Seq<char>>
    decreases src.len() - spec_scan(src, p, l).start,
    via number_lexemes_dec
{
    if !(0 <= p <= src.len()) {
        Seq::empty()
    } else {
        let t = spec_scan(src, p, l);
        if t.tag is Eof {
            Seq::empty()
        } else if t.tag is Number {
            seq![src.subrange(t.start, t.end)] + number_lexemes(src, t.end, t.line)
        } else {
            number_lexemes(src, t.end, t.line)
        }
    }
}

#[via_fn]
proof fn number_lexemes_dec(src: Seq<char>, p: int, l: int) {
    if 0 <= p <= src.len() {
        lemma_spec_scan_bounds(src, p, l);
        let t = spec_scan(src, p, l);
        if !(t.tag is Eof) {
            lemma_spec_scan_bounds(src, t.end, t.line);
        }
    }
}

/// The number literals of a source, in scan order: the compiler consumes
/// one constant-pool value for each.
pub fn number_literals(source: &str) -> (r: Vec<String>)
    ensures
        r@.len() == number_count(source@, 0, 1),
        r@.map_values(|s: String| s@) == number_lexemes(source@, 0, 1),
{
    let mut scanner = Scanner::new(source);
    let mut out: Vec<String> = Vec::new();
    loop
        invariant
            scanner.wf(),
            scanner.src() == source@,
            out@.len() + number_count(source@, scanner.pos(), scanner.line_no()) == number_count(
                source@,
                0,
                1,
            ),
            out@.map_values(|s: String| s@) + number_lexemes(
                source@,
                scanner.pos(),
                scanner.line_no(),
            ) == number_lexemes(source@, 0, 1),
        ensures
            scanner.wf(),
            out@.len() == number_count(source@, 0, 1),
            out@.map_values(|s: String| s@) == number_lexemes(source@, 0, 1),
        decreases source@.len() - scanner.pos(),
    {
        let ghost p = scanner.pos();
        let ghost l = scanner.line_no();
        let ghost o = spec_scan(source@, p, l);
        proof {
            lemma_spec_scan_bounds(source@, p, l);
        }
        let t = scanner.scan_token();
        match t.kind {
            TokenKind::Eof => {
                proof {
                    assert(o.tag is Eof);
                    assert(number_count(source@, p, l) == 0);
                    assert(number_lexemes(source@, p, l) =~= Seq::<Seq<char>>::empty());
                    assert(out@.map_values(|s: String| s@) =~= number_lexemes(source@, 0, 1));
                }
                break ;
            },
            TokenKind::Number(s) => {
                out.push(s);
                proof {
                    assert(o.tag is Number);
                    assert(out@.map_values(|s: String| s@) =~= out@.subrange(
                        0,
                        out@.len() - 1,
                    ).map_values(|s: String| s@).push(out@[out@.len() - 1]@));
                    assert(out@.subrange(0, out@.len() - 1) =~= out@.drop_last());
                    assert(out@.map_values(|s: String| s@) + number_lexemes(
                        source@,
                        scanner.pos(),
                        scanner.line_no(),
                    ) =~= number_lexemes(source@, 0, 1));
                }
            },
            _ => {
                proof {
                    assert(!(o.tag is Eof) && !(o.tag is Number));
                }
            },
        }
    }
    out
}

} // verus!
