use vstd::prelude::*;

use crate::chunk::{code_safe, expr_seg, lemma_seg_run_concat, lemma_seg_run_frame,
    lemma_seg_run_wider, lemma_seg_then_safe, seg_run, Chunk};
use crate::opcode::{spec_opcode_byte, OpCode};
use crate::scanner::{lemma_spec_scan_bounds, number_count, spec_scan, ScanError, Scanner};
use crate::token::{tok_matches, Token, TokenKind, TokenTag};
use crate::value::Value;

verus! {

/// Why a compilation failed: a token that would not lex, a construct with
/// no parse, or (`Unknown`) an error that was reported along the way and
/// poisoned the result.
#[derive(Debug, PartialEq, Eq)]
pub enum CompileError {
    Scan(ScanError),
    Parse(String),
    Unknown,
}

/// The precedence ladder, lowest to highest.
#[derive(Debug, Clone, Copy, PartialEq, Eq, PartialOrd, Structural)]
pub enum Prec {
    Lowest,
    Assignment,  // =
    Or,  // or
    And,  // and
    Equality,  // == !=
    Comparison,  // < > <= >=
    Term,  // + -
    Factor,  // * /
    Unary,  // ! -
    Call,  // . ()
    Primary,
}

/// The rank of a precedence level, for comparisons.
pub open spec fn prec_rank(p: Prec) -> int {
    match p {
        Prec::Lowest => 0,
        Prec::Assignment => 1,
        Prec::Or => 2,
        Prec::And => 3,
        Prec::Equality => 4,
        Prec::Comparison => 5,
        Prec::Term => 6,
        Prec::Factor => 7,
        Prec::Unary => 8,
        Prec::Call => 9,
        Prec::Primary => 10,
    }
}

/// The binary precedence of a token: `+ -` sit at `Term`, `* /` at
/// `Factor`, every other token below everything (so it never begins a
/// binary operator).
pub open spec fn sp_prec(tag: TokenTag) -> int {
    match tag {
        TokenTag::Plus => 6,
        TokenTag::Minus => 6,
        TokenTag::Star => 7,
        TokenTag::Slash => 7,
        _ => 0,
    }
}

/// The opcode a binary operator token compiles to.
pub open spec fn sp_binop_byte(tag: TokenTag) -> u8 {
    match tag {
        TokenTag::Plus => spec_opcode_byte(OpCode::Add),
        TokenTag::Minus => spec_opcode_byte(OpCode::Subtract),
        TokenTag::Star => spec_opcode_byte(OpCode::Multiply),
        _ => spec_opcode_byte(OpCode::Divide),
    }
}

/// How a parse can abort early.
pub enum CErr {
    ScanUnexpected,
    ScanUnterminated,
    ExpectExpression,
    Reported,
}

/// Does the executable error realize the spec-level one?
pub open spec fn cerr_matches(e: CompileError, ce: CErr) -> bool {
    match ce {
        CErr::ScanUnexpected => e == CompileError::Scan(ScanError::UnexpectedCharacter),
        CErr::ScanUnterminated => e == CompileError::Scan(ScanError::UnterminatedString),
        CErr::ExpectExpression => e matches CompileError::Parse(m) && m@ == "Expect expression"@,
        CErr::Reported => e is Unknown,
    }
}

/// The outcome of a parse phase, relative to the state it began in:
/// whether it aborted (and how), the scan state after it, the line of the
/// last token it consumed, the code it emitted, how many number literals
/// it turned into constants, and whether it reported an error.
pub struct PRes {
    pub ok: bool,
    pub err: CErr,
    pub pos: int,
    pub line: int,
    pub prevline: int,
    pub code: Seq<(u8, usize)>,
    pub nlits: int,
    pub rep: bool,
}

/// The two scan-failure messages are distinct, so an error token tells
/// which failure it carries.
proof fn lemma_error_msgs_distinct()
    ensures
        "Unexpected character."@ != "Unterminated string."@,
{
    reveal_strlit("Unexpected character.");
    reveal_strlit("Unterminated string.");
    assert("Unexpected character."@.len() == 21);
    assert("Unterminated string."@.len() == 20);
}

/// An early abort: nothing consumed beyond what already was, one error
/// reported.
pub open spec fn sp_abort(err: CErr, p: int, l: int, pl: int) -> PRes {
    PRes {
        ok: false,
        err,
        pos: p,
        line: l,
        prevline: pl,
        code: Seq::empty(),
        nlits: 0,
        rep: true,
    }
}

/// A position clamped into `[lo, hi]`.  Sub-parses never move the scan
/// position backwards or past the end, so where this appears below it is
/// the identity; it only makes the termination measure evident.
pub open spec fn clamp_pos(p: int, lo: int, hi: int) -> int {
    if p < lo {
        lo
    } else if p > hi {
        hi
    } else {
        p
    }
}

/// The mathematical parser-and-emitter, precedence-climbing over the
/// token stream of `spec_scan`.  State `(p, l)` is where the token under
/// consideration is scanned from, `mp` the minimum binary precedence that
/// is still consumed, `k` the number of constants already in the pool,
/// `pl` the line of the last consumed token.
///
/// One step parses a prefix construct — a number literal (emitting
/// `Constant` over pool slot `k`, slot 0 with an error report once the
/// pool exceeds 256), a parenthesized sub-expression, or a unary minus
/// (emitting `Negate`) — and then hands over to `sp_binloop` for the
/// binary operators.  Any other token aborts: scan failures surface as
/// such, the rest as "Expect expression".
pub open spec fn sp_parse(src: Seq<char>, p: int, l: int, mp: int, k: int, pl: int) -> PRes
    decreases src.len() - spec_scan(src, p, l).start, 1int,
    via sp_parse_dec
{
    if !(0 <= p <= src.len()) {
        sp_abort(CErr::ExpectExpression, p, l, pl)
    } else {
        let t = spec_scan(src, p, l);
        match t.tag {
            TokenTag::Number => {
                let idx: u8 = if k > 255 {
                    0
                } else {
                    k as u8
                };
                let over = k > 255;
                let code0 = seq![
                    (spec_opcode_byte(OpCode::Constant), t.line as usize),
                    (idx, t.line as usize),
                ];
                let lr = sp_binloop(src, t.end, t.line, mp, k + 1, t.line);
                PRes {
                    ok: lr.ok,
                    err: lr.err,
                    pos: lr.pos,
                    line: lr.line,
                    prevline: lr.prevline,
                    code: code0 + lr.code,
                    nlits: 1 + lr.nlits,
                    rep: over || lr.rep,
                }
            },
            TokenTag::LeftParen => {
                let inner = sp_parse(src, t.end, t.line, 1, k, t.line);
                if !inner.ok {
                    inner
                } else {
                    let ip = clamp_pos(inner.pos, t.end, src.len() as int);
                    let t2 = spec_scan(src, ip, inner.line);
                    if t2.tag is RightParen {
                        let lr = sp_binloop(src, t2.end, t2.line, mp, k + inner.nlits, t2.line);
                        PRes {
                            ok: lr.ok,
                            err: lr.err,
                            pos: lr.pos,
                            line: lr.line,
                            prevline: lr.prevline,
                            code: inner.code + lr.code,
                            nlits: inner.nlits + lr.nlits,
                            rep: inner.rep || lr.rep,
                        }
                    } else {
                        // The `)` is missing: that is reported, and parsing
                        // continues without consuming the offending token.
                        let lr = sp_binloop(src, ip, inner.line, mp, k + inner.nlits,
                            inner.prevline);
                        PRes {
                            ok: lr.ok,
                            err: lr.err,
                            pos: lr.pos,
                            line: lr.line,
                            prevline: lr.prevline,
                            code: inner.code + lr.code,
                            nlits: inner.nlits + lr.nlits,
                            rep: true,
                        }
                    }
                }
            },
            TokenTag::Minus => {
                let inner = sp_parse(src, t.end, t.line, 8, k, t.line);
                if !inner.ok {
                    inner
                } else {
                    let ip = clamp_pos(inner.pos, t.end, src.len() as int);
                    let code1 = inner.code + seq![
                        (spec_opcode_byte(OpCode::Negate), inner.prevline as usize),
                    ];
                    let lr = sp_binloop(src, ip, inner.line, mp, k + inner.nlits, inner.prevline);
                    PRes {
                        ok: lr.ok,
                        err: lr.err,
                        pos: lr.pos,
                        line: lr.line,
                        prevline: lr.prevline,
                        code: code1 + lr.code,
                        nlits: inner.nlits + lr.nlits,
                        rep: inner.rep || lr.rep,
                    }
                }
            },
            TokenTag::ErrUnexpected => sp_abort(CErr::ScanUnexpected, p, l, pl),
            TokenTag::ErrUnterminated => sp_abort(CErr::ScanUnterminated, p, l, pl),
            _ => sp_abort(CErr::ExpectExpression, p, l, pl),
        }
    }
}

/// The binary-operator loop: while the token under consideration binds at
/// least as tightly as `mp`, consume it, parse the right operand one
/// level higher (left-associativity), and emit the operator's opcode,
/// tagged with the line of the operand's last token.
pub open spec fn sp_binloop(src: Seq<char>, p: int, l: int, mp: int, k: int, pl: int) -> PRes
    decreases src.len() - spec_scan(src, p, l).start, 0int,
    via sp_binloop_dec
{
    let done = PRes {
        ok: true,
        err: CErr::Reported,
        pos: p,
        line: l,
        prevline: pl,
        code: Seq::empty(),
        nlits: 0,
        rep: false,
    };
    if !(0 <= p <= src.len()) {
        done
    } else {
        let t = spec_scan(src, p, l);
        let is_op = t.tag is Plus || t.tag is Minus || t.tag is Star || t.tag is Slash;
        if !is_op || sp_prec(t.tag) < mp {
            done
        } else {
            let rhs = sp_parse(src, t.end, t.line, sp_prec(t.tag) + 1, k, t.line);
            if !rhs.ok {
                rhs
            } else {
                let ip = clamp_pos(rhs.pos, t.end, src.len() as int);
                let code1 = rhs.code + seq![(sp_binop_byte(t.tag), rhs.prevline as usize)];
                let lr = sp_binloop(src, ip, rhs.line, mp, k + rhs.nlits, rhs.prevline);
                PRes {
                    ok: lr.ok,
                    err: lr.err,
                    pos: lr.pos,
                    line: lr.line,
                    prevline: lr.prevline,
                    code: code1 + lr.code,
                    nlits: rhs.nlits + lr.nlits,
                    rep: rhs.rep || lr.rep,
                }
            }
        }
    }
}

#[via_fn]
proof fn sp_parse_dec(src: Seq<char>, p: int, l: int, mp: int, k: int, pl: int) {
    scan_bounds_everywhere(src);
}

#[via_fn]
proof fn sp_binloop_dec(src: Seq<char>, p: int, l: int, mp: int, k: int, pl: int) {
    scan_bounds_everywhere(src);
}

/// The bounds of `lemma_spec_scan_bounds`, quantified over every scan
/// state of one source.
proof fn scan_bounds_everywhere(src: Seq<char>)
    ensures
        forall|q: int, ll: int|
            0 <= q <= src.len() ==> {
                let o = #[trigger] spec_scan(src, q, ll);
                &&& q <= o.start <= o.end <= src.len()
                &&& (!(o.tag is Eof) ==> o.start < o.end)
            },
{
    assert forall|q: int, ll: int| 0 <= q <= src.len() implies {
        let o = #[trigger] spec_scan(src, q, ll);
        &&& q <= o.start <= o.end <= src.len()
        &&& (!(o.tag is Eof) ==> o.start < o.end)
    } by {
        lemma_spec_scan_bounds(src, q, ll);
    }
}

/// The whole compilation: parse one expression from the top, then require
/// `Eof` (reporting if something follows), then emit the trailing
/// `Return`.  `ok` says whether compilation as a whole succeeds: an early
/// abort or any reported error poisons it.
pub open spec fn sp_compile(src: Seq<char>) -> PRes {
    let e = sp_parse(src, 0, 1, 1, 0, 0);
    if !e.ok {
        e
    } else {
        let ip = clamp_pos(e.pos, 0, src.len() as int);
        let t2 = spec_scan(src, ip, e.line);
        let at_eof = t2.tag is Eof;
        let pos2 = if at_eof {
            t2.end
        } else {
            ip
        };
        let line2 = if at_eof {
            t2.line
        } else {
            e.line
        };
        let pl2 = if at_eof {
            t2.line
        } else {
            e.prevline
        };
        let rep2 = e.rep || !at_eof;
        PRes {
            ok: !rep2,
            err: CErr::Reported,
            pos: pos2,
            line: line2,
            prevline: pl2,
            code: e.code + seq![(spec_opcode_byte(OpCode::Return), pl2 as usize)],
            nlits: e.nlits,
            rep: rep2,
        }
    }
}

// ---------------------------------------------------------------------------
// The executable parser.
// ---------------------------------------------------------------------------
/// One compile diagnostic, ready for rendering: the source line, the
/// offending token's lexeme and the message.  `at_end` marks a complaint
/// at the end of the input, `scan_fault` one about a token that itself
/// failed to lex.
#[derive(Debug)]
pub struct Diag {
    pub line: usize,
    pub lexeme: String,
    pub message: String,
    pub at_end: bool,
    pub scan_fault: bool,
}

/// A number distinguishing the token kinds, payloads ignored: two kinds
/// compare equal exactly when their numbers do.
pub open spec fn kind_num(k: TokenKind) -> int {
    match k {
        TokenKind::LeftParen => 0,
        TokenKind::RightParen => 1,
        TokenKind::LeftBrace => 2,
        TokenKind::RightBrace => 3,
        TokenKind::Comma => 4,
        TokenKind::Dot => 5,
        TokenKind::Minus => 6,
        TokenKind::Plus => 7,
        TokenKind::Semicolon => 8,
        TokenKind::Slash => 9,
        TokenKind::Star => 10,
        TokenKind::Bang => 11,
        TokenKind::BangEqual => 12,
        TokenKind::Equal => 13,
        TokenKind::EqualEqual => 14,
        TokenKind::Greater => 15,
        TokenKind::GreaterEqual => 16,
        TokenKind::Less => 17,
        TokenKind::LessEqual => 18,
        TokenKind::Identifier(_) => 19,
        TokenKind::String(_) => 20,
        TokenKind::Number(_) => 21,
        TokenKind::And => 22,
        TokenKind::Class => 23,
        TokenKind::Else => 24,
        TokenKind::False => 25,
        TokenKind::For => 26,
        TokenKind::Fun => 27,
        TokenKind::If => 28,
        TokenKind::Nil => 29,
        TokenKind::Or => 30,
        TokenKind::Print => 31,
        TokenKind::Return => 32,
        TokenKind::Super => 33,
        TokenKind::This => 34,
        TokenKind::True => 35,
        TokenKind::Var => 36,
        TokenKind::While => 37,
        TokenKind::Error(_) => 38,
        TokenKind::Eof => 39,
    }
}

fn kind_num_ex(k: &TokenKind) -> (r: u8)
    ensures
        r as int == kind_num(*k),
{
    match k {
        TokenKind::LeftParen => 0,
        TokenKind::RightParen => 1,
        TokenKind::LeftBrace => 2,
        TokenKind::RightBrace => 3,
        TokenKind::Comma => 4,
        TokenKind::Dot => 5,
        TokenKind::Minus => 6,
        TokenKind::Plus => 7,
        TokenKind::Semicolon => 8,
        TokenKind::Slash => 9,
        TokenKind::Star => 10,
        TokenKind::Bang => 11,
        TokenKind::BangEqual => 12,
        TokenKind::Equal => 13,
        TokenKind::EqualEqual => 14,
        TokenKind::Greater => 15,
        TokenKind::GreaterEqual => 16,
        TokenKind::Less => 17,
        TokenKind::LessEqual => 18,
        TokenKind::Identifier(_) => 19,
        TokenKind::String(_) => 20,
        TokenKind::Number(_) => 21,
        TokenKind::And => 22,
        TokenKind::Class => 23,
        TokenKind::Else => 24,
        TokenKind::False => 25,
        TokenKind::For => 26,
        TokenKind::Fun => 27,
        TokenKind::If => 28,
        TokenKind::Nil => 29,
        TokenKind::Or => 30,
        TokenKind::Print => 31,
        TokenKind::Return => 32,
        TokenKind::Super => 33,
        TokenKind::This => 34,
        TokenKind::True => 35,
        TokenKind::Var => 36,
        TokenKind::While => 37,
        TokenKind::Error(_) => 38,
        TokenKind::Eof => 39,
    }
}

/// Driver of the scanner, holding one token of lookahead (`current`) and
/// the last consumed token (`previous`), the sticky `had_error` flag, the
/// cascade-suppressing `panic_mode` flag, and the diagnostics reported so
/// far.  The ghost anchor records the scan state `current` was read from.
pub struct Parser {
    scanner: Scanner,
    current: Token,
    previous: Token,
    had_error: bool,
    panic_mode: bool,
    diags: Vec<Diag>,
    anchor: Ghost<(int, int)>,
}

impl Parser {
    /// The source text being parsed.
    pub closed spec fn src(&self) -> Seq<char> {
        self.scanner.src()
    }

    /// The scan position the current token was read from.
    pub closed spec fn apos(&self) -> int {
        self.anchor@.0
    }

    /// The line counter the current token was read from.
    pub closed spec fn aline(&self) -> int {
        self.anchor@.1
    }

    /// The line of the last consumed token.
    pub closed spec fn prevline(&self) -> int {
        self.previous.line as int
    }

    pub closed spec fn had_err(&self) -> bool {
        self.had_error
    }

    pub closed spec fn diags_view(&self) -> Seq<Diag> {
        self.diags@
    }

    /// What remains of the source from the current token on: the
    /// termination measure of the parse.
    pub closed spec fn measure(&self) -> int {
        self.scanner.src().len() - self.scanner.tok_start()
    }

    pub closed spec fn wf(&self) -> bool {
        &&& self.scanner.wf()
        &&& 0 <= self.anchor@.0 <= self.scanner.src().len()
        &&& 1 <= self.anchor@.1 <= self.anchor@.0 + 1
        &&& {
            let o = spec_scan(self.scanner.src(), self.anchor@.0, self.anchor@.1);
            &&& self.scanner.pos() == o.end
            &&& self.scanner.tok_start() == o.start
            &&& self.scanner.line_no() == o.line
            &&& self.current.line as int == o.line
            &&& tok_matches(
                self.current.kind,
                o.tag,
                self.scanner.src().subrange(o.start, o.end),
            )
        }
        &&& self.panic_mode == self.had_error
        &&& self.diags@.len() == (if self.had_error {
            1int
        } else {
            0int
        })
    }

    fn new(source: &str) -> (r: Parser)
        ensures
            r.wf(),
            r.src() == source@,
            r.apos() == 0,
            r.aline() == 1,
            r.prevline() == 0,
            !r.had_err(),
            r.diags_view() == Seq::<Diag>::empty(),
    {
        let mut scanner = Scanner::new(source);
        let current = scanner.scan_token();
        Parser {
            scanner,
            current,
            previous: Token::new(TokenKind::Eof, 0),
            had_error: false,
            panic_mode: false,
            diags: Vec::new(),
            anchor: Ghost((0int, 1int)),
        }
    }

    /// Step the lookahead: the current token becomes the previous one and
    /// the next token is scanned.
    fn advance(&mut self)
        requires
            old(self).wf(),
        ensures
            final(self).wf(),
            final(self).src() == old(self).src(),
            final(self).had_err() == old(self).had_err(),
            final(self).diags_view() == old(self).diags_view(),
            ({
                let o = spec_scan(old(self).src(), old(self).apos(), old(self).aline());
                &&& final(self).apos() == o.end
                &&& final(self).aline() == o.line
                &&& final(self).prevline() == o.line
                &&& final(self).previous == old(self).current
            }),
            final(self).measure() <= old(self).measure(),
            !(old(self).current.kind is Eof) ==> final(self).measure() < old(self).measure(),
    {
        proof {
            lemma_spec_scan_bounds(old(self).src(), old(self).apos(), old(self).aline());
        }
        let ghost a = (self.scanner.pos(), self.scanner.line_no());
        core::mem::swap(&mut self.previous, &mut self.current);
        self.current = self.scanner.scan_token();
        self.anchor = Ghost(a);
        proof {
            lemma_spec_scan_bounds(final(self).src(), a.0, a.1);
        }
    }

    /// Report an error at a token: print-ready diagnostics are collected,
    /// but only the first of a cascade (panic mode suppresses the rest).
    fn error_at(&mut self, token: &Token, message: &str)
        requires
            old(self).wf(),
        ensures
            final(self).wf(),
            final(self).src() == old(self).src(),
            final(self).apos() == old(self).apos(),
            final(self).aline() == old(self).aline(),
            final(self).prevline() == old(self).prevline(),
            final(self).previous == old(self).previous,
            final(self).current == old(self).current,
            final(self).measure() == old(self).measure(),
            final(self).had_err(),
            final(self).diags_view().len() == 1,
    {
        if self.panic_mode {
            return ;
        }
        self.panic_mode = true;
        let lexeme = token.lexeme();
        let diag = Diag {
            line: token.line,
            lexeme,
            message: String::from_str(message),
            at_end: matches!(token.kind, TokenKind::Eof),
            scan_fault: matches!(token.kind, TokenKind::Error(_)),
        };
        self.diags.push(diag);
        self.had_error = true;
    }

    /// Report an error at the last consumed token.
    fn error(&mut self, message: &str)
        requires
            old(self).wf(),
        ensures
            final(self).wf(),
            final(self).src() == old(self).src(),
            final(self).apos() == old(self).apos(),
            final(self).aline() == old(self).aline(),
            final(self).prevline() == old(self).prevline(),
            final(self).previous == old(self).previous,
            final(self).current == old(self).current,
            final(self).measure() == old(self).measure(),
            final(self).had_err(),
            final(self).diags_view().len() == 1,
    {
        let token = self.previous.clone();
        self.error_at(&token, message);
    }

    /// Report an error at the current token.
    fn error_at_current(&mut self, message: &str)
        requires
            old(self).wf(),
        ensures
            final(self).wf(),
            final(self).src() == old(self).src(),
            final(self).apos() == old(self).apos(),
            final(self).aline() == old(self).aline(),
            final(self).prevline() == old(self).prevline(),
            final(self).previous == old(self).previous,
            final(self).current == old(self).current,
            final(self).measure() == old(self).measure(),
            final(self).had_err(),
            final(self).diags_view().len() == 1,
    {
        let token = self.current.clone();
        self.error_at(&token, message);
    }

    /// Consume the current token when it is of the expected kind, else
    /// report `message` at it.
    fn consume(&mut self, kind: TokenKind, message: &str)
        requires
            old(self).wf(),
        ensures
            final(self).wf(),
            final(self).src() == old(self).src(),
            final(self).measure() <= old(self).measure(),
            ({
                let o = spec_scan(old(self).src(), old(self).apos(), old(self).aline());
                if kind_num(old(self).current.kind) == kind_num(kind) {
                    &&& final(self).apos() == o.end
                    &&& final(self).aline() == o.line
                    &&& final(self).prevline() == o.line
                    &&& final(self).had_err() == old(self).had_err()
                    &&& final(self).diags_view() == old(self).diags_view()
                    &&& (!(old(self).current.kind is Eof) ==> final(self).measure() < old(
                        self,
                    ).measure())
                } else {
                    &&& final(self).apos() == old(self).apos()
                    &&& final(self).aline() == old(self).aline()
                    &&& final(self).prevline() == old(self).prevline()
                    &&& final(self).had_err()
                    &&& final(self).diags_view().len() == 1
                }
            }),
    {
        let matches_kind = kind_num_ex(&self.current.kind) == kind_num_ex(&kind);
        if matches_kind {
            self.advance();
        } else {
            self.error_at_current(message);
        }
    }
}

// ---------------------------------------------------------------------------
// The compiler: parser plus emitter.
// ---------------------------------------------------------------------------
/// The single-pass compiler: drives the scanner through the parser and
/// emits bytecode into the chunk it owns as a side effect of parsing.
///
/// The numeric values of the literals are supplied up front, one `Value`
/// per `Number` token of the source in scan order (`values`): the
/// execution core stores and indexes value slots but leaves decimal
/// conversion, like all other numeric interpretation, to the driver.
pub struct Compiler {
    parser: Parser,
    chunk: Chunk,
    values: Vec<Value>,
}

impl Compiler {
    /// The source text being compiled.
    pub closed spec fn src(&self) -> Seq<char> {
        self.parser.src()
    }

    /// The literal values supplied at construction.
    pub closed spec fn vals(&self) -> Seq<Value> {
        self.values@
    }

    /// The code emitted so far.
    pub closed spec fn code(&self) -> Seq<(u8, usize)> {
        self.chunk.code@
    }

    /// The constant pool so far.
    pub closed spec fn consts(&self) -> Seq<Value> {
        self.chunk.constants@
    }

    pub closed spec fn apos(&self) -> int {
        self.parser.apos()
    }

    pub closed spec fn aline(&self) -> int {
        self.parser.aline()
    }

    pub closed spec fn prevline(&self) -> int {
        self.parser.prevline()
    }

    pub closed spec fn had_err(&self) -> bool {
        self.parser.had_err()
    }

    pub closed spec fn diags_view(&self) -> Seq<Diag> {
        self.parser.diags_view()
    }

    pub closed spec fn measure(&self) -> int {
        self.parser.measure()
    }

    /// Every constant so far is the corresponding supplied literal value,
    /// and enough supplied values remain for the number literals still
    /// ahead in the source.
    pub closed spec fn wf(&self) -> bool {
        &&& self.parser.wf()
        &&& self.chunk.constants@ == self.values@.subrange(0, self.chunk.constants@.len() as int)
        &&& self.chunk.constants@.len() + number_count(
            self.parser.src(),
            self.parser.apos(),
            self.parser.aline(),
        ) <= self.values@.len()
    }

    /// A compiler that has not compiled anything yet.
    pub closed spec fn fresh(&self) -> bool {
        &&& self.apos() == 0
        &&& self.aline() == 1
        &&& self.prevline() == 0
        &&& !self.had_err()
        &&& self.code() == Seq::<(u8, usize)>::empty()
        &&& self.consts() == Seq::<Value>::empty()
    }

    /// A compiler over `source`, with the value of each number literal of
    /// the source supplied in scan order.
    pub fn new(source: &str, values: Vec<Value>) -> (r: Compiler)
        requires
            number_count(source@, 0, 1) <= values@.len(),
        ensures
            r.wf(),
            r.fresh(),
            r.src() == source@,
            r.vals() == values@,
    {
        let r = Compiler { parser: Parser::new(source), chunk: Chunk::new(), values };
        proof {
            assert(r.chunk.constants@ =~= r.values@.subrange(0, 0));
        }
        r
    }

    /// The diagnostics reported so far; at most one per panic-mode
    /// episode.
    pub fn diagnostics(&self) -> (r: &Vec<Diag>)
        ensures
            r@ == self.diags_view(),
    {
        &self.parser.diags
    }

    /// Append one byte, tagged with the line of the last consumed token.
    fn emit_byte(&mut self, byte: u8)
        requires
            old(self).wf(),
        ensures
            final(self).wf(),
            final(self).src() == old(self).src(),
            final(self).vals() == old(self).vals(),
            final(self).code() == old(self).code().push((byte, old(self).prevline() as usize)),
            final(self).consts() == old(self).consts(),
            final(self).apos() == old(self).apos(),
            final(self).aline() == old(self).aline(),
            final(self).prevline() == old(self).prevline(),
            final(self).had_err() == old(self).had_err(),
            final(self).diags_view() == old(self).diags_view(),
            final(self).measure() == old(self).measure(),
            final(self).parser == old(self).parser,
    {
        let line = self.parser.previous.line;
        self.chunk.write(byte, line);
    }

    fn emit_bytes(&mut self, byte1: u8, byte2: u8)
        requires
            old(self).wf(),
        ensures
            final(self).wf(),
            final(self).src() == old(self).src(),
            final(self).vals() == old(self).vals(),
            final(self).code() == old(self).code().push(
                (byte1, old(self).prevline() as usize),
            ).push((byte2, old(self).prevline() as usize)),
            final(self).consts() == old(self).consts(),
            final(self).apos() == old(self).apos(),
            final(self).aline() == old(self).aline(),
            final(self).prevline() == old(self).prevline(),
            final(self).had_err() == old(self).had_err(),
            final(self).diags_view() == old(self).diags_view(),
            final(self).measure() == old(self).measure(),
            final(self).parser == old(self).parser,
    {
        self.emit_byte(byte1);
        self.emit_byte(byte2);
    }

    /// Append the trailing `Return`.
    fn emit_return(&mut self)
        requires
            old(self).wf(),
        ensures
            final(self).wf(),
            final(self).src() == old(self).src(),
            final(self).vals() == old(self).vals(),
            final(self).code() == old(self).code().push(
                (spec_opcode_byte(OpCode::Return), old(self).prevline() as usize),
            ),
            final(self).consts() == old(self).consts(),
            final(self).apos() == old(self).apos(),
            final(self).aline() == old(self).aline(),
            final(self).prevline() == old(self).prevline(),
            final(self).had_err() == old(self).had_err(),
            final(self).diags_view() == old(self).diags_view(),
            final(self).measure() == old(self).measure(),
    {
        self.emit_byte(OpCode::Return.to_byte());
    }

    /// Add a value to the pool and return its operand byte; a pool grown
    /// past 256 entries is reported and index 0 substituted, so that
    /// parsing can continue and surface later errors too.
    fn make_constant(&mut self, value: Value) -> (r: u8)
        requires
            old(self).wf(),
            old(self).consts().len() + 1 + number_count(
                old(self).src(),
                old(self).apos(),
                old(self).aline(),
            ) <= old(self).vals().len(),
            value == old(self).vals()[old(self).consts().len() as int],
        ensures
            final(self).wf(),
            final(self).src() == old(self).src(),
            final(self).vals() == old(self).vals(),
            final(self).code() == old(self).code(),
            final(self).consts() == old(self).consts().push(value),
            final(self).apos() == old(self).apos(),
            final(self).aline() == old(self).aline(),
            final(self).prevline() == old(self).prevline(),
            final(self).measure() == old(self).measure(),
            r as int == (if old(self).consts().len() > 255 {
                0int
            } else {
                old(self).consts().len() as int
            }),
            ({
                if old(self).consts().len() > 255 {
                    final(self).had_err() && final(self).diags_view().len() == 1
                } else {
                    final(self).had_err() == old(self).had_err() && final(self).diags_view()
                        == old(self).diags_view()
                }
            }),
    {
        let constant = self.chunk.add_constant(value);
        proof {
            crate::scanner::lemma_number_count_nonneg(
                self.parser.src(),
                self.parser.apos(),
                self.parser.aline(),
            );
            assert(self.chunk.constants@ =~= self.values@.subrange(
                0,
                self.chunk.constants@.len() as int,
            ));
        }
        if constant > u8::MAX as usize {
            self.parser.error("Too many constants in this chunk.");
            return 0;
        }
        constant as u8
    }

    /// Emit a `Constant` instruction pushing `value`.
    fn emit_constant(&mut self, value: Value)
        requires
            old(self).wf(),
            old(self).consts().len() + 1 + number_count(
                old(self).src(),
                old(self).apos(),
                old(self).aline(),
            ) <= old(self).vals().len(),
            value == old(self).vals()[old(self).consts().len() as int],
        ensures
            final(self).wf(),
            final(self).src() == old(self).src(),
            final(self).vals() == old(self).vals(),
            final(self).code() == old(self).code().push(
                (spec_opcode_byte(OpCode::Constant), old(self).prevline() as usize),
            ).push(
                (
                    (if old(self).consts().len() > 255 {
                        0u8
                    } else {
                        old(self).consts().len() as u8
                    }),
                    old(self).prevline() as usize,
                ),
            ),
            final(self).consts() == old(self).consts().push(value),
            final(self).apos() == old(self).apos(),
            final(self).aline() == old(self).aline(),
            final(self).prevline() == old(self).prevline(),
            final(self).measure() == old(self).measure(),
            ({
                if old(self).consts().len() > 255 {
                    final(self).had_err() && final(self).diags_view().len() == 1
                } else {
                    final(self).had_err() == old(self).had_err() && final(self).diags_view()
                        == old(self).diags_view()
                }
            }),
    {
        let byte2 = self.make_constant(value);
        self.emit_bytes(OpCode::Constant.to_byte(), byte2);
    }

    /// Finish the chunk: emit the trailing `Return`.
    fn end_compiler(&mut self)
        requires
            old(self).wf(),
        ensures
            final(self).wf(),
            final(self).src() == old(self).src(),
            final(self).vals() == old(self).vals(),
            final(self).code() == old(self).code().push(
                (spec_opcode_byte(OpCode::Return), old(self).prevline() as usize),
            ),
            final(self).consts() == old(self).consts(),
            final(self).apos() == old(self).apos(),
            final(self).aline() == old(self).aline(),
            final(self).prevline() == old(self).prevline(),
            final(self).had_err() == old(self).had_err(),
            final(self).diags_view() == old(self).diags_view(),
    {
        self.emit_return();
    }

    /// Step the lookahead.
    fn advance(&mut self)
        requires
            old(self).wf(),
        ensures
            final(self).wf(),
            final(self).src() == old(self).src(),
            final(self).vals() == old(self).vals(),
            final(self).code() == old(self).code(),
            final(self).consts() == old(self).consts(),
            final(self).had_err() == old(self).had_err(),
            final(self).diags_view() == old(self).diags_view(),
            ({
                let o = spec_scan(old(self).src(), old(self).apos(), old(self).aline());
                &&& final(self).apos() == o.end
                &&& final(self).aline() == o.line
                &&& final(self).prevline() == o.line
                &&& final(self).parser.previous == old(self).parser.current
            }),
            final(self).measure() <= old(self).measure(),
            !(old(self).parser.current.kind is Eof) ==> final(self).measure() < old(
                self,
            ).measure(),
    {
        proof {
            number_count_unfold(old(self).src(), old(self).apos(), old(self).aline());
        }
        self.parser.advance();
    }
}

/// One unfolding of `number_count`, for re-establishing the value budget
/// after a token is consumed.
proof fn number_count_unfold(src: Seq<char>, p: int, l: int)
    requires
        0 <= p <= src.len(),
    ensures
        ({
            let t = spec_scan(src, p, l);
            number_count(src, p, l) == if t.tag is Eof {
                0int
            } else {
                (if t.tag is Number {
                    1int
                } else {
                    0int
                }) + number_count(src, t.end, t.line)
            }
        }),
{
}

/// The binary precedence of a token kind, as `sp_prec` is of tags.
pub open spec fn kind_prec(k: TokenKind) -> int {
    match k {
        TokenKind::Plus => 6,
        TokenKind::Minus => 6,
        TokenKind::Star => 7,
        TokenKind::Slash => 7,
        _ => 0,
    }
}

/// The opcode byte a binary operator kind compiles to.
pub open spec fn kind_binop_byte(k: TokenKind) -> u8 {
    match k {
        TokenKind::Plus => spec_opcode_byte(OpCode::Add),
        TokenKind::Minus => spec_opcode_byte(OpCode::Subtract),
        TokenKind::Star => spec_opcode_byte(OpCode::Multiply),
        _ => spec_opcode_byte(OpCode::Divide),
    }
}

/// The binary precedence of a token: `+ -` at `Term`, `* /` at `Factor`,
/// everything else at the bottom of the ladder.
pub fn get_precedence(kind: &TokenKind) -> (r: Prec)
    ensures
        prec_rank(r) == kind_prec(*kind),
{
    match kind {
        TokenKind::Plus | TokenKind::Minus => Prec::Term,
        TokenKind::Star | TokenKind::Slash => Prec::Factor,
        _ => Prec::Lowest,
    }
}

/// The next level up the precedence ladder (left-associativity: a binary
/// operator's right operand is parsed one level above the operator).
pub fn next_prec(prec: &Prec) -> (r: Prec)
    ensures
        prec_rank(r) == if *prec is Primary {
            10int
        } else {
            prec_rank(*prec) + 1
        },
{
    match prec {
        Prec::Lowest => Prec::Assignment,
        Prec::Assignment => Prec::Or,
        Prec::Or => Prec::And,
        Prec::And => Prec::Equality,
        Prec::Equality => Prec::Comparison,
        Prec::Comparison => Prec::Term,
        Prec::Term => Prec::Factor,
        Prec::Factor => Prec::Unary,
        Prec::Unary => Prec::Call,
        Prec::Call => Prec::Primary,
        Prec::Primary => Prec::Primary,
    }
}

/// The rank of a precedence level, for the ladder comparisons.
fn prec_value(p: &Prec) -> (r: u8)
    ensures
        r as int == prec_rank(*p),
{
    match p {
        Prec::Lowest => 0,
        Prec::Assignment => 1,
        Prec::Or => 2,
        Prec::And => 3,
        Prec::Equality => 4,
        Prec::Comparison => 5,
        Prec::Term => 6,
        Prec::Factor => 7,
        Prec::Unary => 8,
        Prec::Call => 9,
        Prec::Primary => 10,
    }
}

impl Compiler {
    /// A parenthesized sub-expression; the `(` has just been consumed.
    /// Parses the inside and requires the matching `)`.
    fn grouping(&mut self) -> (r: Result<(), CompileError>)
        requires
            old(self).wf(),
        ensures
            final(self).wf(),
            final(self).src() == old(self).src(),
            final(self).vals() == old(self).vals(),
            final(self).apos() >= old(self).apos(),
            final(self).measure() <= old(self).measure(),
            ({
                let inner = sp_parse(
                    old(self).src(),
                    old(self).apos(),
                    old(self).aline(),
                    1,
                    old(self).consts().len() as int,
                    old(self).prevline(),
                );
                &&& (r is Ok <==> inner.ok)
                &&& (r matches Err(e) ==> !inner.ok && cerr_matches(e, inner.err))
                &&& final(self).code() == old(self).code() + inner.code
                &&& final(self).consts().len() == old(self).consts().len() + inner.nlits
                &&& inner.nlits >= 0
                &&& old(self).apos() <= inner.pos <= old(self).src().len()
                &&& (!inner.ok ==> {
                    &&& final(self).apos() == inner.pos
                    &&& final(self).aline() == inner.line
                    &&& final(self).prevline() == inner.prevline
                    &&& final(self).had_err() == (old(self).had_err() || inner.rep)
                })
                &&& (inner.ok ==> {
                    let t2 = spec_scan(old(self).src(), inner.pos, inner.line);
                    &&& expr_seg(
                        final(self).code(),
                        final(self).consts().len() as int,
                        old(self).code().len() as int,
                        final(self).code().len() as int,
                    )
                    &&& (t2.tag is RightParen ==> {
                        &&& final(self).apos() == t2.end
                        &&& final(self).aline() == t2.line
                        &&& final(self).prevline() == t2.line
                        &&& final(self).had_err() == (old(self).had_err() || inner.rep)
                    })
                    &&& (!(t2.tag is RightParen) ==> {
                        &&& final(self).apos() == inner.pos
                        &&& final(self).aline() == inner.line
                        &&& final(self).prevline() == inner.prevline
                        &&& final(self).had_err()
                    })
                })
            }),
        decreases old(self).measure(), 2int,
    {
        let r = self.expression();
        match r {
            Err(e) => {
                return Err(e);
            },
            Ok(()) => {},
        }
        proof {
            lemma_spec_scan_bounds(self.src(), self.apos(), self.aline());
        }
        self.parser.consume(TokenKind::RightParen, "Expect '(' after expression.");
        Ok(())
    }

    /// A unary minus; the `-` has just been consumed.  Parses the operand
    /// at `Unary` precedence, then emits `Negate`.
    fn unary(&mut self) -> (r: Result<(), CompileError>)
        requires
            old(self).wf(),
            old(self).parser.previous.kind is Minus,
        ensures
            final(self).wf(),
            final(self).src() == old(self).src(),
            final(self).vals() == old(self).vals(),
            final(self).apos() >= old(self).apos(),
            final(self).measure() <= old(self).measure(),
            ({
                let inner = sp_parse(
                    old(self).src(),
                    old(self).apos(),
                    old(self).aline(),
                    8,
                    old(self).consts().len() as int,
                    old(self).prevline(),
                );
                &&& (r is Ok <==> inner.ok)
                &&& (r matches Err(e) ==> !inner.ok && cerr_matches(e, inner.err))
                &&& final(self).consts().len() == old(self).consts().len() + inner.nlits
                &&& inner.nlits >= 0
                &&& (!inner.ok ==> {
                    &&& final(self).code() == old(self).code() + inner.code
                    &&& final(self).apos() == inner.pos
                    &&& final(self).aline() == inner.line
                    &&& final(self).prevline() == inner.prevline
                    &&& final(self).had_err() == (old(self).had_err() || inner.rep)
                })
                &&& (inner.ok ==> {
                    &&& final(self).code() == old(self).code() + inner.code + seq![
                        (spec_opcode_byte(OpCode::Negate), inner.prevline as usize),
                    ]
                    &&& final(self).apos() == inner.pos
                    &&& final(self).aline() == inner.line
                    &&& final(self).prevline() == inner.prevline
                    &&& final(self).had_err() == (old(self).had_err() || inner.rep)
                    &&& expr_seg(
                        final(self).code(),
                        final(self).consts().len() as int,
                        old(self).code().len() as int,
                        final(self).code().len() as int,
                    )
                })
            }),
        decreases old(self).measure(), 2int,
    {
        let ghost c0 = self.code();
        let ghost nc0 = self.consts().len() as int;
        let token = self.parser.previous.clone();
        let operator_kind = token.kind;
        let r = self.parse_precedence(Prec::Unary);
        match r {
            Err(e) => {
                return Err(e);
            },
            Ok(()) => {},
        }
        let ghost cmid = self.code();
        let ghost nc1 = self.consts().len() as int;
        match operator_kind {
            TokenKind::Minus => {
                self.emit_byte(OpCode::Negate.to_byte());
            },
            _ => {
                proof {
                    assert(false);
                }
                return Err(CompileError::Unknown);
            },
        }
        proof {
            let cfin = self.code();
            let a = c0.len() as int;
            let m = cmid.len() as int;
            let b = cfin.len() as int;
            assert forall|d: int| 0 <= d implies seg_run(cfin, nc1, a, b, d) == Some(d + 1) by {
                lemma_seg_run_frame(cmid, cfin, nc1, a, m, d);
                lemma_seg_run_concat(cfin, nc1, a, m, b, d);
                assert(seg_run(cfin, nc1, b, b, d + 1) == Some(d + 1));
                assert(seg_run(cfin, nc1, m, b, d + 1) == Some(d + 1));
            }
            assert(self.code() =~= old(self).code() + sp_parse(
                old(self).src(),
                old(self).apos(),
                old(self).aline(),
                8,
                old(self).consts().len() as int,
                old(self).prevline(),
            ).code + seq![
                (
                    spec_opcode_byte(OpCode::Negate),
                    sp_parse(
                        old(self).src(),
                        old(self).apos(),
                        old(self).aline(),
                        8,
                        old(self).consts().len() as int,
                        old(self).prevline(),
                    ).prevline as usize,
                ),
            ]);
        }
        Ok(())
    }

    /// A binary operator; it has just been consumed.  Parses the right
    /// operand one level above the operator's precedence, then emits the
    /// operator's opcode.
    fn binary(&mut self) -> (r: Result<(), CompileError>)
        requires
            old(self).wf(),
            kind_prec(old(self).parser.previous.kind) >= 1,
        ensures
            final(self).wf(),
            final(self).src() == old(self).src(),
            final(self).vals() == old(self).vals(),
            final(self).apos() >= old(self).apos(),
            final(self).measure() <= old(self).measure(),
            ({
                let rhs = sp_parse(
                    old(self).src(),
                    old(self).apos(),
                    old(self).aline(),
                    kind_prec(old(self).parser.previous.kind) + 1,
                    old(self).consts().len() as int,
                    old(self).prevline(),
                );
                &&& (r is Ok <==> rhs.ok)
                &&& (r matches Err(e) ==> !rhs.ok && cerr_matches(e, rhs.err))
                &&& final(self).consts().len() == old(self).consts().len() + rhs.nlits
                &&& rhs.nlits >= 0
                &&& (!rhs.ok ==> {
                    &&& final(self).code() == old(self).code() + rhs.code
                    &&& final(self).apos() == rhs.pos
                    &&& final(self).aline() == rhs.line
                    &&& final(self).prevline() == rhs.prevline
                    &&& final(self).had_err() == (old(self).had_err() || rhs.rep)
                })
                &&& (rhs.ok ==> {
                    &&& final(self).code() == old(self).code() + rhs.code + seq![
                        (
                            kind_binop_byte(old(self).parser.previous.kind),
                            rhs.prevline as usize,
                        ),
                    ]
                    &&& final(self).apos() == rhs.pos
                    &&& final(self).aline() == rhs.line
                    &&& final(self).prevline() == rhs.prevline
                    &&& final(self).had_err() == (old(self).had_err() || rhs.rep)
                    &&& (forall|d: int|
                        1 <= d ==> seg_run(
                            final(self).code(),
                            final(self).consts().len() as int,
                            old(self).code().len() as int,
                            final(self).code().len() as int,
                            d,
                        ) == Some(d))
                })
            }),
        decreases old(self).measure(), 2int,
    {
        let ghost c0 = self.code();
        let token = self.parser.previous.clone();
        let operator_kind = token.kind;
        let rule_prec = get_precedence(&operator_kind);
        let above = next_prec(&rule_prec);
        let r = self.parse_precedence(above);
        match r {
            Err(e) => {
                return Err(e);
            },
            Ok(()) => {},
        }
        let ghost cmid = self.code();
        let ghost nc1 = self.consts().len() as int;
        match &operator_kind {
            TokenKind::Plus => self.emit_byte(OpCode::Add.to_byte()),
            TokenKind::Minus => self.emit_byte(OpCode::Subtract.to_byte()),
            TokenKind::Star => self.emit_byte(OpCode::Multiply.to_byte()),
            TokenKind::Slash => self.emit_byte(OpCode::Divide.to_byte()),
            _ => {
                proof {
                    assert(false);
                }
                return Err(CompileError::Unknown);
            },
        }
        proof {
            let cfin = self.code();
            let a = c0.len() as int;
            let m = cmid.len() as int;
            let b = cfin.len() as int;
            assert forall|d: int| 1 <= d implies seg_run(cfin, nc1, a, b, d) == Some(d) by {
                lemma_seg_run_frame(cmid, cfin, nc1, a, m, d);
                lemma_seg_run_concat(cfin, nc1, a, m, b, d);
                assert(seg_run(cfin, nc1, b, b, d) == Some(d));
                assert(seg_run(cfin, nc1, m, b, d + 1) == Some(d));
            }
            assert(self.code() =~= old(self).code() + sp_parse(
                old(self).src(),
                old(self).apos(),
                old(self).aline(),
                kind_prec(old(self).parser.previous.kind) + 1,
                old(self).consts().len() as int,
                old(self).prevline(),
            ).code + seq![
                (
                    kind_binop_byte(old(self).parser.previous.kind),
                    sp_parse(
                        old(self).src(),
                        old(self).apos(),
                        old(self).aline(),
                        kind_prec(old(self).parser.previous.kind) + 1,
                        old(self).consts().len() as int,
                        old(self).prevline(),
                    ).prevline as usize,
                ),
            ]);
        }
        Ok(())
    }

    /// The core of precedence climbing: parse one prefix construct, then
    /// consume binary operators while they bind at least as tightly as
    /// `precedence`.
    #[verifier::rlimit(100)]
    #[verifier::spinoff_prover]
    fn parse_precedence(&mut self, precedence: Prec) -> (r: Result<(), CompileError>)
        requires
            old(self).wf(),
            prec_rank(precedence) >= 1,
        ensures
            final(self).wf(),
            final(self).src() == old(self).src(),
            final(self).vals() == old(self).vals(),
            final(self).apos() >= old(self).apos(),
            final(self).measure() <= old(self).measure(),
            ({
                let res = sp_parse(
                    old(self).src(),
                    old(self).apos(),
                    old(self).aline(),
                    prec_rank(precedence),
                    old(self).consts().len() as int,
                    old(self).prevline(),
                );
                &&& final(self).code() == old(self).code() + res.code
                &&& final(self).consts().len() == old(self).consts().len() + res.nlits
                &&& res.nlits >= 0
                &&& final(self).apos() == res.pos
                &&& final(self).aline() == res.line
                &&& final(self).prevline() == res.prevline
                &&& final(self).had_err() == (old(self).had_err() || res.rep)
                &&& (r is Ok <==> res.ok)
                &&& (r matches Err(e) ==> !res.ok && cerr_matches(e, res.err))
                &&& (res.ok ==> expr_seg(
                    final(self).code(),
                    final(self).consts().len() as int,
                    old(self).code().len() as int,
                    final(self).code().len() as int,
                ))
            }),
        decreases old(self).measure(), 0int,
    {
        let ghost src0 = self.src();
        let ghost p0 = self.apos();
        let ghost l0 = self.aline();
        let ghost k0 = self.consts().len() as int;
        let ghost pl0 = self.prevline();
        let ghost c0len = self.code().len() as int;
        let ghost h00 = self.had_err();
        let ghost mp = prec_rank(precedence);
        let ghost res = sp_parse(src0, p0, l0, mp, k0, pl0);
        let ghost o = spec_scan(src0, p0, l0);
        proof {
            lemma_spec_scan_bounds(src0, p0, l0);
        }
        let kindclone = self.parser.current.kind.clone();
        match kindclone {
            TokenKind::Number(_) => {
                proof {
                    assert(o.tag is Number);
                    number_count_unfold(src0, p0, l0);
                    crate::scanner::lemma_number_count_nonneg(src0, o.end, o.line);
                }
                self.advance();
                let j = self.chunk.constants.len();
                proof {
                    assert(j < self.values@.len());
                }
                let value = self.values[j];
                self.emit_constant(value);
                proof {
                    let fullx = sp_binloop(
                        src0,
                        self.apos(),
                        self.aline(),
                        mp,
                        self.consts().len() as int,
                        self.prevline(),
                    );
                    assert(res.ok == fullx.ok && res.err == fullx.err && res.pos == fullx.pos
                        && res.line == fullx.line && res.prevline == fullx.prevline);
                    assert(self.code().subrange(c0len, self.code().len() as int) =~= seq![
                        (spec_opcode_byte(OpCode::Constant), o.line as usize),
                        (
                            (if k0 > 255 {
                                0u8
                            } else {
                                k0 as u8
                            }),
                            o.line as usize,
                        ),
                    ]);
                    assert(res.code =~= self.code().subrange(c0len, self.code().len() as int)
                        + fullx.code);
                    assert(res.nlits == (self.consts().len() - k0) + fullx.nlits);
                    assert((self.had_err() || fullx.rep) == (h00 || res.rep));
                    let nc = self.consts().len() as int;
                    assert forall|d: int| 0 <= d implies seg_run(
                        self.code(),
                        nc,
                        c0len,
                        self.code().len() as int,
                        d,
                    ) == Some(d + 1) by {
                        assert(seg_run(self.code(), nc, c0len + 2, c0len + 2, d + 1) == Some(
                            d + 1,
                        ));
                    }
                }
            },
            TokenKind::LeftParen => {
                proof {
                    assert(o.tag is LeftParen);
                }
                self.advance();
                let g = self.grouping();
                match g {
                    Err(e) => {
                        proof {
                            let inner = sp_parse(src0, o.end, o.line, 1, k0, o.line);
                            assert(!inner.ok && res == inner);
                            assert(self.code() =~= old(self).code() + res.code);
                        }
                        return Err(e);
                    },
                    Ok(()) => {},
                }
                proof {
                    let inner = sp_parse(src0, o.end, o.line, 1, k0, o.line);
                    assert(inner.ok);
                    assert(clamp_pos(inner.pos, o.end, src0.len() as int) == inner.pos);
                    let fullx = sp_binloop(
                        src0,
                        self.apos(),
                        self.aline(),
                        mp,
                        self.consts().len() as int,
                        self.prevline(),
                    );
                    assert(res.ok == fullx.ok && res.err == fullx.err && res.pos == fullx.pos
                        && res.line == fullx.line && res.prevline == fullx.prevline);
                    assert(self.code().subrange(c0len, self.code().len() as int) =~= inner.code);
                    assert(res.code =~= self.code().subrange(c0len, self.code().len() as int)
                        + fullx.code);
                    assert(res.nlits == (self.consts().len() - k0) + fullx.nlits);
                    assert((self.had_err() || fullx.rep) == (h00 || res.rep));
                }
            },
            TokenKind::Minus => {
                proof {
                    assert(o.tag is Minus);
                }
                self.advance();
                let u = self.unary();
                match u {
                    Err(e) => {
                        proof {
                            let inner = sp_parse(src0, o.end, o.line, 8, k0, o.line);
                            assert(!inner.ok && res == inner);
                            assert(self.code() =~= old(self).code() + res.code);
                        }
                        return Err(e);
                    },
                    Ok(()) => {},
                }
                proof {
                    let inner = sp_parse(src0, o.end, o.line, 8, k0, o.line);
                    assert(inner.ok);
                    assert(clamp_pos(inner.pos, o.end, src0.len() as int) == inner.pos);
                    let fullx = sp_binloop(
                        src0,
                        self.apos(),
                        self.aline(),
                        mp,
                        self.consts().len() as int,
                        self.prevline(),
                    );
                    assert(res.ok == fullx.ok && res.err == fullx.err && res.pos == fullx.pos
                        && res.line == fullx.line && res.prevline == fullx.prevline);
                    assert(self.code().subrange(c0len, self.code().len() as int) =~= inner.code
                        + seq![(spec_opcode_byte(OpCode::Negate), inner.prevline as usize)]);
                    assert(res.code =~= self.code().subrange(c0len, self.code().len() as int)
                        + fullx.code);
                    assert(res.nlits == (self.consts().len() - k0) + fullx.nlits);
                    assert((self.had_err() || fullx.rep) == (h00 || res.rep));
                }
            },
            TokenKind::Error(msg) => {
                proof {
                    assert(o.tag is ErrUnexpected || o.tag is ErrUnterminated);
                    lemma_error_msgs_distinct();
                }
                let is_unterminated = msg == String::from_str("Unterminated string.");
                self.parser.error_at_current(msg.as_str());
                if is_unterminated {
                    proof {
                        assert(self.code() =~= old(self).code() + res.code);
                    }
                    return Err(CompileError::Scan(ScanError::UnterminatedString));
                } else {
                    proof {
                        assert(self.code() =~= old(self).code() + res.code);
                    }
                    return Err(CompileError::Scan(ScanError::UnexpectedCharacter));
                }
            },
            _ => {
                proof {
                    assert(!(o.tag is Number) && !(o.tag is LeftParen) && !(o.tag is Minus)
                        && !(o.tag is ErrUnexpected) && !(o.tag is ErrUnterminated));
                }
                self.parser.error_at_current("Expect expression");
                proof {
                    assert(self.code() =~= old(self).code() + res.code);
                }
                return Err(CompileError::Parse(String::from_str("Expect expression")));
            },
        }
        // The prefix construct is parsed; now the binary-operator loop.
        let ghost lp = self.apos();
        let ghost ll = self.aline();
        let ghost lk = self.consts().len() as int;
        let ghost lpl = self.prevline();
        let ghost lclen = self.code().len() as int;
        let ghost h0 = self.had_err();
        let ghost full = sp_binloop(src0, lp, ll, mp, lk, lpl);
        let ghost mea0 = self.measure();
        let ghost mut rep_acc: bool = false;
        proof {
            assert(self.code().subrange(lclen, self.code().len() as int) =~= Seq::<(
                u8,
                usize,
            )>::empty());
            assert(self.code().subrange(0, lclen) =~= self.code());
        }
        loop
            invariant
                self.wf(),
                src0 == old(self).src(),
                p0 == old(self).apos(),
                l0 == old(self).aline(),
                pl0 == old(self).prevline(),
                h00 == old(self).had_err(),
                self.src() == src0,
                self.vals() == old(self).vals(),
                prec_rank(precedence) == mp,
                1 <= mp,
                old(self).code().len() as int == c0len,
                old(self).code() == self.code().subrange(0, c0len),
                c0len <= lclen <= self.code().len(),
                k0 <= lk <= self.consts().len(),
                old(self).consts().len() as int == k0,
                p0 <= lp <= self.apos() <= src0.len(),
                self.measure() <= mea0,
                mea0 <= old(self).measure(),
                res == sp_parse(src0, p0, l0, mp, k0, pl0),
                full == sp_binloop(src0, lp, ll, mp, lk, lpl),
                res.ok == full.ok,
                res.err == full.err,
                res.pos == full.pos,
                res.line == full.line,
                res.prevline == full.prevline,
                res.code == self.code().subrange(c0len, lclen) + full.code,
                res.nlits == (lk - k0) + full.nlits,
                (h0 || full.rep) == (h00 || res.rep),
                ({
                    let cur = sp_binloop(
                        src0,
                        self.apos(),
                        self.aline(),
                        mp,
                        self.consts().len() as int,
                        self.prevline(),
                    );
                    &&& full.ok == cur.ok
                    &&& full.err == cur.err
                    &&& full.pos == cur.pos
                    &&& full.line == cur.line
                    &&& full.prevline == cur.prevline
                    &&& full.code == self.code().subrange(lclen, self.code().len() as int)
                        + cur.code
                    &&& full.nlits == (self.consts().len() - lk) + cur.nlits
                    &&& full.rep == (rep_acc || cur.rep)
                }),
                self.had_err() == (h0 || rep_acc),
                forall|d: int|
                    0 <= d ==> seg_run(
                        self.code(),
                        self.consts().len() as int,
                        c0len,
                        self.code().len() as int,
                        d,
                    ) == Some(d + 1),
            ensures
                self.wf(),
                self.src() == src0,
                self.vals() == old(self).vals(),
                res.ok,
                self.apos() == res.pos,
                self.aline() == res.line,
                self.prevline() == res.prevline,
                self.had_err() == (h00 || res.rep),
                old(self).consts().len() as int == k0,
                self.consts().len() == k0 + res.nlits,
                old(self).code().len() as int == c0len,
                self.code().subrange(0, c0len) == old(self).code(),
                res.code == self.code().subrange(c0len, self.code().len() as int),
                c0len <= self.code().len(),
                p0 <= self.apos() <= src0.len(),
                self.measure() <= old(self).measure(),
                forall|d: int|
                    0 <= d ==> seg_run(
                        self.code(),
                        self.consts().len() as int,
                        c0len,
                        self.code().len() as int,
                        d,
                    ) == Some(d + 1),
            decreases self.measure(),
        {
            let ghost it_code = self.code();
            let ghost it_nc = self.consts().len() as int;
            let ghost it_p = self.apos();
            let ghost it_l = self.aline();
            let ghost it_pl = self.prevline();
            let ghost it_had = self.had_err();
            let ghost cur0 = sp_binloop(src0, it_p, it_l, mp, it_nc, it_pl);
            let ghost ot = spec_scan(src0, it_p, it_l);
            proof {
                lemma_spec_scan_bounds(src0, it_p, it_l);
            }
            let cp = get_precedence(&self.parser.current.kind);
            let cont = prec_value(&precedence) <= prec_value(&cp);
            proof {
                assert(kind_prec(self.parser.current.kind) == sp_prec(ot.tag));
                assert(cont == (sp_prec(ot.tag) >= mp));
            }
            if !cont {
                proof {
                    assert(cur0.ok && cur0.pos == it_p && cur0.line == it_l && cur0.prevline
                        == it_pl && cur0.nlits == 0 && !cur0.rep);
                    assert(cur0.code =~= Seq::<(u8, usize)>::empty());
                    assert(full.code =~= self.code().subrange(
                        lclen,
                        self.code().len() as int,
                    ));
                    assert(res.code =~= self.code().subrange(
                        c0len,
                        self.code().len() as int,
                    ));
                }
                break ;
            }
            let ghost opkind = self.parser.current.kind;
            proof {
                assert(ot.tag is Plus || ot.tag is Minus || ot.tag is Star || ot.tag is Slash);
                assert(!(self.parser.current.kind is Eof));
                assert(kind_prec(opkind) == sp_prec(ot.tag));
                assert(kind_binop_byte(opkind) == sp_binop_byte(ot.tag));
            }
            self.advance();
            let b = self.binary();
            match b {
                Err(e) => {
                    proof {
                        let rhs = sp_parse(src0, ot.end, ot.line, sp_prec(ot.tag) + 1, it_nc,
                            ot.line);
                        assert(!rhs.ok && cur0 == rhs);
                        assert(self.code().subrange(lclen, self.code().len() as int)
                            =~= it_code.subrange(lclen, it_code.len() as int) + rhs.code);
                        assert(full.code =~= self.code().subrange(
                            lclen,
                            self.code().len() as int,
                        ));
                        assert(res.code =~= self.code().subrange(
                            c0len,
                            self.code().len() as int,
                        ));
                        assert(self.code().subrange(0, c0len) =~= old(self).code());
                        assert(self.code() =~= self.code().subrange(0, c0len)
                            + self.code().subrange(c0len, self.code().len() as int));
                    }
                    return Err(e);
                },
                Ok(()) => {},
            }
            proof {
                let rhs = sp_parse(src0, ot.end, ot.line, sp_prec(ot.tag) + 1, it_nc, ot.line);
                assert(rhs.ok);
                assert(clamp_pos(rhs.pos, ot.end, src0.len() as int) == rhs.pos);
                let opbyte = sp_binop_byte(ot.tag);
                let cfin = self.code();
                let nc2 = self.consts().len() as int;
                let m = it_code.len() as int;
                let b2 = cfin.len() as int;
                // the accumulated range stays one whole expression
                assert(cfin.subrange(c0len, m) =~= it_code.subrange(c0len, m));
                assert forall|d: int| 0 <= d implies seg_run(cfin, nc2, c0len, b2, d) == Some(
                    d + 1,
                ) by {
                    lemma_seg_run_frame(it_code, cfin, it_nc, c0len, m, d);
                    lemma_seg_run_wider(cfin, it_nc, nc2, c0len, m, d);
                    lemma_seg_run_concat(cfin, nc2, c0len, m, b2, d);
                }
                // re-establish the loop relation one operator later
                let curn = sp_binloop(src0, self.apos(), self.aline(), mp, nc2, self.prevline());
                assert(cur0.code =~= rhs.code + seq![(opbyte, rhs.prevline as usize)]
                    + curn.code);
                assert(cfin.subrange(lclen, b2) =~= it_code.subrange(lclen, m) + (rhs.code
                    + seq![(opbyte, rhs.prevline as usize)]));
                assert(full.code =~= cfin.subrange(lclen, b2) + curn.code);
                rep_acc = rep_acc || rhs.rep;
                assert(cfin.subrange(0, c0len) =~= it_code.subrange(0, c0len));
                assert(cfin.subrange(0, lclen) =~= it_code.subrange(0, lclen));
                assert(res.code =~= cfin.subrange(c0len, lclen) + full.code);
            }
        }
        proof {
            assert(self.code() =~= self.code().subrange(0, c0len) + self.code().subrange(
                c0len,
                self.code().len() as int,
            ));
            assert(self.code() =~= old(self).code() + res.code);
        }
        Ok(())
    }

    /// Compile the source: parse one expression, require the end of the
    /// input, emit the trailing `Return`.  Succeeds exactly when the
    /// mathematical compilation does, and then hands out the chunk, whose
    /// code is structurally safe to execute against its pool.
    pub fn compile(&mut self) -> (r: Result<Chunk, CompileError>)
        requires
            old(self).wf(),
            old(self).fresh(),
        ensures
            final(self).wf(),
            final(self).src() == old(self).src(),
            final(self).vals() == old(self).vals(),
            ({
                let res = sp_compile(old(self).src());
                &&& (r is Ok <==> res.ok)
                &&& (r matches Err(e) ==> !res.ok && cerr_matches(e, res.err))
                &&& (r matches Ok(chunk) ==> {
                    &&& chunk.code@ == res.code
                    &&& chunk.constants@ == old(self).vals().subrange(0, res.nlits)
                    &&& code_safe(chunk.code@, chunk.constants@.len() as int, 0, 0)
                    &&& crate::debug::walk_clean(chunk.code@, 0)
                    &&& crate::debug::dis_safe(chunk.code@, 0)
                })
                &&& final(self).diags_view().len() == (if res.rep {
                    1int
                } else {
                    0int
                })
            }),
    {
        let ghost src0 = self.src();
        let ghost res = sp_compile(src0);
        let ghost e = sp_parse(src0, 0, 1, 1, 0, 0);
        let r = self.expression();
        match r {
            Err(err) => {
                return Err(err);
            },
            Ok(()) => {},
        }
        proof {
            lemma_spec_scan_bounds(src0, self.apos(), self.aline());
            assert(clamp_pos(e.pos, 0, src0.len() as int) == e.pos);
        }
        let ghost t2 = spec_scan(src0, self.apos(), self.aline());
        let ghost cmid = self.code();
        let ghost nc = self.consts().len() as int;
        self.parser.consume(TokenKind::Eof, "Expect end of expression.");
        self.end_compiler();
        proof {
            let cfin = self.code();
            let m = cmid.len() as int;
            let b = cfin.len() as int;
            assert(cfin =~= cmid + seq![(spec_opcode_byte(OpCode::Return), res.prevline as usize)]);
            assert(cfin =~= res.code);
            // the finished code is safe from the start
            assert(seg_run(cfin, nc, 0, m, 0) == Some(1int)) by {
                lemma_seg_run_frame(cmid, cfin, nc, 0, m, 0);
            }
            assert(code_safe(cfin, nc, m, 1));
            lemma_seg_then_safe(cfin, nc, 0, m, 0);
            assert(code_safe(cfin, nc, 0, 0));
            assert(crate::debug::walk_clean(cfin, b));
            assert(crate::debug::walk_clean(cfin, m));
            crate::debug::lemma_round_trip(cfin, nc, 0, m, 0);
            crate::debug::lemma_walk_clean_dis_safe(cfin, 0);
        }
        if self.parser.had_error {
            Err(CompileError::Unknown)
        } else {
            let chunk = self.chunk.clone();
            proof {
                assert(chunk.constants@ =~= old(self).vals().subrange(0, res.nlits));
            }
            Ok(chunk)
        }
    }

    /// Parse a single expression.
    fn expression(&mut self) -> (r: Result<(), CompileError>)
        requires
            old(self).wf(),
        ensures
            final(self).wf(),
            final(self).src() == old(self).src(),
            final(self).vals() == old(self).vals(),
            final(self).apos() >= old(self).apos(),
            final(self).measure() <= old(self).measure(),
            ({
                let res = sp_parse(
                    old(self).src(),
                    old(self).apos(),
                    old(self).aline(),
                    1,
                    old(self).consts().len() as int,
                    old(self).prevline(),
                );
                &&& final(self).code() == old(self).code() + res.code
                &&& final(self).consts().len() == old(self).consts().len() + res.nlits
                &&& res.nlits >= 0
                &&& final(self).apos() == res.pos
                &&& final(self).aline() == res.line
                &&& final(self).prevline() == res.prevline
                &&& final(self).had_err() == (old(self).had_err() || res.rep)
                &&& (r is Ok <==> res.ok)
                &&& (r matches Err(e) ==> !res.ok && cerr_matches(e, res.err))
                &&& (res.ok ==> expr_seg(
                    final(self).code(),
                    final(self).consts().len() as int,
                    old(self).code().len() as int,
                    final(self).code().len() as int,
                ))
            }),
        decreases old(self).measure(), 1int,
    {
        self.parse_precedence(Prec::Assignment)
    }
}

/// Within one parse, constants are spent one per number literal: if no
/// error is reported, the pool (entered with `k` values) stays within its
/// 256 slots.
proof fn lemma_parse_pool_bound(src: Seq<char>, p: int, l: int, mp: int, k: int, pl: int)
    requires
        0 <= k,
    ensures
        !sp_parse(src, p, l, mp, k, pl).rep ==> (sp_parse(src, p, l, mp, k, pl).nlits > 0 ==> k
            + sp_parse(src, p, l, mp, k, pl).nlits <= 256),
        sp_parse(src, p, l, mp, k, pl).nlits >= 0,
    decreases src.len() - spec_scan(src, p, l).start, 1int,
{
    scan_bounds_everywhere(src);
    if 0 <= p <= src.len() {
        let t = spec_scan(src, p, l);
        match t.tag {
            TokenTag::Number => {
                lemma_binloop_pool_bound(src, t.end, t.line, mp, k + 1, t.line);
            },
            TokenTag::LeftParen => {
                let inner = sp_parse(src, t.end, t.line, 1, k, t.line);
                lemma_parse_pool_bound(src, t.end, t.line, 1, k, t.line);
                if inner.ok {
                    let ip = clamp_pos(inner.pos, t.end, src.len() as int);
                    let t2 = spec_scan(src, ip, inner.line);
                    if t2.tag is RightParen {
                        lemma_binloop_pool_bound(src, t2.end, t2.line, mp, k + inner.nlits,
                            t2.line);
                    } else {
                        lemma_binloop_pool_bound(src, ip, inner.line, mp, k + inner.nlits,
                            inner.prevline);
                    }
                }
            },
            TokenTag::Minus => {
                let inner = sp_parse(src, t.end, t.line, 8, k, t.line);
                lemma_parse_pool_bound(src, t.end, t.line, 8, k, t.line);
                if inner.ok {
                    let ip = clamp_pos(inner.pos, t.end, src.len() as int);
                    lemma_binloop_pool_bound(src, ip, inner.line, mp, k + inner.nlits,
                        inner.prevline);
                }
            },
            _ => {},
        }
    }
}

proof fn lemma_binloop_pool_bound(src: Seq<char>, p: int, l: int, mp: int, k: int, pl: int)
    requires
        0 <= k,
    ensures
        !sp_binloop(src, p, l, mp, k, pl).rep ==> (sp_binloop(src, p, l, mp, k, pl).nlits > 0
            ==> k + sp_binloop(src, p, l, mp, k, pl).nlits <= 256),
        sp_binloop(src, p, l, mp, k, pl).nlits >= 0,
    decreases src.len() - spec_scan(src, p, l).start, 0int,
{
    scan_bounds_everywhere(src);
    if 0 <= p <= src.len() {
        let t = spec_scan(src, p, l);
        let is_op = t.tag is Plus || t.tag is Minus || t.tag is Star || t.tag is Slash;
        if is_op && sp_prec(t.tag) >= mp {
            let rhs = sp_parse(src, t.end, t.line, sp_prec(t.tag) + 1, k, t.line);
            lemma_parse_pool_bound(src, t.end, t.line, sp_prec(t.tag) + 1, k, t.line);
            if rhs.ok {
                let ip = clamp_pos(rhs.pos, t.end, src.len() as int);
                lemma_binloop_pool_bound(src, ip, rhs.line, mp, k + rhs.nlits, rhs.prevline);
            }
        }
    }
}

/// The constant-pool bound: a source with more than 256 number literals
/// in its compiled expression cannot compile cleanly — the overflow is
/// reported instead of corrupting an operand byte.
pub proof fn lemma_constant_pool_bound(src: Seq<char>)
    ensures
        sp_compile(src).nlits > 256 ==> !sp_compile(src).ok,
{
    lemma_parse_pool_bound(src, 0, 1, 1, 0, 0);
}

} // verus!
