use vstd::prelude::*;

use crate::text::{chars_of, push_char, string_range};

verus! {

/// The lexical vocabulary: a closed set of token kinds.  `Identifier`,
/// `String` and `Number` carry their lexeme text, `Error` the scan-failure
/// message.
#[derive(Debug, PartialEq, Eq)]
pub enum TokenKind {
    // Single-character tokens.
    LeftParen,
    RightParen,
    LeftBrace,
    RightBrace,
    Comma,
    Dot,
    Minus,
    Plus,
    Semicolon,
    Slash,
    Star,
    // One or two character tokens.
    Bang,
    BangEqual,
    Equal,
    EqualEqual,
    Greater,
    GreaterEqual,
    Less,
    LessEqual,
    // Literals.
    Identifier(String),
    String(String),
    Number(String),
    // Keywords.
    And,
    Class,
    Else,
    False,
    For,
    Fun,
    If,
    Nil,
    Or,
    Print,
    Return,
    Super,
    This,
    True,
    Var,
    While,
    // Other
    Error(String),
    Eof,
}

/// Spec-level token classification: one variant per token kind, with the
/// payload-carrying kinds reduced to their class.  The scanner's
/// specification describes each token as a tag plus a lexeme range of the
/// source.
pub enum TokenTag {
    LeftParen,
    RightParen,
    LeftBrace,
    RightBrace,
    Comma,
    Dot,
    Minus,
    Plus,
    Semicolon,
    Slash,
    Star,
    Bang,
    BangEqual,
    Equal,
    EqualEqual,
    Greater,
    GreaterEqual,
    Less,
    LessEqual,
    Identifier,
    Str,
    Number,
    And,
    Class,
    Else,
    False,
    For,
    Fun,
    If,
    Nil,
    Or,
    Print,
    Return,
    Super,
    This,
    True,
    Var,
    While,
    ErrUnexpected,
    ErrUnterminated,
    Eof,
}

/// Does the executable kind `k` realize the spec tag `tag` for a token
/// whose lexeme is `lex`?  Payload kinds must carry exactly the lexeme;
/// error kinds carry their fixed message.
pub open spec fn tok_matches(k: TokenKind, tag: TokenTag, lex: Seq<char>) -> bool {
    match tag {
        TokenTag::LeftParen => k is LeftParen,
        TokenTag::RightParen => k is RightParen,
        TokenTag::LeftBrace => k is LeftBrace,
        TokenTag::RightBrace => k is RightBrace,
        TokenTag::Comma => k is Comma,
        TokenTag::Dot => k is Dot,
        TokenTag::Minus => k is Minus,
        TokenTag::Plus => k is Plus,
        TokenTag::Semicolon => k is Semicolon,
        TokenTag::Slash => k is Slash,
        TokenTag::Star => k is Star,
        TokenTag::Bang => k is Bang,
        TokenTag::BangEqual => k is BangEqual,
        TokenTag::Equal => k is Equal,
        TokenTag::EqualEqual => k is EqualEqual,
        TokenTag::Greater => k is Greater,
        TokenTag::GreaterEqual => k is GreaterEqual,
        TokenTag::Less => k is Less,
        TokenTag::LessEqual => k is LessEqual,
        TokenTag::Identifier => k matches TokenKind::Identifier(s) && s@ == lex,
        TokenTag::Str => k matches TokenKind::String(s) && s@ == lex,
        TokenTag::Number => k matches TokenKind::Number(s) && s@ == lex,
        TokenTag::And => k is And,
        TokenTag::Class => k is Class,
        TokenTag::Else => k is Else,
        TokenTag::False => k is False,
        TokenTag::For => k is For,
        TokenTag::Fun => k is Fun,
        TokenTag::If => k is If,
        TokenTag::Nil => k is Nil,
        TokenTag::Or => k is Or,
        TokenTag::Print => k is Print,
        TokenTag::Return => k is Return,
        TokenTag::Super => k is Super,
        TokenTag::This => k is This,
        TokenTag::True => k is True,
        TokenTag::Var => k is Var,
        TokenTag::While => k is While,
        TokenTag::ErrUnexpected => k matches TokenKind::Error(m) && m@ == "Unexpected character."@,
        TokenTag::ErrUnterminated => k matches TokenKind::Error(m) && m@
            == "Unterminated string."@,
        TokenTag::Eof => k is Eof,
    }
}

/// One token: its kind and the 1-based source line of its last character.
#[derive(Debug, PartialEq, Eq)]
pub struct Token {
    pub kind: TokenKind,
    pub line: usize,
}

/// The fixed rendering of each token kind's lexeme; payload kinds render
/// their payload, `Eof` a single space.
pub open spec fn spec_token_lexeme(k: TokenKind) -> Seq<char> {
    match k {
        TokenKind::LeftParen => "("@,
        TokenKind::RightParen => ")"@,
        TokenKind::LeftBrace => "{"@,
        TokenKind::RightBrace => "}"@,
        TokenKind::Comma => ","@,
        TokenKind::Dot => "."@,
        TokenKind::Minus => "-"@,
        TokenKind::Plus => "+"@,
        TokenKind::Semicolon => ";"@,
        TokenKind::Slash => "/"@,
        TokenKind::Star => "*"@,
        TokenKind::Bang => "!"@,
        TokenKind::BangEqual => "!="@,
        TokenKind::Equal => "="@,
        TokenKind::EqualEqual => "=="@,
        TokenKind::Greater => ">"@,
        TokenKind::GreaterEqual => ">="@,
        TokenKind::Less => "<"@,
        TokenKind::LessEqual => "<="@,
        TokenKind::Identifier(s) => s@,
        TokenKind::String(s) => s@,
        TokenKind::Number(s) => s@,
        TokenKind::And => "and"@,
        TokenKind::Class => "class"@,
        TokenKind::Else => "else"@,
        TokenKind::False => "false"@,
        TokenKind::For => "for"@,
        TokenKind::Fun => "fun"@,
        TokenKind::If => "if"@,
        TokenKind::Nil => "nil"@,
        TokenKind::Or => "or"@,
        TokenKind::Print => "print"@,
        TokenKind::Return => "return"@,
        TokenKind::Super => "super"@,
        TokenKind::This => "this"@,
        TokenKind::True => "true"@,
        TokenKind::Var => "var"@,
        TokenKind::While => "while"@,
        TokenKind::Error(s) => s@,
        TokenKind::Eof => " "@,
    }
}

/// Index of the first `.` in `s` at or after `i`, or `s.len()` if none.
pub open spec fn dot_pos(s: Seq<char>, i: int) -> int
    recommends
        0 <= i <= s.len(),
    decreases s.len() - i,
{
    if i < 0 || i >= s.len() {
        s.len() as int
    } else if s[i] == '.' {
        i
    } else {
        dot_pos(s, i + 1)
    }
}

/// Drop leading `0` characters, keeping at least one character.
pub open spec fn strip_leading_zeros(s: Seq<char>) -> Seq<char>
    decreases s.len(),
{
    if s.len() > 1 && s[0] == '0' {
        strip_leading_zeros(s.subrange(1, s.len() as int))
    } else {
        s
    }
}

/// Drop trailing `0` characters, possibly leaving nothing.
pub open spec fn strip_trailing_zeros(s: Seq<char>) -> Seq<char>
    decreases s.len(),
{
    if s.len() > 0 && s[s.len() - 1] == '0' {
        strip_trailing_zeros(s.subrange(0, s.len() - 1))
    } else {
        s
    }
}

/// Decimal normalization of a numeric lexeme: redundant leading zeros of
/// the integer part and trailing zeros of the fraction are dropped, an
/// integral number gains the suffix `.0` (so `123` renders as `123.0` and
/// `123.4560` as `123.456`).
pub open spec fn spec_num_render(s: Seq<char>) -> Seq<char> {
    let d = dot_pos(s, 0);
    let ipz = strip_leading_zeros(s.subrange(0, d));
    let ip = if ipz.len() == 0 {
        seq!['0']
    } else {
        ipz
    };
    let fp = if d < s.len() {
        strip_trailing_zeros(s.subrange(d + 1, s.len() as int))
    } else {
        Seq::<char>::empty()
    };
    if fp.len() == 0 {
        ip + seq!['.', '0']
    } else {
        ip + seq!['.'] + fp
    }
}

/// How a token renders for diagnostics: its kind's name, its lexeme and
/// its literal value (`null` for the kinds that have none; the text inside
/// the quotes for a string; the normalized decimal for a number).
pub open spec fn spec_token_display(k: TokenKind) -> Seq<char> {
    match k {
        TokenKind::LeftParen => "LEFT_PAREN ( null"@,
        TokenKind::RightParen => "RIGHT_PAREN ) null"@,
        TokenKind::LeftBrace => "LEFT_BRACE { null"@,
        TokenKind::RightBrace => "RIGHT_BRACE } null"@,
        TokenKind::Comma => "COMMA , null"@,
        TokenKind::Dot => "DOT . null"@,
        TokenKind::Minus => "MINUS - null"@,
        TokenKind::Plus => "PLUS + null"@,
        TokenKind::Semicolon => "SEMICOLON ; null"@,
        TokenKind::Slash => "SLASH / null"@,
        TokenKind::Star => "STAR * null"@,
        TokenKind::Bang => "BANG ! null"@,
        TokenKind::BangEqual => "BANG_EQUAL != null"@,
        TokenKind::Equal => "EQUAL = null"@,
        TokenKind::EqualEqual => "EQUAL_EQUAL == null"@,
        TokenKind::Greater => "GREATER > null"@,
        TokenKind::GreaterEqual => "GREATER_EQUAL >= null"@,
        TokenKind::Less => "LESS < null"@,
        TokenKind::LessEqual => "LESS_EQUAL <= null"@,
        TokenKind::Identifier(s) => "IDENTIFIER "@ + s@ + " null"@,
        TokenKind::String(s) => "STRING "@ + s@ + " "@ + s@.subrange(1, s@.len() - 1),
        TokenKind::Number(s) => "NUMBER "@ + s@ + " "@ + spec_num_render(s@),
        TokenKind::And => "AND and null"@,
        TokenKind::Class => "CLASS class null"@,
        TokenKind::Else => "ELSE else null"@,
        TokenKind::False => "FALSE false null"@,
        TokenKind::For => "FOR for null"@,
        TokenKind::Fun => "FUN fun null"@,
        TokenKind::If => "IF if null"@,
        TokenKind::Nil => "NIL nil null"@,
        TokenKind::Or => "OR or null"@,
        TokenKind::Print => "PRINT print null"@,
        TokenKind::Return => "RETURN return null"@,
        TokenKind::Super => "SUPER super null"@,
        TokenKind::This => "THIS this null"@,
        TokenKind::True => "TRUE true null"@,
        TokenKind::Var => "VAR var null"@,
        TokenKind::While => "WHILE while null"@,
        TokenKind::Error(s) => "ERROR "@ + s@,
        TokenKind::Eof => "EOF  null"@,
    }
}

/// Render a numeric lexeme as its normalized decimal.
fn num_render(s: &String) -> (r: String)
    ensures
        r@ == spec_num_render(s@),
{
    let cs = chars_of(s.as_str());
    let n = cs.len();
    let mut d: usize = 0;
    while d < n && cs[d] != '.'
        invariant
            n == cs@.len(),
            0 <= d <= n,
            dot_pos(cs@, 0) == dot_pos(cs@, d as int),
        decreases n - d,
    {
        d = d + 1;
    }
    proof {
        assert(dot_pos(cs@, 0) == d);
    }
    let mut a: usize = 0;
    while a + 1 < d && cs[a] == '0'
        invariant
            n == cs@.len(),
            d <= n,
            0 <= a <= n,
            d > 0 ==> a < d,
            d == 0 ==> a == 0,
            strip_leading_zeros(cs@.subrange(0, d as int)) == strip_leading_zeros(
                cs@.subrange(a as int, d as int),
            ),
        decreases d - a,
    {
        proof {
            assert(cs@.subrange(a as int, d as int).subrange(1, (d - a) as int) =~= cs@.subrange(
                a as int + 1,
                d as int,
            ));
        }
        a = a + 1;
    }
    proof {
        assert(strip_leading_zeros(cs@.subrange(0, d as int)) == cs@.subrange(a as int, d as int));
    }
    let mut r = String::new();
    if d == 0 {
        push_char(&mut r, '0');
    } else {
        let ip = string_range(&cs, a, d);
        r.append(ip.as_str());
    }
    push_char(&mut r, '.');
    if d < n {
        let fs = d + 1;
        let mut e: usize = n;
        while e > fs && cs[e - 1] == '0'
            invariant
                n == cs@.len(),
                fs <= n,
                fs <= e <= n,
                strip_trailing_zeros(cs@.subrange(fs as int, n as int)) == strip_trailing_zeros(
                    cs@.subrange(fs as int, e as int),
                ),
            decreases e,
        {
            proof {
                assert(cs@.subrange(fs as int, e as int).subrange(0, (e - fs) as int - 1)
                    =~= cs@.subrange(fs as int, e as int - 1));
            }
            e = e - 1;
        }
        proof {
            assert(strip_trailing_zeros(cs@.subrange(fs as int, n as int)) == cs@.subrange(
                fs as int,
                e as int,
            ));
        }
        if e == fs {
            push_char(&mut r, '0');
        } else {
            let fp = string_range(&cs, fs, e);
            r.append(fp.as_str());
        }
    } else {
        push_char(&mut r, '0');
    }
    proof {
        assert(r@ =~= spec_num_render(s@));
    }
    r
}

impl Clone for TokenKind {
    fn clone(&self) -> (r: Self)
        ensures
            r == *self,
    {
        match self {
            TokenKind::LeftParen => TokenKind::LeftParen,
            TokenKind::RightParen => TokenKind::RightParen,
            TokenKind::LeftBrace => TokenKind::LeftBrace,
            TokenKind::RightBrace => TokenKind::RightBrace,
            TokenKind::Comma => TokenKind::Comma,
            TokenKind::Dot => TokenKind::Dot,
            TokenKind::Minus => TokenKind::Minus,
            TokenKind::Plus => TokenKind::Plus,
            TokenKind::Semicolon => TokenKind::Semicolon,
            TokenKind::Slash => TokenKind::Slash,
            TokenKind::Star => TokenKind::Star,
            TokenKind::Bang => TokenKind::Bang,
            TokenKind::BangEqual => TokenKind::BangEqual,
            TokenKind::Equal => TokenKind::Equal,
            TokenKind::EqualEqual => TokenKind::EqualEqual,
            TokenKind::Greater => TokenKind::Greater,
            TokenKind::GreaterEqual => TokenKind::GreaterEqual,
            TokenKind::Less => TokenKind::Less,
            TokenKind::LessEqual => TokenKind::LessEqual,
            TokenKind::Identifier(s) => TokenKind::Identifier(s.clone()),
            TokenKind::String(s) => TokenKind::String(s.clone()),
            TokenKind::Number(s) => TokenKind::Number(s.clone()),
            TokenKind::And => TokenKind::And,
            TokenKind::Class => TokenKind::Class,
            TokenKind::Else => TokenKind::Else,
            TokenKind::False => TokenKind::False,
            TokenKind::For => TokenKind::For,
            TokenKind::Fun => TokenKind::Fun,
            TokenKind::If => TokenKind::If,
            TokenKind::Nil => TokenKind::Nil,
            TokenKind::Or => TokenKind::Or,
            TokenKind::Print => TokenKind::Print,
            TokenKind::Return => TokenKind::Return,
            TokenKind::Super => TokenKind::Super,
            TokenKind::This => TokenKind::This,
            TokenKind::True => TokenKind::True,
            TokenKind::Var => TokenKind::Var,
            TokenKind::While => TokenKind::While,
            TokenKind::Error(s) => TokenKind::Error(s.clone()),
            TokenKind::Eof => TokenKind::Eof,
        }
    }
}

impl Clone for Token {
    fn clone(&self) -> (r: Self)
        ensures
            r == *self,
    {
        Token { kind: self.kind.clone(), line: self.line }
    }
}

impl Token {
    pub fn new(kind: TokenKind, line: usize) -> (r: Token)
        ensures
            r.kind == kind,
            r.line == line,
    {
        Token { kind, line }
    }

    /// An identifier token for the given name.
    pub fn identifier(identifier: &str, line: usize) -> (r: Token)
        ensures
            r.kind matches TokenKind::Identifier(s) && s@ == identifier@,
            r.line == line,
    {
        Token { kind: TokenKind::Identifier(String::from_str(identifier)), line }
    }

    /// The token's lexeme text.
    pub fn lexeme(&self) -> (r: String)
        ensures
            r@ == spec_token_lexeme(self.kind),
    {
        match &self.kind {
            TokenKind::LeftParen => String::from_str("("),
            TokenKind::RightParen => String::from_str(")"),
            TokenKind::LeftBrace => String::from_str("{"),
            TokenKind::RightBrace => String::from_str("}"),
            TokenKind::Comma => String::from_str(","),
            TokenKind::Dot => String::from_str("."),
            TokenKind::Minus => String::from_str("-"),
            TokenKind::Plus => String::from_str("+"),
            TokenKind::Semicolon => String::from_str(";"),
            TokenKind::Slash => String::from_str("/"),
            TokenKind::Star => String::from_str("*"),
            TokenKind::Bang => String::from_str("!"),
            TokenKind::BangEqual => String::from_str("!="),
            TokenKind::Equal => String::from_str("="),
            TokenKind::EqualEqual => String::from_str("=="),
            TokenKind::Greater => String::from_str(">"),
            TokenKind::GreaterEqual => String::from_str(">="),
            TokenKind::Less => String::from_str("<"),
            TokenKind::LessEqual => String::from_str("<="),
            TokenKind::Identifier(s) => s.clone(),
            TokenKind::String(s) => s.clone(),
            TokenKind::Number(s) => s.clone(),
            TokenKind::And => String::from_str("and"),
            TokenKind::Class => String::from_str("class"),
            TokenKind::Else => String::from_str("else"),
            TokenKind::False => String::from_str("false"),
            TokenKind::For => String::from_str("for"),
            TokenKind::Fun => String::from_str("fun"),
            TokenKind::If => String::from_str("if"),
            TokenKind::Nil => String::from_str("nil"),
            TokenKind::Or => String::from_str("or"),
            TokenKind::Print => String::from_str("print"),
            TokenKind::Return => String::from_str("return"),
            TokenKind::Super => String::from_str("super"),
            TokenKind::This => String::from_str("this"),
            TokenKind::True => String::from_str("true"),
            TokenKind::Var => String::from_str("var"),
            TokenKind::While => String::from_str("while"),
            TokenKind::Error(s) => s.clone(),
            TokenKind::Eof => String::from_str(" "),
        }
    }

    /// The diagnostic rendering of the token, per `spec_token_display`.
    ///
    /// A string token must still carry its two enclosing quotes.
    pub fn to_string(&self) -> (r: String)
        requires
            self.kind matches TokenKind::String(s) ==> s@.len() >= 2,
        ensures
            r@ == spec_token_display(self.kind),
    {
        match &self.kind {
            TokenKind::LeftParen => String::from_str("LEFT_PAREN ( null"),
            TokenKind::RightParen => String::from_str("RIGHT_PAREN ) null"),
            TokenKind::LeftBrace => String::from_str("LEFT_BRACE { null"),
            TokenKind::RightBrace => String::from_str("RIGHT_BRACE } null"),
            TokenKind::Comma => String::from_str("COMMA , null"),
            TokenKind::Dot => String::from_str("DOT . null"),
            TokenKind::Minus => String::from_str("MINUS - null"),
            TokenKind::Plus => String::from_str("PLUS + null"),
            TokenKind::Semicolon => String::from_str("SEMICOLON ; null"),
            TokenKind::Slash => String::from_str("SLASH / null"),
            TokenKind::Star => String::from_str("STAR * null"),
            TokenKind::Bang => String::from_str("BANG ! null"),
            TokenKind::BangEqual => String::from_str("BANG_EQUAL != null"),
            TokenKind::Equal => String::from_str("EQUAL = null"),
            TokenKind::EqualEqual => String::from_str("EQUAL_EQUAL == null"),
            TokenKind::Greater => String::from_str("GREATER > null"),
            TokenKind::GreaterEqual => String::from_str("GREATER_EQUAL >= null"),
            TokenKind::Less => String::from_str("LESS < null"),
            TokenKind::LessEqual => String::from_str("LESS_EQUAL <= null"),
            TokenKind::Identifier(s) => {
                let mut r = String::from_str("IDENTIFIER ");
                r.append(s.as_str());
                r.append(" null");
                proof {
                    assert(r@ =~= spec_token_display(self.kind));
                }
                r
            },
            TokenKind::String(s) => {
                let len = s.as_str().unicode_len();
                let inner = s.as_str().substring_char(1, len - 1);
                let mut r = String::from_str("STRING ");
                r.append(s.as_str());
                r.append(" ");
                r.append(inner);
                proof {
                    assert(r@ =~= spec_token_display(self.kind));
                }
                r
            },
            TokenKind::Number(s) => {
                let num = num_render(s);
                let mut r = String::from_str("NUMBER ");
                r.append(s.as_str());
                r.append(" ");
                r.append(num.as_str());
                proof {
                    assert(r@ =~= spec_token_display(self.kind));
                }
                r
            },
            TokenKind::And => String::from_str("AND and null"),
            TokenKind::Class => String::from_str("CLASS class null"),
            TokenKind::Else => String::from_str("ELSE else null"),
            TokenKind::False => String::from_str("FALSE false null"),
            TokenKind::For => String::from_str("FOR for null"),
            TokenKind::Fun => String::from_str("FUN fun null"),
            TokenKind::If => String::from_str("IF if null"),
            TokenKind::Nil => String::from_str("NIL nil null"),
            TokenKind::Or => String::from_str("OR or null"),
            TokenKind::Print => String::from_str("PRINT print null"),
            TokenKind::Return => String::from_str("RETURN return null"),
            TokenKind::Super => String::from_str("SUPER super null"),
            TokenKind::This => String::from_str("THIS this null"),
            TokenKind::True => String::from_str("TRUE true null"),
            TokenKind::Var => String::from_str("VAR var null"),
            TokenKind::While => String::from_str("WHILE while null"),
            TokenKind::Error(s) => {
                let mut r = String::from_str("ERROR ");
                r.append(s.as_str());
                r
            },
            TokenKind::Eof => String::from_str("EOF  null"),
        }
    }
}

} // verus!
