//! Expression lexer.
//!
//! Splits a formula into tokens: integer and decimal literals, identifiers
//! (KKS codes may start with a digit), arithmetic, bitwise, logical and
//! comparison operators, parentheses and commas.

use vstd::prelude::*;

use crate::text::{chars_of, decimal, push_decimal, push_str, string_from_chars};

verus! {

/// A lexical token.
#[derive(Debug, Clone, PartialEq)]
pub enum Token {
    /// Integer literal.
    Int(i64),
    /// Decimal literal, kept as its source text (digits with one `.`); its
    /// value is that text read as a floating-point number.
    Float(String),
    /// Identifier.
    Ident(String),
    Plus,
    Minus,
    Star,
    Slash,
    Percent,
    /// `&`
    Amp,
    /// `|`
    Pipe,
    /// `^`
    Caret,
    /// `~`
    Tilde,
    /// `<<`
    ShiftLeft,
    /// `>>`
    ShiftRight,
    /// `&&`
    And,
    /// `||`
    Or,
    /// `!`
    Bang,
    /// `==`
    Eq,
    /// `!=`
    NotEq,
    Lt,
    Gt,
    LtEq,
    GtEq,
    LParen,
    RParen,
    Comma,
    /// End of input.
    Eof,
}

/// Mathematical model of a [`Token`].
pub enum TokenView {
    Int(int),
    Float(Seq<char>),
    Ident(Seq<char>),
    Plus,
    Minus,
    Star,
    Slash,
    Percent,
    Amp,
    Pipe,
    Caret,
    Tilde,
    ShiftLeft,
    ShiftRight,
    And,
    Or,
    Bang,
    Eq,
    NotEq,
    Lt,
    Gt,
    LtEq,
    GtEq,
    LParen,
    RParen,
    Comma,
    Eof,
}

impl Token {
    pub open spec fn view(&self) -> TokenView {
        match self {
            Token::Int(n) => TokenView::Int(*n as int),
            Token::Float(s) => TokenView::Float(s@),
            Token::Ident(s) => TokenView::Ident(s@),
            Token::Plus => TokenView::Plus,
            Token::Minus => TokenView::Minus,
            Token::Star => TokenView::Star,
            Token::Slash => TokenView::Slash,
            Token::Percent => TokenView::Percent,
            Token::Amp => TokenView::Amp,
            Token::Pipe => TokenView::Pipe,
            Token::Caret => TokenView::Caret,
            Token::Tilde => TokenView::Tilde,
            Token::ShiftLeft => TokenView::ShiftLeft,
            Token::ShiftRight => TokenView::ShiftRight,
            Token::And => TokenView::And,
            Token::Or => TokenView::Or,
            Token::Bang => TokenView::Bang,
            Token::Eq => TokenView::Eq,
            Token::NotEq => TokenView::NotEq,
            Token::Lt => TokenView::Lt,
            Token::Gt => TokenView::Gt,
            Token::LtEq => TokenView::LtEq,
            Token::GtEq => TokenView::GtEq,
            Token::LParen => TokenView::LParen,
            Token::RParen => TokenView::RParen,
            Token::Comma => TokenView::Comma,
            Token::Eof => TokenView::Eof,
        }
    }

    /// A copy of this token.
    pub fn duplicate(&self) -> (t: Token)
        ensures
            t.view() == self.view(),
    {
        match self {
            Token::Int(n) => Token::Int(*n),
            Token::Float(s) => Token::Float(s.clone()),
            Token::Ident(s) => Token::Ident(s.clone()),
            Token::Plus => Token::Plus,
            Token::Minus => Token::Minus,
            Token::Star => Token::Star,
            Token::Slash => Token::Slash,
            Token::Percent => Token::Percent,
            Token::Amp => Token::Amp,
            Token::Pipe => Token::Pipe,
            Token::Caret => Token::Caret,
            Token::Tilde => Token::Tilde,
            Token::ShiftLeft => Token::ShiftLeft,
            Token::ShiftRight => Token::ShiftRight,
            Token::And => Token::And,
            Token::Or => Token::Or,
            Token::Bang => Token::Bang,
            Token::Eq => Token::Eq,
            Token::NotEq => Token::NotEq,
            Token::Lt => Token::Lt,
            Token::Gt => Token::Gt,
            Token::LtEq => Token::LtEq,
            Token::GtEq => Token::GtEq,
            Token::LParen => Token::LParen,
            Token::RParen => Token::RParen,
            Token::Comma => Token::Comma,
            Token::Eof => Token::Eof,
        }
    }
}

/// Plain model of a token list.
pub open spec fn tokens_view(ts: Seq<Token>) -> Seq<TokenView> {
    ts.map_values(|t: Token| t.view())
}

// ------------------------------------------------------------------
//  Character classes
// ------------------------------------------------------------------

/// ASCII whitespace as std's `char::is_ascii_whitespace` defines it.
pub open spec fn is_ws(c: char) -> bool {
    c == ' ' || c == '\t' || c == '\n' || c == '\r' || c == '\x0C'
}

pub open spec fn is_digit(c: char) -> bool {
    '0' <= c <= '9'
}

pub open spec fn is_alpha(c: char) -> bool {
    ('a' <= c <= 'z') || ('A' <= c <= 'Z')
}

/// Characters that may start an identifier.
pub open spec fn is_ident_start(c: char) -> bool {
    is_alpha(c) || c == '_'
}

/// Characters that may continue an identifier.
pub open spec fn is_ident_char(c: char) -> bool {
    is_alpha(c) || is_digit(c) || c == '_'
}

// ------------------------------------------------------------------
//  Lexical structure
// ------------------------------------------------------------------

/// Whether a number starts at `p`: a digit, or a `.` followed by a digit.
pub open spec fn number_starts(cs: Seq<char>, p: int) -> bool {
    is_digit(cs[p]) || (cs[p] == '.' && p + 1 < cs.len() && is_digit(cs[p + 1]))
}

/// End of the digits-and-dots run that starts at `p`, stopping before a
/// second dot, and whether the run holds a dot.
pub open spec fn scan_number(cs: Seq<char>, p: int, has_dot: bool) -> (int, bool)
    decreases cs.len() - p,
{
    if 0 <= p < cs.len() && (is_digit(cs[p]) || cs[p] == '.') {
        if cs[p] == '.' {
            if has_dot {
                (p, true)
            } else {
                scan_number(cs, p + 1, true)
            }
        } else {
            scan_number(cs, p + 1, has_dot)
        }
    } else {
        (p, has_dot)
    }
}

/// End of the identifier characters that start at `p`.
pub open spec fn scan_ident(cs: Seq<char>, p: int) -> int
    decreases cs.len() - p,
{
    if 0 <= p < cs.len() && is_ident_char(cs[p]) {
        scan_ident(cs, p + 1)
    } else {
        p
    }
}

/// Value of a run of decimal digits.
pub open spec fn digits_value(s: Seq<char>) -> nat
    decreases s.len(),
{
    if s.len() == 0 {
        0
    } else {
        digits_value(s.drop_last()) * 10 + (s.last() as nat - '0' as nat) as nat
    }
}

/// Why lexing stopped.
pub enum LexError {
    /// A lone `=` at this position.
    SingleEqual(int),
    /// A character that starts no token, at this position.
    IllegalChar(int, char),
    /// An integer literal too large for `i64`.
    IntTooLarge(Seq<char>),
}

/// The message reported for a lexing error.
pub open spec fn lex_error_msg(e: LexError) -> Seq<char> {
    match e {
        LexError::SingleEqual(pos) => "位置 "@ + decimal(pos as nat) + " 处出现单独的 '='，请使用 '=='"@,
        LexError::IllegalChar(pos, c) => "位置 "@ + decimal(pos as nat) + " 处出现非法字符 '"@
            + seq![c] + "'"@,
        LexError::IntTooLarge(text) => "无法解析整数 '"@ + text
            + "': number too large to fit in target type"@,
    }
}

/// `first` followed by the tokens of `rest`, or the error of `rest`.
pub open spec fn prepend(first: Seq<TokenView>, rest: Result<Seq<TokenView>, LexError>) -> Result<
    Seq<TokenView>,
    LexError,
> {
    match rest {
        Ok(ts) => Ok(first + ts),
        Err(e) => Err(e),
    }
}

/// A one- or two-character operator at `p`: the token and its length, or
/// `None` when `cs[p]` starts no operator. A lone `=` is handled apart.
pub open spec fn operator_at(cs: Seq<char>, p: int) -> Option<(TokenView, int)> {
    let c = cs[p];
    let next = if p + 1 < cs.len() { cs[p + 1] } else { ' ' };
    let has_next = p + 1 < cs.len();
    if c == '+' {
        Some((TokenView::Plus, 1))
    } else if c == '-' {
        Some((TokenView::Minus, 1))
    } else if c == '*' {
        Some((TokenView::Star, 1))
    } else if c == '/' {
        Some((TokenView::Slash, 1))
    } else if c == '%' {
        Some((TokenView::Percent, 1))
    } else if c == '^' {
        Some((TokenView::Caret, 1))
    } else if c == '~' {
        Some((TokenView::Tilde, 1))
    } else if c == '(' {
        Some((TokenView::LParen, 1))
    } else if c == ')' {
        Some((TokenView::RParen, 1))
    } else if c == ',' {
        Some((TokenView::Comma, 1))
    } else if c == '&' {
        if has_next && next == '&' {
            Some((TokenView::And, 2))
        } else {
            Some((TokenView::Amp, 1))
        }
    } else if c == '|' {
        if has_next && next == '|' {
            Some((TokenView::Or, 2))
        } else {
            Some((TokenView::Pipe, 1))
        }
    } else if c == '!' {
        if has_next && next == '=' {
            Some((TokenView::NotEq, 2))
        } else {
            Some((TokenView::Bang, 1))
        }
    } else if c == '=' {
        if has_next && next == '=' {
            Some((TokenView::Eq, 2))
        } else {
            None
        }
    } else if c == '<' {
        if has_next && next == '=' {
            Some((TokenView::LtEq, 2))
        } else if has_next && next == '<' {
            Some((TokenView::ShiftLeft, 2))
        } else {
            Some((TokenView::Lt, 1))
        }
    } else if c == '>' {
        if has_next && next == '=' {
            Some((TokenView::GtEq, 2))
        } else if has_next && next == '>' {
            Some((TokenView::ShiftRight, 2))
        } else {
            Some((TokenView::Gt, 1))
        }
    } else {
        None
    }
}

/// The tokens of `cs` from position `pos` on, ending with `Eof`.
///
/// Whitespace separates tokens. A number is the longest run of digits and
/// at most one dot; if a letter or `_` follows it, the run and the
/// identifier characters after it form one identifier instead. Operators
/// take the longest match.
pub open spec fn lex_from(cs: Seq<char>, pos: int) -> Result<Seq<TokenView>, LexError>
    decreases cs.len() - pos, 1int,
{
    if pos < 0 || pos >= cs.len() {
        Ok(seq![TokenView::Eof])
    } else {
        let c = cs[pos];
        if is_ws(c) {
            lex_from(cs, pos + 1)
        } else if number_starts(cs, pos) {
            lex_number(cs, pos)
        } else if is_ident_start(c) {
            let q = scan_ident(cs, pos);
            proof {
                lemma_scan_ident_bounds(cs, pos);
            }
            prepend(seq![TokenView::Ident(cs.subrange(pos, q))], lex_from(cs, q))
        } else {
            match operator_at(cs, pos) {
                Some((t, n)) => prepend(seq![t], lex_from(cs, pos + n)),
                None => if c == '=' {
                    Err(LexError::SingleEqual(pos))
                } else {
                    Err(LexError::IllegalChar(pos, c))
                },
            }
        }
    }
}

/// The tokens from a number that starts at `pos`.
pub open spec fn lex_number(cs: Seq<char>, pos: int) -> Result<Seq<TokenView>, LexError>
    decreases cs.len() - pos, 0int,
{
    if pos < 0 || pos >= cs.len() || !number_starts(cs, pos) {
        Ok(seq![])
    } else {
        let (q, dot) = scan_number(cs, pos, false);
        proof {
            lemma_scan_number_bounds(cs, pos, false);
        }
        if q < cs.len() && is_ident_start(cs[q]) {
            let r = scan_ident(cs, q);
            proof {
                lemma_scan_ident_bounds(cs, q);
            }
            prepend(seq![TokenView::Ident(cs.subrange(pos, r))], lex_from(cs, r))
        } else if dot {
            prepend(seq![TokenView::Float(cs.subrange(pos, q))], lex_from(cs, q))
        } else if digits_value(cs.subrange(pos, q)) <= i64::MAX {
            prepend(
                seq![TokenView::Int(digits_value(cs.subrange(pos, q)) as int)],
                lex_from(cs, q),
            )
        } else {
            Err(LexError::IntTooLarge(cs.subrange(pos, q)))
        }
    }
}

/// `scan_ident` stays inside the input and does not move backwards.
pub proof fn lemma_scan_ident_bounds(cs: Seq<char>, p: int)
    requires
        0 <= p <= cs.len(),
    ensures
        p <= scan_ident(cs, p) <= cs.len(),
        p < cs.len() && is_ident_char(cs[p]) ==> p < scan_ident(cs, p),
    decreases cs.len() - p,
{
    if p < cs.len() && is_ident_char(cs[p]) {
        lemma_scan_ident_bounds(cs, p + 1);
    }
}

/// `scan_number` stays inside the input and consumes the first character
/// of a number.
pub proof fn lemma_scan_number_bounds(cs: Seq<char>, p: int, has_dot: bool)
    requires
        0 <= p <= cs.len(),
    ensures
        p <= scan_number(cs, p, has_dot).0 <= cs.len(),
        !has_dot && p < cs.len() && (is_digit(cs[p]) || cs[p] == '.') ==> p < scan_number(
            cs,
            p,
            has_dot,
        ).0,
        has_dot ==> scan_number(cs, p, has_dot).1,
    decreases cs.len() - p,
{
    if 0 <= p < cs.len() && (is_digit(cs[p]) || cs[p] == '.') {
        if cs[p] == '.' {
            if !has_dot {
                lemma_scan_number_bounds(cs, p + 1, true);
            }
        } else {
            lemma_scan_number_bounds(cs, p + 1, has_dot);
        }
    }
}

/// The tokens of a whole expression.
pub open spec fn lex(s: Seq<char>) -> Result<Seq<TokenView>, LexError> {
    lex_from(s, 0)
}

} // verus!

verus! {

/// `prepend` composes.
proof fn lemma_prepend_assoc(a: Seq<TokenView>, b: Seq<TokenView>, r: Result<Seq<TokenView>, LexError>)
    ensures
        prepend(a, prepend(b, r)) == prepend(a + b, r),
{
    match r {
        Ok(ts) => {
            assert(a + (b + ts) =~= (a + b) + ts);
        },
        Err(_) => {},
    }
}

/// A run of digits never shrinks in value when extended.
proof fn lemma_digits_value_prefix(s: Seq<char>, k: int)
    requires
        0 <= k <= s.len(),
        forall|j: int| 0 <= j < s.len() ==> is_digit(#[trigger] s[j]),
    ensures
        digits_value(s.take(k)) <= digits_value(s),
    decreases s.len() - k,
{
    if k < s.len() {
        assert(s.take(k + 1).drop_last() =~= s.take(k));
        lemma_digits_value_prefix(s, k + 1);
    } else {
        assert(s.take(k) =~= s);
    }
}

fn is_ws_exec(c: char) -> (r: bool)
    ensures
        r == is_ws(c),
{
    c == ' ' || c == '\t' || c == '\n' || c == '\r' || c == '\x0C'
}

fn is_digit_exec(c: char) -> (r: bool)
    ensures
        r == is_digit(c),
{
    '0' <= c && c <= '9'
}

fn is_ident_start_exec(c: char) -> (r: bool)
    ensures
        r == is_ident_start(c),
{
    ('a' <= c && c <= 'z') || ('A' <= c && c <= 'Z') || c == '_'
}

fn is_ident_char_exec(c: char) -> (r: bool)
    ensures
        r == is_ident_char(c),
{
    ('a' <= c && c <= 'z') || ('A' <= c && c <= 'Z') || ('0' <= c && c <= '9') || c == '_'
}

/// The characters `cs[a..b]` as a `String`.
pub fn substring(cs: &Vec<char>, a: usize, b: usize) -> (s: String)
    requires
        a <= b <= cs.len(),
    ensures
        s@ == cs@.subrange(a as int, b as int),
{
    let mut v: Vec<char> = Vec::new();
    let mut i = a;
    while i < b
        invariant
            a <= i <= b <= cs.len(),
            v@ == cs@.subrange(a as int, i as int),
        decreases b - i,
    {
        v.push(cs[i]);
        i = i + 1;
        assert(v@ =~= cs@.subrange(a as int, i as int));
    }
    string_from_chars(v.as_slice())
}

/// Value of the digit run `cs[a..b]`, or `None` when it exceeds `i64::MAX`.
fn parse_digits(cs: &Vec<char>, a: usize, b: usize) -> (r: Option<i64>)
    requires
        a <= b <= cs.len(),
        forall|j: int| a <= j < b ==> is_digit(#[trigger] cs@[j]),
    ensures
        match r {
            Some(v) => v as int == digits_value(cs@.subrange(a as int, b as int)),
            None => digits_value(cs@.subrange(a as int, b as int)) > i64::MAX,
        },
{
    let ghost s = cs@.subrange(a as int, b as int);
    let mut v: i64 = 0;
    let mut i = a;
    while i < b
        invariant
            a <= i <= b <= cs.len(),
            s == cs@.subrange(a as int, b as int),
            forall|j: int| a <= j < b ==> is_digit(#[trigger] cs@[j]),
            v as int == digits_value(s.take(i - a)),
            v >= 0,
        decreases b - i,
    {
        assert(s.take(i - a + 1).drop_last() =~= s.take(i - a));
        assert(s.take(i - a + 1).last() == cs@[i as int]);
        let d = ((cs[i] as u32) - 48) as i64;
        assert(is_digit(cs@[i as int]));
        match v.checked_mul(10) {
            Some(m) => match m.checked_add(d) {
                Some(n) => {
                    v = n;
                },
                None => {
                    proof {
                        assert forall|j: int| 0 <= j < s.len() implies is_digit(#[trigger] s[j]) by {
                            assert(s[j] == cs@[a + j]);
                        }
                        lemma_digits_value_prefix(s, i - a + 1);
                    }
                    return None;
                },
            },
            None => {
                proof {
                    assert forall|j: int| 0 <= j < s.len() implies is_digit(#[trigger] s[j]) by {
                        assert(s[j] == cs@[a + j]);
                    }
                    lemma_digits_value_prefix(s, i - a + 1);
                }
                return None;
            },
        }
        i = i + 1;
    }
    assert(s.take(b - a) =~= s);
    Some(v)
}

/// The operator token at `p`, with its length.
fn operator_at_exec(cs: &Vec<char>, p: usize) -> (r: Option<(Token, usize)>)
    requires
        p < cs.len(),
    ensures
        match operator_at(cs@, p as int) {
            Some((t, n)) => r matches Some((tok, m)) && tok.view() == t && m as int == n,
            None => r is None,
        },
{
    let c = cs[p];
    let has_next = p + 1 < cs.len();
    let next = if has_next { cs[p + 1] } else { ' ' };
    if c == '+' {
        Some((Token::Plus, 1))
    } else if c == '-' {
        Some((Token::Minus, 1))
    } else if c == '*' {
        Some((Token::Star, 1))
    } else if c == '/' {
        Some((Token::Slash, 1))
    } else if c == '%' {
        Some((Token::Percent, 1))
    } else if c == '^' {
        Some((Token::Caret, 1))
    } else if c == '~' {
        Some((Token::Tilde, 1))
    } else if c == '(' {
        Some((Token::LParen, 1))
    } else if c == ')' {
        Some((Token::RParen, 1))
    } else if c == ',' {
        Some((Token::Comma, 1))
    } else if c == '&' {
        if has_next && next == '&' {
            Some((Token::And, 2))
        } else {
            Some((Token::Amp, 1))
        }
    } else if c == '|' {
        if has_next && next == '|' {
            Some((Token::Or, 2))
        } else {
            Some((Token::Pipe, 1))
        }
    } else if c == '!' {
        if has_next && next == '=' {
            Some((Token::NotEq, 2))
        } else {
            Some((Token::Bang, 1))
        }
    } else if c == '=' {
        if has_next && next == '=' {
            Some((Token::Eq, 2))
        } else {
            None
        }
    } else if c == '<' {
        if has_next && next == '=' {
            Some((Token::LtEq, 2))
        } else if has_next && next == '<' {
            Some((Token::ShiftLeft, 2))
        } else {
            Some((Token::Lt, 1))
        }
    } else if c == '>' {
        if has_next && next == '=' {
            Some((Token::GtEq, 2))
        } else if has_next && next == '>' {
            Some((Token::ShiftRight, 2))
        } else {
            Some((Token::Gt, 1))
        }
    } else {
        None
    }
}

/// Splits an expression into tokens, ending with [`Token::Eof`].
///
/// Fails at the first lone `=`, at the first character that starts no
/// token, or at an integer literal that does not fit in `i64`.
pub fn tokenize(input: &str) -> (r: Result<Vec<Token>, String>)
    ensures
        match lex(input@) {
            Ok(ts) => r matches Ok(v) && tokens_view(v@) == ts,
            Err(e) => r matches Err(m) && m@ == lex_error_msg(e),
        },
{
    let cs = chars_of(input);
    let mut tokens: Vec<Token> = Vec::new();
    let mut pos: usize = 0;
    while pos < cs.len()
        invariant
            pos <= cs.len(),
            cs@ == input@,
            lex(cs@) == prepend(tokens_view(tokens@), lex_from(cs@, pos as int)),
        decreases cs.len() - pos,
    {
        let ghost old_tokens = tokens@;
        let ch = cs[pos];
        if is_ws_exec(ch) {
            pos = pos + 1;
            continue;
        }
        let starts_number = is_digit_exec(ch) || (ch == '.' && pos + 1 < cs.len() && is_digit_exec(cs[pos + 1]));
        if starts_number {
            let start = pos;
            let mut has_dot = false;
            proof {
                lemma_scan_number_bounds(cs@, start as int, false);
            }
            while pos < cs.len() && (is_digit_exec(cs[pos]) || cs[pos] == '.')
                invariant
                    start <= pos <= cs.len(),
                    scan_number(cs@, start as int, false) == scan_number(cs@, pos as int, has_dot),
                    !has_dot ==> forall|j: int| start <= j < pos ==> is_digit(#[trigger] cs@[j]),
                    pos == start ==> !has_dot,
                ensures
                    start <= pos <= cs.len(),
                    scan_number(cs@, start as int, false) == scan_number(cs@, pos as int, has_dot),
                    scan_number(cs@, pos as int, has_dot) == (pos as int, has_dot),
                    !has_dot ==> forall|j: int| start <= j < pos ==> is_digit(#[trigger] cs@[j]),
                decreases cs.len() - pos,
            {
                if cs[pos] == '.' {
                    if has_dot {
                        break;
                    }
                    has_dot = true;
                }
                pos = pos + 1;
            }
            let ghost q = pos as int;
            assert(scan_number(cs@, start as int, false) == (q, has_dot));
            assert(lex_from(cs@, start as int) == lex_number(cs@, start as int));
            if pos < cs.len() && is_ident_start_exec(cs[pos]) {
                let mut r = pos;
                proof {
                    lemma_scan_ident_bounds(cs@, q);
                }
                while r < cs.len() && is_ident_char_exec(cs[r])
                    invariant
                        q <= r <= cs.len(),
                        scan_ident(cs@, q) == scan_ident(cs@, r as int),
                    decreases cs.len() - r,
                {
                    r = r + 1;
                }
                let t = Token::Ident(substring(&cs, start, r));
                proof {
                    lemma_prepend_assoc(tokens_view(old_tokens), seq![t.view()], lex_from(cs@, r as int));
                }
                tokens.push(t);
                assert(tokens_view(tokens@) =~= tokens_view(old_tokens) + seq![t.view()]);
                pos = r;
            } else if has_dot {
                let t = Token::Float(substring(&cs, start, pos));
                proof {
                    lemma_prepend_assoc(tokens_view(old_tokens), seq![t.view()], lex_from(cs@, q));
                }
                tokens.push(t);
                assert(tokens_view(tokens@) =~= tokens_view(old_tokens) + seq![t.view()]);
            } else {
                match parse_digits(&cs, start, pos) {
                    Some(v) => {
                        let t = Token::Int(v);
                        proof {
                            lemma_prepend_assoc(tokens_view(old_tokens), seq![t.view()], lex_from(cs@, q));
                        }
                        tokens.push(t);
                        assert(tokens_view(tokens@) =~= tokens_view(old_tokens) + seq![t.view()]);
                    },
                    None => {
                        let mut msg: Vec<char> = Vec::new();
                        push_str(&mut msg, "无法解析整数 '");
                        let text = substring(&cs, start, pos);
                        push_str(&mut msg, text.as_str());
                        push_str(&mut msg, "': number too large to fit in target type");
                        return Err(string_from_chars(msg.as_slice()));
                    },
                }
            }
            continue;
        }
        if is_ident_start_exec(ch) {
            let mut r = pos;
            proof {
                lemma_scan_ident_bounds(cs@, pos as int);
            }
            while r < cs.len() && is_ident_char_exec(cs[r])
                invariant
                    pos <= r <= cs.len(),
                    scan_ident(cs@, pos as int) == scan_ident(cs@, r as int),
                decreases cs.len() - r,
            {
                r = r + 1;
            }
            let t = Token::Ident(substring(&cs, pos, r));
            proof {
                lemma_prepend_assoc(tokens_view(old_tokens), seq![t.view()], lex_from(cs@, r as int));
            }
            tokens.push(t);
            assert(tokens_view(tokens@) =~= tokens_view(old_tokens) + seq![t.view()]);
            pos = r;
            continue;
        }
        match operator_at_exec(&cs, pos) {
            Some((t, n)) => {
                proof {
                    lemma_prepend_assoc(tokens_view(old_tokens), seq![t.view()], lex_from(cs@, pos + n));
                }
                tokens.push(t);
                assert(tokens_view(tokens@) =~= tokens_view(old_tokens) + seq![t.view()]);
                pos = pos + n;
            },
            None => {
                let mut msg: Vec<char> = Vec::new();
                push_str(&mut msg, "位置 ");
                push_decimal(&mut msg, pos as u64);
                if ch == '=' {
                    push_str(&mut msg, " 处出现单独的 '='，请使用 '=='");
                } else {
                    push_str(&mut msg, " 处出现非法字符 '");
                    msg.push(ch);
                    push_str(&mut msg, "'");
                }
                return Err(string_from_chars(msg.as_slice()));
            },
        }
    }
    let ghost before = tokens@;
    tokens.push(Token::Eof);
    assert(tokens_view(tokens@) =~= tokens_view(before) + seq![TokenView::Eof]);
    Ok(tokens)
}


/// A `/` where a token starts is the division operator, alone: in any
/// input, lexing from a `/` gives `Slash` followed by the tokens of what
/// comes after it (so a `/` never reads as `%` or as part of a longer
/// operator).
pub proof fn law_slash_is_division(cs: Seq<char>, pos: int)
    requires
        0 <= pos < cs.len(),
        cs[pos] == '/',
    ensures
        lex_from(cs, pos) == prepend(seq![TokenView::Slash], lex_from(cs, pos + 1)),
        lex_from(cs, pos) is Ok ==> lex_from(cs, pos)->Ok_0[0] == TokenView::Slash,
{
    assert(!is_ws(cs[pos]));
    assert(!number_starts(cs, pos));
    assert(!is_ident_start(cs[pos]));
    assert(operator_at(cs, pos) == Some((TokenView::Slash, 1int)));
}

/// Whitespace around an operator does not change it: in any input, a
/// space-surrounded `/` between two tokens is one `Slash`.
pub proof fn law_spaced_slash(cs: Seq<char>, pos: int)
    requires
        0 <= pos,
        pos + 2 < cs.len(),
        is_ws(cs[pos]),
        cs[pos + 1] == '/',
        is_ws(cs[pos + 2]),
    ensures
        lex_from(cs, pos) == prepend(seq![TokenView::Slash], lex_from(cs, pos + 3)),
{
    law_slash_is_division(cs, pos + 1);
    assert(lex_from(cs, pos) == lex_from(cs, pos + 1));
    assert(lex_from(cs, pos + 2) == lex_from(cs, pos + 3));
}

} // verus!
