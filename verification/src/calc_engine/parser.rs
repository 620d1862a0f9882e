//! Pratt parser for formulas.
//!
//! Builds an expression tree from tokens with the usual precedences:
//! `||` < `&&` < `|` < `^` < `&` < `== !=` < `< > <= >=` < `<< >>` <
//! `+ -` < `* / %` < prefix `- ! ~`. Binary operators associate to the left.
//! `IF(c, a, b)` is a conditional; `true` and `false` (any case) are
//! boolean literals.

use vstd::prelude::*;

use super::tokenizer::{Token, TokenView, tokens_view};
use crate::text::{
    chars_eq_ignore_case, eq_ignore_case, int_text, push_int, push_str, sorted_strict, sorted_unique,
    string_from_chars, strings_view,
};

verus! {

/// Binary operators.
#[derive(Debug, Clone, Copy, PartialEq, Eq, Structural)]
pub enum BinOp {
    Add,
    Sub,
    Mul,
    Div,
    Mod,
    BitAnd,
    BitOr,
    BitXor,
    ShiftLeft,
    ShiftRight,
    And,
    Or,
    Eq,
    NotEq,
    Lt,
    Gt,
    LtEq,
    GtEq,
}

/// Prefix operators.
#[derive(Debug, Clone, Copy, PartialEq, Eq, Structural)]
pub enum UnaryOp {
    /// Arithmetic negation `-`.
    Neg,
    /// Logical not `!`.
    Not,
    /// Bitwise not `~`.
    BitNot,
}

/// Literal constants.
#[derive(Debug, Clone, PartialEq)]
pub enum Literal {
    Int(i64),
    /// Decimal literal, as its source text.
    Float(String),
    Bool(bool),
}

/// Expression tree.
#[derive(Debug, PartialEq)]
pub enum Expr {
    Literal(Literal),
    Variable(String),
    Binary { op: BinOp, left: Box<Expr>, right: Box<Expr> },
    Unary { op: UnaryOp, operand: Box<Expr> },
    If { condition: Box<Expr>, then_branch: Box<Expr>, else_branch: Box<Expr> },
}

/// Model of a [`Literal`].
pub enum LiteralView {
    Int(int),
    Float(Seq<char>),
    Bool(bool),
}

/// Model of an [`Expr`].
pub enum ExprView {
    Literal(LiteralView),
    Variable(Seq<char>),
    Binary(BinOp, Box<ExprView>, Box<ExprView>),
    Unary(UnaryOp, Box<ExprView>),
    If(Box<ExprView>, Box<ExprView>, Box<ExprView>),
}

impl Literal {
    pub open spec fn view(&self) -> LiteralView {
        match self {
            Literal::Int(n) => LiteralView::Int(*n as int),
            Literal::Float(s) => LiteralView::Float(s@),
            Literal::Bool(b) => LiteralView::Bool(*b),
        }
    }
}

impl Expr {
    pub open spec fn view(&self) -> ExprView
        decreases self,
    {
        match self {
            Expr::Literal(l) => ExprView::Literal(l.view()),
            Expr::Variable(s) => ExprView::Variable(s@),
            Expr::Binary { op, left, right } => ExprView::Binary(
                *op,
                Box::new(left.view()),
                Box::new(right.view()),
            ),
            Expr::Unary { op, operand } => ExprView::Unary(*op, Box::new(operand.view())),
            Expr::If { condition, then_branch, else_branch } => ExprView::If(
                Box::new(condition.view()),
                Box::new(then_branch.view()),
                Box::new(else_branch.view()),
            ),
        }
    }
}

// ------------------------------------------------------------------
//  Binding powers
// ------------------------------------------------------------------

/// Left and right binding power of a binary operator.
pub open spec fn binding_power(op: BinOp) -> (int, int) {
    match op {
        BinOp::Or => (2, 3),
        BinOp::And => (4, 5),
        BinOp::BitOr => (6, 7),
        BinOp::BitXor => (8, 9),
        BinOp::BitAnd => (10, 11),
        BinOp::Eq | BinOp::NotEq => (12, 13),
        BinOp::Lt | BinOp::Gt | BinOp::LtEq | BinOp::GtEq => (14, 15),
        BinOp::ShiftLeft | BinOp::ShiftRight => (16, 17),
        BinOp::Add | BinOp::Sub => (18, 19),
        BinOp::Mul | BinOp::Div | BinOp::Mod => (20, 21),
    }
}

/// Binding power of every prefix operator.
pub open spec fn prefix_power() -> int {
    23
}

/// Left and right binding power of a binary operator; the right one is one
/// higher, which makes every binary operator left-associative.
pub fn infix_bp(op: &BinOp) -> (r: (u8, u8))
    ensures
        (r.0 as int, r.1 as int) == binding_power(*op),
{
    match op {
        BinOp::Or => (2, 3),
        BinOp::And => (4, 5),
        BinOp::BitOr => (6, 7),
        BinOp::BitXor => (8, 9),
        BinOp::BitAnd => (10, 11),
        BinOp::Eq | BinOp::NotEq => (12, 13),
        BinOp::Lt | BinOp::Gt | BinOp::LtEq | BinOp::GtEq => (14, 15),
        BinOp::ShiftLeft | BinOp::ShiftRight => (16, 17),
        BinOp::Add | BinOp::Sub => (18, 19),
        BinOp::Mul | BinOp::Div | BinOp::Mod => (20, 21),
    }
}

/// Binding power of a prefix operator: all of them bind tighter than any
/// binary operator.
pub fn prefix_bp(_op: &UnaryOp) -> (r: ((), u8))
    ensures
        r.1 as int == prefix_power(),
{
    ((), 23)
}

/// The binary operator a token stands for.
pub open spec fn binop_of(t: TokenView) -> Option<BinOp> {
    match t {
        TokenView::Plus => Some(BinOp::Add),
        TokenView::Minus => Some(BinOp::Sub),
        TokenView::Star => Some(BinOp::Mul),
        TokenView::Slash => Some(BinOp::Div),
        TokenView::Percent => Some(BinOp::Mod),
        TokenView::Amp => Some(BinOp::BitAnd),
        TokenView::Pipe => Some(BinOp::BitOr),
        TokenView::Caret => Some(BinOp::BitXor),
        TokenView::ShiftLeft => Some(BinOp::ShiftLeft),
        TokenView::ShiftRight => Some(BinOp::ShiftRight),
        TokenView::And => Some(BinOp::And),
        TokenView::Or => Some(BinOp::Or),
        TokenView::Eq => Some(BinOp::Eq),
        TokenView::NotEq => Some(BinOp::NotEq),
        TokenView::Lt => Some(BinOp::Lt),
        TokenView::Gt => Some(BinOp::Gt),
        TokenView::LtEq => Some(BinOp::LtEq),
        TokenView::GtEq => Some(BinOp::GtEq),
        _ => None,
    }
}

/// The binary operator a token stands for.
pub fn token_to_binop(tok: &Token) -> (r: Option<BinOp>)
    ensures
        r == binop_of(tok.view()),
{
    match tok {
        Token::Plus => Some(BinOp::Add),
        Token::Minus => Some(BinOp::Sub),
        Token::Star => Some(BinOp::Mul),
        Token::Slash => Some(BinOp::Div),
        Token::Percent => Some(BinOp::Mod),
        Token::Amp => Some(BinOp::BitAnd),
        Token::Pipe => Some(BinOp::BitOr),
        Token::Caret => Some(BinOp::BitXor),
        Token::ShiftLeft => Some(BinOp::ShiftLeft),
        Token::ShiftRight => Some(BinOp::ShiftRight),
        Token::And => Some(BinOp::And),
        Token::Or => Some(BinOp::Or),
        Token::Eq => Some(BinOp::Eq),
        Token::NotEq => Some(BinOp::NotEq),
        Token::Lt => Some(BinOp::Lt),
        Token::Gt => Some(BinOp::Gt),
        Token::LtEq => Some(BinOp::LtEq),
        Token::GtEq => Some(BinOp::GtEq),
        _ => None,
    }
}

// ------------------------------------------------------------------
//  Grammar
// ------------------------------------------------------------------

/// Why parsing stopped.
pub enum ParseError {
    /// A token that cannot start an expression.
    Unexpected(TokenView),
    /// A `(` without its `)`.
    MissingRParen,
    /// An `IF(` whose arguments are not separated by `,`.
    MissingComma,
    /// Tokens left after a complete expression.
    Trailing(TokenView),
}

/// The token at `p`; `Eof` past the end.
pub open spec fn tok_at(ts: Seq<TokenView>, p: int) -> TokenView {
    if 0 <= p < ts.len() {
        ts[p]
    } else {
        TokenView::Eof
    }
}

/// Parses one expression whose operators bind at least as tightly as
/// `min`, starting at `pos`: the tree and the position after it.
pub open spec fn parse_bp(ts: Seq<TokenView>, pos: int, min: int) -> Result<(ExprView, int), ParseError>
    decreases ts.len() + 2 - pos, 1int,
{
    if pos < 0 || pos > ts.len() + 1 {
        Err(ParseError::Unexpected(TokenView::Eof))
    } else {
        match parse_prefix(ts, pos) {
            Err(e) => Err(e),
            Ok((lhs, p1)) => if pos < p1 <= ts.len() + 1 {
                parse_infix(ts, p1, lhs, min)
            } else {
                Err(ParseError::Unexpected(TokenView::Eof))
            },
        }
    }
}

/// An operand: literal, variable, parenthesised expression, `IF(...)` or
/// prefix operator applied to an operand.
pub open spec fn parse_prefix(ts: Seq<TokenView>, pos: int) -> Result<(ExprView, int), ParseError>
    decreases ts.len() + 2 - pos, 0int,
{
    if pos < 0 || pos > ts.len() + 1 {
        Err(ParseError::Unexpected(TokenView::Eof))
    } else {
        match tok_at(ts, pos) {
            TokenView::Int(n) => Ok((ExprView::Literal(LiteralView::Int(n)), pos + 1)),
            TokenView::Float(s) => Ok((ExprView::Literal(LiteralView::Float(s)), pos + 1)),
            TokenView::Ident(name) => if eq_ignore_case(name, "true"@) {
                Ok((ExprView::Literal(LiteralView::Bool(true)), pos + 1))
            } else if eq_ignore_case(name, "false"@) {
                Ok((ExprView::Literal(LiteralView::Bool(false)), pos + 1))
            } else if eq_ignore_case(name, "IF"@) && tok_at(ts, pos + 1) == TokenView::LParen {
                parse_if(ts, pos + 2)
            } else {
                Ok((ExprView::Variable(name), pos + 1))
            },
            TokenView::LParen => match parse_bp(ts, pos + 1, 0) {
                Err(e) => Err(e),
                Ok((inner, p)) => if tok_at(ts, p) == TokenView::RParen {
                    Ok((inner, p + 1))
                } else {
                    Err(ParseError::MissingRParen)
                },
            },
            TokenView::Minus => match parse_bp(ts, pos + 1, prefix_power()) {
                Err(e) => Err(e),
                Ok((e, p)) => Ok((ExprView::Unary(UnaryOp::Neg, Box::new(e)), p)),
            },
            TokenView::Bang => match parse_bp(ts, pos + 1, prefix_power()) {
                Err(e) => Err(e),
                Ok((e, p)) => Ok((ExprView::Unary(UnaryOp::Not, Box::new(e)), p)),
            },
            TokenView::Tilde => match parse_bp(ts, pos + 1, prefix_power()) {
                Err(e) => Err(e),
                Ok((e, p)) => Ok((ExprView::Unary(UnaryOp::BitNot, Box::new(e)), p)),
            },
            t => Err(ParseError::Unexpected(t)),
        }
    }
}

/// The three arguments of `IF(`, starting after the `(`.
pub open spec fn parse_if(ts: Seq<TokenView>, pos: int) -> Result<(ExprView, int), ParseError>
    decreases ts.len() + 2 - pos, 2int,
{
    if pos < 0 || pos > ts.len() + 1 {
        Err(ParseError::Unexpected(TokenView::Eof))
    } else {
        match parse_bp(ts, pos, 0) {
            Err(e) => Err(e),
            Ok((c, p1)) => if !(pos < p1 <= ts.len() + 1) {
                Err(ParseError::Unexpected(TokenView::Eof))
            } else if tok_at(ts, p1) != TokenView::Comma {
                Err(ParseError::MissingComma)
            } else {
                match parse_bp(ts, p1 + 1, 0) {
                    Err(e) => Err(e),
                    Ok((a, p2)) => if !(p1 < p2 <= ts.len() + 1) {
                        Err(ParseError::Unexpected(TokenView::Eof))
                    } else if tok_at(ts, p2) != TokenView::Comma {
                        Err(ParseError::MissingComma)
                    } else {
                        match parse_bp(ts, p2 + 1, 0) {
                            Err(e) => Err(e),
                            Ok((b, p3)) => if tok_at(ts, p3) == TokenView::RParen {
                                Ok((ExprView::If(Box::new(c), Box::new(a), Box::new(b)), p3 + 1))
                            } else {
                                Err(ParseError::MissingRParen)
                            },
                        }
                    },
                }
            },
        }
    }
}

/// Extends `lhs` with binary operators of binding power at least `min`.
pub open spec fn parse_infix(ts: Seq<TokenView>, pos: int, lhs: ExprView, min: int) -> Result<
    (ExprView, int),
    ParseError,
>
    decreases ts.len() + 2 - pos, 3int,
{
    if pos < 0 || pos > ts.len() + 1 {
        Err(ParseError::Unexpected(TokenView::Eof))
    } else {
        match binop_of(tok_at(ts, pos)) {
            None => Ok((lhs, pos)),
            Some(op) => if binding_power(op).0 < min {
                Ok((lhs, pos))
            } else {
                match parse_bp(ts, pos + 1, binding_power(op).1) {
                    Err(e) => Err(e),
                    Ok((rhs, p2)) => if pos < p2 <= ts.len() + 1 {
                        parse_infix(
                            ts,
                            p2,
                            ExprView::Binary(op, Box::new(lhs), Box::new(rhs)),
                            min,
                        )
                    } else {
                        Err(ParseError::Unexpected(TokenView::Eof))
                    },
                }
            },
        }
    }
}

/// The tree of a whole token list: one expression followed by `Eof`.
pub open spec fn parse_tokens(ts: Seq<TokenView>) -> Result<ExprView, ParseError> {
    match parse_bp(ts, 0, 0) {
        Err(e) => Err(e),
        Ok((e, p)) => if tok_at(ts, p) == TokenView::Eof {
            Ok(e)
        } else {
            Err(ParseError::Trailing(tok_at(ts, p)))
        },
    }
}

// ------------------------------------------------------------------
//  Messages
// ------------------------------------------------------------------

/// How a token is named in messages.
pub open spec fn token_text(t: TokenView) -> Seq<char> {
    match t {
        TokenView::Int(n) => "Int("@ + int_text(n) + ")"@,
        TokenView::Float(s) => "Float("@ + s + ")"@,
        TokenView::Ident(s) => "Ident("@ + s + ")"@,
        TokenView::Plus => "Plus"@,
        TokenView::Minus => "Minus"@,
        TokenView::Star => "Star"@,
        TokenView::Slash => "Slash"@,
        TokenView::Percent => "Percent"@,
        TokenView::Amp => "Amp"@,
        TokenView::Pipe => "Pipe"@,
        TokenView::Caret => "Caret"@,
        TokenView::Tilde => "Tilde"@,
        TokenView::ShiftLeft => "ShiftLeft"@,
        TokenView::ShiftRight => "ShiftRight"@,
        TokenView::And => "And"@,
        TokenView::Or => "Or"@,
        TokenView::Bang => "Bang"@,
        TokenView::Eq => "Eq"@,
        TokenView::NotEq => "NotEq"@,
        TokenView::Lt => "Lt"@,
        TokenView::Gt => "Gt"@,
        TokenView::LtEq => "LtEq"@,
        TokenView::GtEq => "GtEq"@,
        TokenView::LParen => "LParen"@,
        TokenView::RParen => "RParen"@,
        TokenView::Comma => "Comma"@,
        TokenView::Eof => "Eof"@,
    }
}

/// The message reported for a parse error.
pub open spec fn parse_error_msg(e: ParseError) -> Seq<char> {
    match e {
        ParseError::Unexpected(t) => "期望表达式，但遇到 "@ + token_text(t),
        ParseError::MissingRParen => "缺少右括号 ')'"@,
        ParseError::MissingComma => "IF 的参数之间缺少 ','"@,
        ParseError::Trailing(t) => "解析完成后仍有多余的 Token: "@ + token_text(t),
    }
}

} // verus!

verus! {


/// Appends `token_text` of `t`.
fn push_token_text(out: &mut Vec<char>, t: &Token)
    ensures
        final(out)@ == old(out)@ + token_text(t.view()),
{
    match t {
        Token::Int(n) => {
            push_str(out, "Int(");
            push_int(out, *n);
            push_str(out, ")");
            assert(final(out)@ =~= old(out)@ + ("Int("@ + int_text(*n as int) + ")"@));
        },
        Token::Float(s) => {
            push_str(out, "Float(");
            push_str(out, s.as_str());
            push_str(out, ")");
            assert(final(out)@ =~= old(out)@ + ("Float("@ + s@ + ")"@));
        },
        Token::Ident(s) => {
            push_str(out, "Ident(");
            push_str(out, s.as_str());
            push_str(out, ")");
            assert(final(out)@ =~= old(out)@ + ("Ident("@ + s@ + ")"@));
        },
        Token::Plus => push_str(out, "Plus"),
        Token::Minus => push_str(out, "Minus"),
        Token::Star => push_str(out, "Star"),
        Token::Slash => push_str(out, "Slash"),
        Token::Percent => push_str(out, "Percent"),
        Token::Amp => push_str(out, "Amp"),
        Token::Pipe => push_str(out, "Pipe"),
        Token::Caret => push_str(out, "Caret"),
        Token::Tilde => push_str(out, "Tilde"),
        Token::ShiftLeft => push_str(out, "ShiftLeft"),
        Token::ShiftRight => push_str(out, "ShiftRight"),
        Token::And => push_str(out, "And"),
        Token::Or => push_str(out, "Or"),
        Token::Bang => push_str(out, "Bang"),
        Token::Eq => push_str(out, "Eq"),
        Token::NotEq => push_str(out, "NotEq"),
        Token::Lt => push_str(out, "Lt"),
        Token::Gt => push_str(out, "Gt"),
        Token::LtEq => push_str(out, "LtEq"),
        Token::GtEq => push_str(out, "GtEq"),
        Token::LParen => push_str(out, "LParen"),
        Token::RParen => push_str(out, "RParen"),
        Token::Comma => push_str(out, "Comma"),
        Token::Eof => push_str(out, "Eof"),
    }
}

fn unexpected_msg(t: &Token) -> (s: String)
    ensures
        s@ == parse_error_msg(ParseError::Unexpected(t.view())),
{
    let mut out: Vec<char> = Vec::new();
    push_str(&mut out, "期望表达式，但遇到 ");
    push_token_text(&mut out, t);
    string_from_chars(out.as_slice())
}

fn missing_rparen_msg() -> (s: String)
    ensures
        s@ == parse_error_msg(ParseError::MissingRParen),
{
    let mut out: Vec<char> = Vec::new();
    push_str(&mut out, "缺少右括号 ')'");
    string_from_chars(out.as_slice())
}

fn missing_comma_msg() -> (s: String)
    ensures
        s@ == parse_error_msg(ParseError::MissingComma),
{
    let mut out: Vec<char> = Vec::new();
    push_str(&mut out, "IF 的参数之间缺少 ','");
    string_from_chars(out.as_slice())
}

/// The token at `p`, or `Eof` past the end.
fn peek(ts: &Vec<Token>, p: usize) -> (t: Token)
    ensures
        t.view() == tok_at(tokens_view(ts@), p as int),
{
    if p < ts.len() {
        ts[p].duplicate()
    } else {
        Token::Eof
    }
}

/// Exec counterpart of `parse_bp`.
fn expr_bp(ts: &Vec<Token>, pos: usize, min_bp: u8) -> (r: Result<(Expr, usize), String>)
    requires
        ts.len() + 4 < usize::MAX,
        pos <= ts.len() + 1,
    ensures
        match parse_bp(tokens_view(ts@), pos as int, min_bp as int) {
            Ok((e, p)) => r matches Ok((x, q)) && x.view() == e && q as int == p,
            Err(err) => r matches Err(m) && m@ == parse_error_msg(err),
        },
        r matches Ok((_, q)) ==> pos < q <= ts.len() + 1,
    decreases ts.len() + 2 - pos, 1int,
{
    let ghost tv = tokens_view(ts@);
    let (mut lhs, mut p) = match prefix(ts, pos) {
        Ok(x) => x,
        Err(m) => return Err(m),
    };
    assert(tv.len() == ts.len());
    loop
        invariant
            ts.len() + 4 < usize::MAX,
            pos < p <= ts.len() + 1,
            tv == tokens_view(ts@),
            parse_bp(tv, pos as int, min_bp as int) == parse_infix(tv, p as int, lhs.view(), min_bp as int),
        decreases ts.len() + 2 - p,
    {
        let t = peek(ts, p);
        let op = match token_to_binop(&t) {
            Some(op) => op,
            None => {
                return Ok((lhs, p));
            },
        };
        let (l_bp, r_bp) = infix_bp(&op);
        if l_bp < min_bp {
            return Ok((lhs, p));
        }
        let (rhs, p2) = match expr_bp(ts, p + 1, r_bp) {
            Ok(x) => x,
            Err(m) => return Err(m),
        };
        lhs = Expr::Binary { op, left: Box::new(lhs), right: Box::new(rhs) };
        p = p2;
    }
}

/// Exec counterpart of `parse_prefix`.
fn prefix(ts: &Vec<Token>, pos: usize) -> (r: Result<(Expr, usize), String>)
    requires
        ts.len() + 4 < usize::MAX,
        pos <= ts.len() + 1,
    ensures
        match parse_prefix(tokens_view(ts@), pos as int) {
            Ok((e, p)) => r matches Ok((x, q)) && x.view() == e && q as int == p,
            Err(err) => r matches Err(m) && m@ == parse_error_msg(err),
        },
        r matches Ok((_, q)) ==> pos < q <= ts.len() + 1,
    decreases ts.len() + 2 - pos, 0int,
{
    let ghost tv = tokens_view(ts@);
    let t = peek(ts, pos);
    match t {
        Token::Int(n) => Ok((Expr::Literal(Literal::Int(n)), pos + 1)),
        Token::Float(s) => Ok((Expr::Literal(Literal::Float(s)), pos + 1)),
        Token::Ident(name) => {
            let cs = crate::text::chars_of(name.as_str());
            if chars_eq_ignore_case(cs.as_slice(), "true") {
                Ok((Expr::Literal(Literal::Bool(true)), pos + 1))
            } else if chars_eq_ignore_case(cs.as_slice(), "false") {
                Ok((Expr::Literal(Literal::Bool(false)), pos + 1))
            } else if chars_eq_ignore_case(cs.as_slice(), "IF") && matches!(peek(ts, pos + 1), Token::LParen) {
                if_args(ts, pos + 2)
            } else {
                Ok((Expr::Variable(name), pos + 1))
            }
        },
        Token::LParen => {
            let (inner, p) = match expr_bp(ts, pos + 1, 0) {
                Ok(x) => x,
                Err(m) => return Err(m),
            };
            if matches!(peek(ts, p), Token::RParen) {
                Ok((inner, p + 1))
            } else {
                Err(missing_rparen_msg())
            }
        },
        Token::Minus => {
            let ((), r_bp) = prefix_bp(&UnaryOp::Neg);
            let (e, p) = match expr_bp(ts, pos + 1, r_bp) {
                Ok(x) => x,
                Err(m) => return Err(m),
            };
            Ok((Expr::Unary { op: UnaryOp::Neg, operand: Box::new(e) }, p))
        },
        Token::Bang => {
            let ((), r_bp) = prefix_bp(&UnaryOp::Not);
            let (e, p) = match expr_bp(ts, pos + 1, r_bp) {
                Ok(x) => x,
                Err(m) => return Err(m),
            };
            Ok((Expr::Unary { op: UnaryOp::Not, operand: Box::new(e) }, p))
        },
        Token::Tilde => {
            let ((), r_bp) = prefix_bp(&UnaryOp::BitNot);
            let (e, p) = match expr_bp(ts, pos + 1, r_bp) {
                Ok(x) => x,
                Err(m) => return Err(m),
            };
            Ok((Expr::Unary { op: UnaryOp::BitNot, operand: Box::new(e) }, p))
        },
        other => Err(unexpected_msg(&other)),
    }
}

/// Exec counterpart of `parse_if`.
fn if_args(ts: &Vec<Token>, pos: usize) -> (r: Result<(Expr, usize), String>)
    requires
        ts.len() + 4 < usize::MAX,
        pos <= ts.len() + 1,
    ensures
        match parse_if(tokens_view(ts@), pos as int) {
            Ok((e, p)) => r matches Ok((x, q)) && x.view() == e && q as int == p,
            Err(err) => r matches Err(m) && m@ == parse_error_msg(err),
        },
        r matches Ok((_, q)) ==> pos < q <= ts.len() + 1,
    decreases ts.len() + 2 - pos, 2int,
{
    let (c, p1) = match expr_bp(ts, pos, 0) {
        Ok(x) => x,
        Err(m) => return Err(m),
    };
    if !matches!(peek(ts, p1), Token::Comma) {
        return Err(missing_comma_msg());
    }
    let (a, p2) = match expr_bp(ts, p1 + 1, 0) {
        Ok(x) => x,
        Err(m) => return Err(m),
    };
    if !matches!(peek(ts, p2), Token::Comma) {
        return Err(missing_comma_msg());
    }
    let (b, p3) = match expr_bp(ts, p2 + 1, 0) {
        Ok(x) => x,
        Err(m) => return Err(m),
    };
    if !matches!(peek(ts, p3), Token::RParen) {
        return Err(missing_rparen_msg());
    }
    Ok((
        Expr::If { condition: Box::new(c), then_branch: Box::new(a), else_branch: Box::new(b) },
        p3 + 1,
    ))
}

/// Parses a token list (as produced by `tokenize`) into an expression tree.
///
/// The whole list must form one expression followed by `Eof`.
pub fn parse(tokens: Vec<Token>) -> (r: Result<Expr, String>)
    requires
        tokens.len() + 4 < usize::MAX,
    ensures
        match parse_tokens(tokens_view(tokens@)) {
            Ok(e) => r matches Ok(x) && x.view() == e,
            Err(err) => r matches Err(m) && m@ == parse_error_msg(err),
        },
{
    let (e, p) = match expr_bp(&tokens, 0, 0) {
        Ok(x) => x,
        Err(m) => return Err(m),
    };
    let t = peek(&tokens, p);
    if matches!(t, Token::Eof) {
        Ok(e)
    } else {
        let mut out: Vec<char> = Vec::new();
        push_str(&mut out, "解析完成后仍有多余的 Token: ");
        push_token_text(&mut out, &t);
        Err(string_from_chars(out.as_slice()))
    }
}


// ------------------------------------------------------------------
//  Variables
// ------------------------------------------------------------------

/// Names of the variables of an expression, in reading order, with
/// repetitions.
pub open spec fn vars_in(e: ExprView) -> Seq<Seq<char>>
    decreases e,
{
    match e {
        ExprView::Literal(_) => Seq::empty(),
        ExprView::Variable(n) => seq![n],
        ExprView::Binary(_, l, r) => vars_in(*l) + vars_in(*r),
        ExprView::Unary(_, o) => vars_in(*o),
        ExprView::If(c, t, f) => vars_in(*c) + vars_in(*t) + vars_in(*f),
    }
}

/// Appends the variable names of `expr`, in reading order.
fn collect_variables(expr: &Expr, out: &mut Vec<String>)
    ensures
        strings_view(final(out)@) == strings_view(old(out)@) + vars_in(expr.view()),
    decreases expr,
{
    match expr {
        Expr::Literal(_) => {
            assert(strings_view(out@) =~= strings_view(out@) + vars_in(expr.view()));
        },
        Expr::Variable(name) => {
            out.push(name.clone());
            assert(strings_view(out@) =~= strings_view(old(out)@) + vars_in(expr.view()));
        },
        Expr::Binary { left, right, .. } => {
            collect_variables(left, out);
            collect_variables(right, out);
            assert(strings_view(out@) =~= strings_view(old(out)@) + vars_in(expr.view()));
        },
        Expr::Unary { operand, .. } => {
            collect_variables(operand, out);
        },
        Expr::If { condition, then_branch, else_branch } => {
            collect_variables(condition, out);
            collect_variables(then_branch, out);
            collect_variables(else_branch, out);
            assert(strings_view(out@) =~= strings_view(old(out)@) + vars_in(expr.view()));
        },
    }
}

/// The variable names an expression refers to, each once, in increasing
/// order.
pub fn extract_variables(expr: &Expr) -> (r: Vec<String>)
    ensures
        sorted_strict(strings_view(r@)),
        strings_view(r@).to_set() == vars_in(expr.view()).to_set(),
{
    let mut all: Vec<String> = Vec::new();
    collect_variables(expr, &mut all);
    assert(strings_view(all@) =~= vars_in(expr.view()));
    sorted_unique(&all)
}


// ------------------------------------------------------------------
//  Laws
// ------------------------------------------------------------------

/// C-like precedence level of a binary operator, loosest first: `||`,
/// `&&`, `|`, `^`, `&`, equality, ordering, shifts, additive,
/// multiplicative.
pub open spec fn level(op: BinOp) -> int {
    match op {
        BinOp::Or => 0,
        BinOp::And => 1,
        BinOp::BitOr => 2,
        BinOp::BitXor => 3,
        BinOp::BitAnd => 4,
        BinOp::Eq | BinOp::NotEq => 5,
        BinOp::Lt | BinOp::Gt | BinOp::LtEq | BinOp::GtEq => 6,
        BinOp::ShiftLeft | BinOp::ShiftRight => 7,
        BinOp::Add | BinOp::Sub => 8,
        BinOp::Mul | BinOp::Div | BinOp::Mod => 9,
    }
}

/// The tokens of `x op1 y op2 z` for integer literals.
pub open spec fn three_operands(x: int, t1: TokenView, y: int, t2: TokenView, z: int) -> Seq<TokenView> {
    seq![TokenView::Int(x), t1, TokenView::Int(y), t2, TokenView::Int(z), TokenView::Eof]
}

/// A successful parse of `e` ending at `p`.
pub open spec fn parsed(e: ExprView, p: int) -> Result<(ExprView, int), ParseError> {
    Ok((e, p))
}

pub open spec fn int_lit(n: int) -> ExprView {
    ExprView::Literal(LiteralView::Int(n))
}

/// Parsing `x op1 y op2 z`: operators of the same level group to the
/// left, `(x op1 y) op2 z`; otherwise the tighter operator takes its
/// neighbours first.
pub proof fn law_binary_grouping(x: int, t1: TokenView, y: int, t2: TokenView, z: int)
    requires
        binop_of(t1) is Some,
        binop_of(t2) is Some,
    ensures
        ({
            let o1 = binop_of(t1)->Some_0;
            let o2 = binop_of(t2)->Some_0;
            let left = ExprView::Binary(
                o2,
                Box::new(ExprView::Binary(o1, Box::new(int_lit(x)), Box::new(int_lit(y)))),
                Box::new(int_lit(z)),
            );
            let right = ExprView::Binary(
                o1,
                Box::new(int_lit(x)),
                Box::new(ExprView::Binary(o2, Box::new(int_lit(y)), Box::new(int_lit(z)))),
            );
            &&& level(o1) >= level(o2) ==> parse_tokens(three_operands(x, t1, y, t2, z)) == Ok::<ExprView, ParseError>(left)
            &&& level(o1) < level(o2) ==> parse_tokens(three_operands(x, t1, y, t2, z)) == Ok::<ExprView, ParseError>(right)
        }),
{
    let ts = three_operands(x, t1, y, t2, z);
    let o1 = binop_of(t1)->Some_0;
    let o2 = binop_of(t2)->Some_0;
    let (l1, r1) = binding_power(o1);
    let (l2, r2) = binding_power(o2);
    assert(l1 == 2 * level(o1) + 2 && r1 == l1 + 1);
    assert(l2 == 2 * level(o2) + 2 && r2 == l2 + 1);
    assert(tok_at(ts, 0) == TokenView::Int(x));
    assert(tok_at(ts, 1) == t1);
    assert(tok_at(ts, 2) == TokenView::Int(y));
    assert(tok_at(ts, 3) == t2);
    assert(tok_at(ts, 4) == TokenView::Int(z));
    assert(tok_at(ts, 5) == TokenView::Eof);
    assert(binop_of(TokenView::Eof) is None);
    assert(parse_prefix(ts, 0) == parsed(int_lit(x), 1int));
    assert(parse_prefix(ts, 2) == parsed(int_lit(y), 3int));
    assert(parse_prefix(ts, 4) == parsed(int_lit(z), 5int));
    assert(parse_infix(ts, 5, int_lit(z), r2) == parsed(int_lit(z), 5int));
    assert(parse_bp(ts, 4, r2) == parsed(int_lit(z), 5int));
    let xy = ExprView::Binary(o1, Box::new(int_lit(x)), Box::new(int_lit(y)));
    let yz = ExprView::Binary(o2, Box::new(int_lit(y)), Box::new(int_lit(z)));
    if level(o1) >= level(o2) {
        assert(parse_infix(ts, 3, int_lit(y), r1) == parsed(int_lit(y), 3int));
        assert(parse_bp(ts, 2, r1) == parsed(int_lit(y), 3int));
        let left = ExprView::Binary(o2, Box::new(xy), Box::new(int_lit(z)));
        assert(parse_infix(ts, 5, left, 0) == parsed(left, 5int));
        assert(parse_infix(ts, 3, xy, 0) == parsed(left, 5int));
        assert(parse_infix(ts, 1, int_lit(x), 0) == parsed(left, 5int));
        assert(parse_bp(ts, 0, 0) == parsed(left, 5int));
    } else {
        assert(parse_infix(ts, 5, yz, r1) == parsed(yz, 5int));
        assert(parse_infix(ts, 3, int_lit(y), r1) == parsed(yz, 5int));
        assert(parse_bp(ts, 2, r1) == parsed(yz, 5int));
        let right = ExprView::Binary(o1, Box::new(int_lit(x)), Box::new(yz));
        assert(parse_infix(ts, 5, right, 0) == parsed(right, 5int));
        assert(parse_infix(ts, 1, int_lit(x), 0) == parsed(right, 5int));
        assert(parse_bp(ts, 0, 0) == parsed(right, 5int));
    }
}

/// The variables of a compound expression are those of its parts: a
/// prefix operator keeps its operand's, a binary operator and `IF` join
/// their operands' in reading order, a variable is itself and a literal
/// has none.
pub proof fn law_variables_of_parts(e: ExprView)
    ensures
        match e {
            ExprView::Literal(_) => vars_in(e).len() == 0,
            ExprView::Variable(n) => vars_in(e) == seq![n],
            ExprView::Unary(_, o) => vars_in(e) == vars_in(*o),
            ExprView::Binary(_, l, r) => vars_in(e) == vars_in(*l) + vars_in(*r),
            ExprView::If(c, t, f) => vars_in(e) == vars_in(*c) + vars_in(*t) + vars_in(*f),
        },
{
}

/// Every variable that occurs anywhere in an expression is among its
/// variables: whatever operators are put around an expression, its
/// variables stay.
pub proof fn law_variables_kept(op: UnaryOp, bop: BinOp, e: ExprView, other: ExprView, name: Seq<char>)
    requires
        vars_in(e).contains(name),
    ensures
        vars_in(ExprView::Unary(op, Box::new(e))).contains(name),
        vars_in(ExprView::Binary(bop, Box::new(e), Box::new(other))).contains(name),
        vars_in(ExprView::Binary(bop, Box::new(other), Box::new(e))).contains(name),
        vars_in(ExprView::If(Box::new(e), Box::new(other), Box::new(other))).contains(name),
        vars_in(ExprView::If(Box::new(other), Box::new(e), Box::new(other))).contains(name),
        vars_in(ExprView::If(Box::new(other), Box::new(other), Box::new(e))).contains(name),
        vars_in(ExprView::Variable(name)).contains(name),
{
    let k = choose|k: int| 0 <= k < vars_in(e).len() && vars_in(e)[k] == name;
    let a = vars_in(e);
    let b = vars_in(other);
    assert((a + b)[k] == name);
    assert((b + a)[b.len() + k] == name);
    assert((a + b + b)[k] == name);
    assert((b + a + b)[b.len() + k] == name);
    assert((b + b + a)[2 * b.len() + k] == name);
    assert(seq![name][0] == name);
}

} // verus!
