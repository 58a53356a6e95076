//! Expressions, and how literals are read from the text of their tokens.

use crate::parser::{
    accept, advanced, expect_step, noted, pass_on, reject, yields, Outcome, ParseResult, Parser,
    Progress, Step,
};
use crate::error::lemma_track_keeps_furthest;
use crate::text::{decimal, lemma_ascii_byte_boundaries, push_decimal};
use crate::token::{
    is_digit, is_quoted, read_run, run_end, ByteClass, TokenKind, TokenView, DOT, HYPHEN,
    PLUS_SIGN,
};
use vstd::prelude::*;
use vstd::string::*;
use vstd::utf8::*;

verus! {

/// An expression. Names and texts are borrowed from the input.
#[derive(Debug, PartialEq)]
pub enum Expr<'a> {
    /// Column reference
    Column(&'a str),
    /// Literal value
    Literal(Literal<'a>),
    /// Binary operation
    Binary { left: Box<Expr<'a>>, op: BinaryOp, right: Box<Expr<'a>> },
    /// Parenthesized expression
    Paren(Box<Expr<'a>>),
    /// Star (for SELECT *)
    Star,
}

/// A literal. A float keeps the text it was written with.
#[derive(Debug, PartialEq)]
pub enum Literal<'a> {
    Number(i64),
    Float(&'a str),
    String(&'a str),
}

impl<'a> Clone for Literal<'a> {
    fn clone(&self) -> (copy: Self)
        ensures
            copy == *self,
    {
        match self {
            Literal::Number(n) => Literal::Number(*n),
            Literal::Float(text) => Literal::Float(*text),
            Literal::String(text) => Literal::String(*text),
        }
    }
}

#[derive(Debug, Clone, Copy, PartialEq, Eq, Structural)]
pub enum BinaryOp {
    // Logical
    And,
    Or,
    // Comparison
    Equal,
    NotEqual,
    Less,
    Greater,
    LessEqual,
    GreaterEqual,
    // Arithmetic
    Plus,
    Minus,
    Multiply,
    Divide,
}

/// What a literal says.
pub enum LiteralView {
    Number(i64),
    Float(Seq<char>),
    String(Seq<char>),
}

/// What an expression says.
pub enum ExprView {
    Column(Seq<char>),
    Literal(LiteralView),
    Binary { left: Box<ExprView>, op: BinaryOp, right: Box<ExprView> },
    Paren(Box<ExprView>),
    Star,
}

impl<'a> View for Literal<'a> {
    type V = LiteralView;

    open spec fn view(&self) -> LiteralView {
        match self {
            Literal::Number(n) => LiteralView::Number(*n),
            Literal::Float(text) => LiteralView::Float(text@),
            Literal::String(text) => LiteralView::String(text@),
        }
    }
}

impl<'a> View for Expr<'a> {
    type V = ExprView;

    open spec fn view(&self) -> ExprView
        decreases self,
    {
        match self {
            Expr::Column(name) => ExprView::Column(name@),
            Expr::Literal(literal) => ExprView::Literal(literal@),
            Expr::Binary { left, op, right } => ExprView::Binary {
                left: Box::new((**left).view()),
                op: *op,
                right: Box::new((**right).view()),
            },
            Expr::Paren(inner) => ExprView::Paren(Box::new((**inner).view())),
            Expr::Star => ExprView::Star,
        }
    }
}

impl<'a> Clone for Expr<'a> {
    fn clone(&self) -> (copy: Self)
        ensures
            copy == *self,
        decreases self,
    {
        match self {
            Expr::Column(name) => Expr::Column(*name),
            Expr::Literal(literal) => Expr::Literal(literal.clone()),
            Expr::Binary { left, op, right } => Expr::Binary {
                left: Box::new((**left).clone()),
                op: *op,
                right: Box::new((**right).clone()),
            },
            Expr::Paren(inner) => Expr::Paren(Box::new((**inner).clone())),
            Expr::Star => Expr::Star,
        }
    }
}

/// The operator that a token of `kind` stands for.
pub open spec fn operator_of(kind: TokenKind) -> Option<BinaryOp> {
    match kind {
        TokenKind::And => Some(BinaryOp::And),
        TokenKind::Or => Some(BinaryOp::Or),
        TokenKind::Equal => Some(BinaryOp::Equal),
        TokenKind::NotEqual => Some(BinaryOp::NotEqual),
        TokenKind::Less => Some(BinaryOp::Less),
        TokenKind::Greater => Some(BinaryOp::Greater),
        TokenKind::LessEqual => Some(BinaryOp::LessEqual),
        TokenKind::GreaterEqual => Some(BinaryOp::GreaterEqual),
        TokenKind::Plus => Some(BinaryOp::Plus),
        TokenKind::Minus => Some(BinaryOp::Minus),
        TokenKind::Star => Some(BinaryOp::Multiply),
        TokenKind::Slash => Some(BinaryOp::Divide),
        _ => None,
    }
}

/// How tightly an operator binds; a greater number binds tighter.
pub open spec fn binding_of(op: BinaryOp) -> u8 {
    match op {
        BinaryOp::Or => 10,
        BinaryOp::And => 20,
        BinaryOp::Equal | BinaryOp::NotEqual => 30,
        BinaryOp::Less | BinaryOp::Greater | BinaryOp::LessEqual | BinaryOp::GreaterEqual => 40,
        BinaryOp::Plus | BinaryOp::Minus => 50,
        BinaryOp::Multiply | BinaryOp::Divide => 60,
    }
}

/// Binding power and associativity of the operator that a token of `kind`
/// stands for. Every operator associates to the left.
pub open spec fn precedence_of(kind: TokenKind) -> Option<(u8, bool)> {
    match operator_of(kind) {
        Some(op) => Some((binding_of(op), true)),
        None => None,
    }
}

impl BinaryOp {
    /// Convert token to binary operator
    pub fn from_token(token: TokenKind) -> (op: Option<Self>)
        ensures
            op == operator_of(token),
    {
        match token {
            TokenKind::And => Some(BinaryOp::And),
            TokenKind::Or => Some(BinaryOp::Or),
            TokenKind::Equal => Some(BinaryOp::Equal),
            TokenKind::NotEqual => Some(BinaryOp::NotEqual),
            TokenKind::Less => Some(BinaryOp::Less),
            TokenKind::Greater => Some(BinaryOp::Greater),
            TokenKind::LessEqual => Some(BinaryOp::LessEqual),
            TokenKind::GreaterEqual => Some(BinaryOp::GreaterEqual),
            TokenKind::Plus => Some(BinaryOp::Plus),
            TokenKind::Minus => Some(BinaryOp::Minus),
            TokenKind::Star => Some(BinaryOp::Multiply),
            TokenKind::Slash => Some(BinaryOp::Divide),
            _ => None,
        }
    }
}

/// Get operator precedence: binding power, and whether the operator
/// associates to the left.
pub fn get_precedence(token: TokenKind) -> (power: Option<(u8, bool)>)
    ensures
        power == precedence_of(token),
{
    match token {
        TokenKind::Or => Some((10, true)),
        TokenKind::And => Some((20, true)),
        TokenKind::Equal | TokenKind::NotEqual => Some((30, true)),
        TokenKind::Less | TokenKind::Greater | TokenKind::LessEqual | TokenKind::GreaterEqual => {
            Some((40, true))
        },
        TokenKind::Plus | TokenKind::Minus => Some((50, true)),
        TokenKind::Star | TokenKind::Slash => Some((60, true)),
        _ => None,
    }
}

/// What a byte counts as a digit; no other byte counts.
pub open spec fn digit_value(b: u8) -> nat {
    if is_digit(b) {
        (b - 0x30) as nat
    } else {
        0
    }
}

/// The number that a row of digits writes.
pub open spec fn digits_value(digits: Seq<u8>) -> nat
    decreases digits.len(),
{
    if digits.len() == 0 {
        0
    } else {
        digits_value(digits.drop_last()) * 10 + digit_value(digits.last())
    }
}

/// True if every byte is a decimal digit.
pub open spec fn all_digits(bytes: Seq<u8>) -> bool {
    forall|i: int| 0 <= i < bytes.len() ==> is_digit(#[trigger] bytes[i])
}

/// The integer that `text` writes: a sign or none, then digits and nothing
/// else. There is none where the number does not fit.
pub open spec fn integer_of(text: Seq<u8>) -> Option<i64> {
    let negative = text.len() > 0 && text[0] == HYPHEN;
    let signed = negative || (text.len() > 0 && text[0] == PLUS_SIGN);
    let digits = if signed {
        text.skip(1)
    } else {
        text
    };
    let value = if negative {
        -(digits_value(digits) as int)
    } else {
        digits_value(digits) as int
    };
    if digits.len() > 0 && all_digits(digits) && i64::MIN <= value <= i64::MAX {
        Some(value as i64)
    } else {
        None
    }
}

/// The first digits of a row write no more than the whole row.
proof fn lemma_digits_grow(digits: Seq<u8>, k: int)
    requires
        0 <= k <= digits.len(),
    ensures
        digits_value(digits.take(k)) <= digits_value(digits),
    decreases digits.len() - k,
{
    if k < digits.len() {
        lemma_digits_grow(digits, k + 1);
        assert(digits.take(k + 1).drop_last() =~= digits.take(k));
    } else {
        assert(digits.take(k) =~= digits);
    }
}

/// Reads an integer as `integer_of` describes it.
pub fn parse_integer(text: &str) -> (value: Option<i64>)
    ensures
        value == integer_of(text.spec_bytes()),
{
    let bytes = text.as_bytes();
    let len = bytes.len();
    if len == 0 {
        return None;
    }
    let negative = bytes[0] == HYPHEN;
    let first: usize = if negative || bytes[0] == PLUS_SIGN {
        1
    } else {
        0
    };
    if first == len {
        return None;
    }
    let ghost digits = bytes@.skip(first as int);
    assert(bytes@.skip(0) =~= bytes@);
    let limit: u64 = if negative {
        0x8000_0000_0000_0000
    } else {
        0x7fff_ffff_ffff_ffff
    };
    let mut total: u64 = 0;
    let mut i: usize = first;
    assert(digits.take(0) =~= Seq::<u8>::empty());
    while i < len
        invariant
            first <= i <= len,
            0 < len == bytes@.len(),
            bytes@ == text.spec_bytes(),
            bytes@.skip(0) == bytes@,
            negative == (bytes@[0] == HYPHEN),
            first == 1 <==> (bytes@[0] == HYPHEN || bytes@[0] == PLUS_SIGN),
            first <= 1,
            digits == bytes@.skip(first as int),
            limit == if negative {
                0x8000_0000_0000_0000u64
            } else {
                0x7fff_ffff_ffff_ffffu64
            },
            total == digits_value(digits.take(i - first)),
            total <= limit,
            forall|j: int| 0 <= j < i - first ==> is_digit(#[trigger] digits[j]),
        decreases len - i,
    {
        let b = bytes[i];
        assert(digits[i - first] == b);
        if !(0x30 <= b && b <= 0x39) {
            assert(!all_digits(digits));
            return None;
        }
        let d: u64 = (b - 0x30) as u64;
        assert(digits.take(i - first + 1).drop_last() =~= digits.take(i - first));
        if total > (limit - d) / 10 {
            proof {
                lemma_digits_grow(digits, i - first + 1);
                assert(digits_value(digits.take(i - first + 1)) == total * 10 + d);
                assert(digits_value(digits) > limit);
            }
            return None;
        }
        total = total * 10 + d;
        i = i + 1;
    }
    assert(digits.take(i - first) =~= digits);
    if negative {
        if total == 0x8000_0000_0000_0000 {
            Some(i64::MIN)
        } else {
            Some(0 - (total as i64))
        }
    } else {
        Some(total as i64)
    }
}

/// True if `text` writes a number with a fraction: a minus sign or none,
/// digits, a dot, digits, and nothing else.
pub open spec fn is_decimal(text: Seq<u8>) -> bool {
    let first: int = if text.len() > 0 && text[0] == HYPHEN {
        1
    } else {
        0
    };
    let dot = run_end(text, first, ByteClass::Digit);
    &&& first < dot < text.len()
    &&& text[dot] == DOT
    &&& dot + 1 < run_end(text, dot + 1, ByteClass::Digit)
    &&& run_end(text, dot + 1, ByteClass::Digit) == text.len()
}

/// Says whether `text` writes a number with a fraction.
pub fn check_decimal(text: &str) -> (r: bool)
    ensures
        r == is_decimal(text.spec_bytes()),
{
    let bytes = text.as_bytes();
    let len = bytes.len();
    let first: usize = if len > 0 && bytes[0] == HYPHEN {
        1
    } else {
        0
    };
    let dot = read_run(bytes, first, ByteClass::Digit);
    if !(first < dot && dot < len && bytes[dot] == DOT) {
        return false;
    }
    let end = read_run(bytes, dot + 1, ByteClass::Digit);
    dot + 1 < end && end == len
}

/// What stands between the first and the last byte of `text`.
pub open spec fn unquoted(text: Seq<char>) -> Seq<char> {
    let bytes = encode_utf8(text);
    decode_utf8(bytes.subrange(1, bytes.len() - 1))
}

/// The text of a string token without its quotes.
pub fn strip_quotes<'a>(text: &'a str) -> (inner: &'a str)
    requires
        is_quoted(text.spec_bytes()),
    ensures
        inner@ == unquoted(text@),
{
    let len = text.len();
    proof {
        encode_utf8_valid_utf8(text@);
        lemma_ascii_byte_boundaries(text.spec_bytes(), text.spec_bytes().len() - 1);
    }
    let bytes = text.as_bytes();
    let (head, _) = text.split_at(bytes.len() - 1);
    proof {
        encode_utf8_valid_utf8(head@);
        assert(head.spec_bytes()[0] == text.spec_bytes()[0]);
        lemma_ascii_byte_boundaries(head.spec_bytes(), 0);
    }
    let (_, inner) = head.split_at(1);
    proof {
        assert(inner.spec_bytes() =~= text.spec_bytes().subrange(
            1,
            text.spec_bytes().len() - 1,
        ));
        encode_utf8_decode_utf8(inner@);
    }
    inner
}

/// The expression that an operator token makes of the expressions around
/// it.
pub open spec fn combined(left: ExprView, kind: TokenKind, right: ExprView) -> ExprView {
    match operator_of(kind) {
        Some(op) => ExprView::Binary { left: Box::new(left), op, right: Box::new(right) },
        None => left,
    }
}

/// A rule that ends with a message of its own.
pub open spec fn reject_with<T>(note: Seq<char>, after: Progress) -> Step<T> {
    Step { outcome: Outcome::RejectedWith(note), after }
}

/// The rule for a primary term: a literal, a column, a star, or an
/// expression in parentheses. Any other token is reported to the tracker as
/// standing where an expression was expected, and the diagnostic is the one
/// for the furthest failure. A number that does not fit, and a float that is
/// not written as one, is reported at its token, which is taken all the
/// same; the diagnostic then says what is wrong with the literal.
pub open spec fn primary_step(toks: Seq<TokenView>, input: Seq<char>, at: Progress) -> Step<
    ExprView,
>
    decreases toks.len() - at.pos, 0nat,
{
    let token = toks[at.pos as int];
    let next = advanced(toks, at);
    match token.kind {
        TokenKind::Number => match integer_of(encode_utf8(token.text)) {
            Some(n) => accept(ExprView::Literal(LiteralView::Number(n)), next),
            None => reject_with(
                "Invalid number"@,
                advanced(toks, noted(toks, input, at, "number"@)),
            ),
        },
        TokenKind::Float => if is_decimal(encode_utf8(token.text)) {
            accept(ExprView::Literal(LiteralView::Float(token.text)), next)
        } else {
            reject_with("Invalid float"@, advanced(toks, noted(toks, input, at, "float"@)))
        },
        TokenKind::String => accept(
            ExprView::Literal(LiteralView::String(unquoted(token.text))),
            next,
        ),
        TokenKind::Identifier => accept(ExprView::Column(token.text), next),
        TokenKind::Star => accept(ExprView::Star, next),
        TokenKind::LeftParen => {
            if at.pos < next.pos < toks.len() {
                let inner = expr_step(toks, input, next, 0);
                match inner.outcome {
                    Outcome::Accepted(e) => {
                        let close = expect_step(toks, input, inner.after, TokenKind::RightParen);
                        match close.outcome {
                            Outcome::Accepted(_) => accept(
                                ExprView::Paren(Box::new(e)),
                                close.after,
                            ),
                            _ => pass_on(close),
                        }
                    },
                    _ => inner,
                }
            } else {
                reject(at)
            }
        },
        _ => reject(noted(toks, input, at, "expression"@)),
    }
}

/// The rule for an expression whose operators all bind with `min_prec` or
/// more: a primary term, and then as many operators with their right sides
/// as bind that tightly.
pub open spec fn expr_step(toks: Seq<TokenView>, input: Seq<char>, at: Progress, min_prec: nat)
    -> Step<ExprView>
    decreases toks.len() - at.pos, 2nat,
{
    if at.pos >= toks.len() {
        reject(at)
    } else {
        let first = primary_step(toks, input, at);
        match first.outcome {
            Outcome::Accepted(left) => {
                if at.pos <= first.after.pos < toks.len() {
                    tail_step(toks, input, first.after, left, min_prec)
                } else {
                    reject(first.after)
                }
            },
            _ => first,
        }
    }
}

/// The rule for what follows the left side `left`: an operator that binds
/// with `min_prec` or more takes as its right side an expression whose
/// operators bind tighter than itself, and what the two make is the left
/// side of what follows. Any other token ends the expression.
pub open spec fn tail_step(
    toks: Seq<TokenView>,
    input: Seq<char>,
    at: Progress,
    left: ExprView,
    min_prec: nat,
) -> Step<ExprView>
    decreases toks.len() - at.pos, 1nat,
{
    let token = toks[at.pos as int];
    let next = advanced(toks, at);
    match precedence_of(token.kind) {
        Some((prec, left_assoc)) => {
            if prec >= min_prec && at.pos < next.pos < toks.len() {
                let right = expr_step(
                    toks,
                    input,
                    next,
                    if left_assoc {
                        (prec + 1) as nat
                    } else {
                        prec as nat
                    },
                );
                match right.outcome {
                    Outcome::Accepted(r) => {
                        if next.pos <= right.after.pos < toks.len() {
                            tail_step(
                                toks,
                                input,
                                right.after,
                                combined(left, token.kind, r),
                                min_prec,
                            )
                        } else {
                            reject(right.after)
                        }
                    },
                    _ => right,
                }
            } else {
                accept(left, at)
            }
        },
        None => accept(left, at),
    }
}

impl<'a> Parser<'a> {
    /// What `parse_expr` does when only operators count that bind with
    /// `min_prec` or more.
    pub open spec fn expr_step(&self, min_prec: nat) -> Step<ExprView> {
        expr_step(self.stream(), self.source(), self.progress(), min_prec)
    }

    /// What the rule for a primary term does.
    pub open spec fn primary_step(&self) -> Step<ExprView> {
        primary_step(self.stream(), self.source(), self.progress())
    }

    /// The number of tokens from the one at hand on.
    pub open spec fn tokens_left(&self) -> nat {
        (self.stream().len() - self.progress().pos) as nat
    }

    /// Parse an expression using precedence climbing
    pub fn parse_expr(&mut self) -> (result: ParseResult<Expr<'a>>)
        requires
            old(self).wf(),
        ensures
            final(self).follows(old(self), old(self).expr_step(0).after),
            yields(result, old(self).expr_step(0), old(self).source()),
            result matches Ok(e) ==> old(self).expr_step(0).outcome == Outcome::Accepted(e@),
            result matches Ok(e) ==> is_grouped(e@) && expr_kinds(e@) == kinds_between(
                old(self).stream(),
                old(self).progress().pos,
                final(self).progress().pos,
            ),
            result is Ok ==> final(self).is_past(old(self)),
        decreases old(self).tokens_left(), 3nat,
    {
        proof {
            lemma_expr_grouped(self.stream(), self.source(), self.progress(), 0);
            lemma_expr_reads_back(self.stream(), self.source(), self.progress(), 0);
        }
        self.parse_expr_with_precedence(0)
    }

    /// Parse expression with minimum precedence
    fn parse_expr_with_precedence(&mut self, min_prec: u8) -> (result: ParseResult<Expr<'a>>)
        requires
            old(self).wf(),
        ensures
            final(self).follows(old(self), old(self).expr_step(min_prec as nat).after),
            yields(result, old(self).expr_step(min_prec as nat), old(self).source()),
            result matches Ok(e) ==> old(self).expr_step(min_prec as nat).outcome
                == Outcome::Accepted(e@),
            result is Ok ==> final(self).is_past(old(self)),
        decreases old(self).tokens_left(), 2nat,
    {
        let mut left = match self.parse_primary() {
            Ok(e) => e,
            Err(error) => {
                return Err(error);
            },
        };
        loop
            invariant
                self.wf(),
                self.stream() == old(self).stream(),
                self.source() == old(self).source(),
                self.is_past(old(self)),
                old(self).expr_step(min_prec as nat) == tail_step(
                    self.stream(),
                    self.source(),
                    self.progress(),
                    left@,
                    min_prec as nat,
                ),
            decreases self.tokens_left(),
        {
            let token = self.peek();
            match get_precedence(token.kind) {
                Some((prec, is_left)) => {
                    if prec < min_prec {
                        return Ok(left);
                    }
                    let op_kind = token.kind;
                    self.advance();
                    let next_min_prec = if is_left {
                        prec + 1
                    } else {
                        prec
                    };
                    let right = match self.parse_expr_with_precedence(next_min_prec) {
                        Ok(e) => e,
                        Err(error) => {
                            return Err(error);
                        },
                    };
                    if let Some(op) = BinaryOp::from_token(op_kind) {
                        left = Expr::Binary { left: Box::new(left), op, right: Box::new(right) };
                    }
                },
                None => {
                    return Ok(left);
                },
            }
        }
    }

    /// Parse primary expression
    fn parse_primary(&mut self) -> (result: ParseResult<Expr<'a>>)
        requires
            old(self).wf(),
        ensures
            final(self).follows(old(self), old(self).primary_step().after),
            yields(result, old(self).primary_step(), old(self).source()),
            result matches Ok(e) ==> old(self).primary_step().outcome == Outcome::Accepted(e@),
            result is Ok ==> final(self).is_past(old(self)),
        decreases old(self).tokens_left(), 0nat,
    {
        let token = self.peek();
        match token.kind {
            TokenKind::Number => {
                match parse_integer(token.text) {
                    Some(n) => {
                        self.advance();
                        Ok(Expr::Literal(Literal::Number(n)))
                    },
                    None => {
                        self.note("number");
                        self.advance();
                        Err(self.error_at_current("Invalid number"))
                    },
                }
            },
            TokenKind::Float => {
                if check_decimal(token.text) {
                    self.advance();
                    Ok(Expr::Literal(Literal::Float(token.text)))
                } else {
                    self.note("float");
                    self.advance();
                    Err(self.error_at_current("Invalid float"))
                }
            },
            TokenKind::String => {
                let text = token.text;
                self.advance();
                // Remove quotes
                Ok(Expr::Literal(Literal::String(strip_quotes(text))))
            },
            TokenKind::Identifier => {
                let text = token.text;
                self.advance();
                Ok(Expr::Column(text))
            },
            TokenKind::Star => {
                self.advance();
                Ok(Expr::Star)
            },
            TokenKind::LeftParen => {
                self.advance();
                let expr = match self.parse_expr() {
                    Ok(e) => e,
                    Err(error) => {
                        return Err(error);
                    },
                };
                match self.expect(TokenKind::RightParen) {
                    Ok(_) => Ok(Expr::Paren(Box::new(expr))),
                    Err(error) => Err(error),
                }
            },
            _ => {
                self.note("expression");
                Err(self.report())
            },
        }
    }
}

/// How an operator is written.
pub open spec fn op_text(op: BinaryOp) -> Seq<char> {
    match op {
        BinaryOp::And => "AND"@,
        BinaryOp::Or => "OR"@,
        BinaryOp::Equal => "="@,
        BinaryOp::NotEqual => "!="@,
        BinaryOp::Less => "<"@,
        BinaryOp::Greater => ">"@,
        BinaryOp::LessEqual => "<="@,
        BinaryOp::GreaterEqual => ">="@,
        BinaryOp::Plus => "+"@,
        BinaryOp::Minus => "-"@,
        BinaryOp::Multiply => "*"@,
        BinaryOp::Divide => "/"@,
    }
}

/// How an integer is written: in decimal, with a minus sign if it is below
/// zero.
pub open spec fn integer_text(n: int) -> Seq<char> {
    if n < 0 {
        "-"@ + decimal((-n) as nat)
    } else {
        decimal(n as nat)
    }
}

/// How a literal is written. A string stands between quotes, a float as it
/// was read.
pub open spec fn literal_text(literal: LiteralView) -> Seq<char> {
    match literal {
        LiteralView::Number(n) => integer_text(n as int),
        LiteralView::Float(text) => text,
        LiteralView::String(text) => "'"@ + text + "'"@,
    }
}

/// How an expression is written. Every operation stands in parentheses, so
/// the text shows how the expression was grouped.
pub open spec fn expr_text(expr: ExprView) -> Seq<char>
    decreases expr,
{
    match expr {
        ExprView::Column(name) => name,
        ExprView::Literal(literal) => literal_text(literal),
        ExprView::Binary { left, op, right } => "("@ + expr_text(*left) + " "@ + op_text(op) + " "@
            + expr_text(*right) + ")"@,
        ExprView::Paren(inner) => "("@ + expr_text(*inner) + ")"@,
        ExprView::Star => "*"@,
    }
}

impl BinaryOp {
    /// The operator as it is written.
    pub fn symbol(&self) -> (text: &'static str)
        ensures
            text@ == op_text(*self),
    {
        match self {
            BinaryOp::And => "AND",
            BinaryOp::Or => "OR",
            BinaryOp::Equal => "=",
            BinaryOp::NotEqual => "!=",
            BinaryOp::Less => "<",
            BinaryOp::Greater => ">",
            BinaryOp::LessEqual => "<=",
            BinaryOp::GreaterEqual => ">=",
            BinaryOp::Plus => "+",
            BinaryOp::Minus => "-",
            BinaryOp::Multiply => "*",
            BinaryOp::Divide => "/",
        }
    }

    /// The operator written out.
    pub fn to_string(&self) -> (text: String)
        ensures
            text@ == op_text(*self),
    {
        self.symbol().to_owned()
    }
}

impl<'a> Literal<'a> {
    /// Writes the literal at the end of `out`.
    pub fn write_to(&self, out: &mut String)
        ensures
            final(out)@ == old(out)@ + literal_text(self@),
    {
        match self {
            Literal::Number(n) => {
                if *n < 0 {
                    out.append("-");
                    let size: u64 = if *n == i64::MIN {
                        0x8000_0000_0000_0000
                    } else {
                        (0 - *n) as u64
                    };
                    push_decimal(out, size);
                } else {
                    push_decimal(out, *n as u64);
                }
                assert(out@ =~= old(out)@ + literal_text(self@));
            },
            Literal::Float(text) => {
                out.append(text);
            },
            Literal::String(text) => {
                out.append("'");
                out.append(text);
                out.append("'");
                assert(out@ =~= old(out)@ + literal_text(self@));
            },
        }
    }

    /// The literal written out.
    pub fn to_string(&self) -> (text: String)
        ensures
            text@ == literal_text(self@),
    {
        let mut text = String::new();
        self.write_to(&mut text);
        assert(text@ =~= literal_text(self@));
        text
    }
}

impl<'a> Expr<'a> {
    /// Writes the expression at the end of `out`.
    pub fn write_to(&self, out: &mut String)
        ensures
            final(out)@ == old(out)@ + expr_text(self@),
        decreases self,
    {
        match self {
            Expr::Column(name) => {
                out.append(name);
            },
            Expr::Literal(literal) => {
                literal.write_to(out);
            },
            Expr::Binary { left, op, right } => {
                out.append("(");
                left.write_to(out);
                out.append(" ");
                out.append(op.symbol());
                out.append(" ");
                right.write_to(out);
                out.append(")");
                assert(out@ =~= old(out)@ + expr_text(self@));
            },
            Expr::Paren(inner) => {
                out.append("(");
                inner.write_to(out);
                out.append(")");
                assert(out@ =~= old(out)@ + expr_text(self@));
            },
            Expr::Star => {
                out.append("*");
            },
        }
    }

    /// The expression written out.
    pub fn to_string(&self) -> (text: String)
        ensures
            text@ == expr_text(self@),
    {
        let mut text = String::new();
        self.write_to(&mut text);
        assert(text@ =~= expr_text(self@));
        text
    }
}

/// How tightly the outermost operation of an expression binds. Anything
/// but an operation holds together by itself.
pub open spec fn tightness(expr: ExprView) -> nat {
    match expr {
        ExprView::Binary { op, .. } => binding_of(op) as nat,
        _ => 255,
    }
}

/// True if every operation in `expr` is grouped as the binding powers ask:
/// what stands to the left of an operator binds at least as tightly as the
/// operator, and what stands to its right binds tighter, here and in every
/// part.
pub open spec fn is_grouped(expr: ExprView) -> bool
    decreases expr,
{
    match expr {
        ExprView::Binary { left, op, right } => {
            &&& is_grouped(*left)
            &&& is_grouped(*right)
            &&& tightness(*left) >= binding_of(op)
            &&& tightness(*right) > binding_of(op)
        },
        ExprView::Paren(inner) => is_grouped(*inner),
        _ => true,
    }
}

/// True if the token at hand is no operator that binds with `min_prec` or
/// more.
pub open spec fn ends_expr(toks: Seq<TokenView>, at: Progress, min_prec: nat) -> bool {
    match precedence_of(toks[at.pos as int].kind) {
        Some((prec, _)) => prec < min_prec,
        None => true,
    }
}

/// A primary term holds together by itself, and what it has in parentheses
/// is grouped as the binding powers ask.
proof fn lemma_primary_grouped(toks: Seq<TokenView>, input: Seq<char>, at: Progress)
    requires
        at.pos < toks.len(),
        toks.last().kind == TokenKind::Eof,
    ensures
        primary_step(toks, input, at).outcome matches Outcome::Accepted(e) ==> is_grouped(e)
            && tightness(e) == 255,
    decreases toks.len() - at.pos, 0nat,
{
    let next = advanced(toks, at);
    if toks[at.pos as int].kind == TokenKind::LeftParen && at.pos < next.pos < toks.len() {
        lemma_expr_grouped(toks, input, next, 0);
    }
}

/// An expression that the parser accepts is grouped as the binding powers
/// ask: tighter operators lie deeper, and operators of one binding power
/// lean to the left. Its outermost operation binds with `min_prec` or more,
/// and no operator that binds so tightly follows it.
pub proof fn lemma_expr_grouped(toks: Seq<TokenView>, input: Seq<char>, at: Progress, min_prec: nat)
    requires
        at.pos < toks.len(),
        toks.last().kind == TokenKind::Eof,
        min_prec <= 255,
    ensures
        expr_step(toks, input, at, min_prec).outcome matches Outcome::Accepted(e) ==> {
            &&& is_grouped(e)
            &&& tightness(e) >= min_prec
            &&& ends_expr(toks, expr_step(toks, input, at, min_prec).after, min_prec)
        },
    decreases toks.len() - at.pos, 2nat,
{
    let first = primary_step(toks, input, at);
    lemma_primary_grouped(toks, input, at);
    match first.outcome {
        Outcome::Accepted(left) => {
            if at.pos <= first.after.pos < toks.len() {
                lemma_tail_grouped(toks, input, first.after, left, min_prec);
            }
        },
        _ => {},
    }
}

/// What holds of an expression holds of it with all that follows its left
/// side, as long as no operator follows the left side that binds tighter
/// than the left side holds together.
proof fn lemma_tail_grouped(
    toks: Seq<TokenView>,
    input: Seq<char>,
    at: Progress,
    left: ExprView,
    min_prec: nat,
)
    requires
        at.pos < toks.len(),
        toks.last().kind == TokenKind::Eof,
        min_prec <= 255,
        is_grouped(left),
        tightness(left) >= min_prec,
        ends_expr(toks, at, tightness(left) + 1),
    ensures
        tail_step(toks, input, at, left, min_prec).outcome matches Outcome::Accepted(e) ==> {
            &&& is_grouped(e)
            &&& tightness(e) >= min_prec
            &&& ends_expr(toks, tail_step(toks, input, at, left, min_prec).after, min_prec)
        },
    decreases toks.len() - at.pos, 1nat,
{
    let token = toks[at.pos as int];
    let next = advanced(toks, at);
    match precedence_of(token.kind) {
        Some((prec, left_assoc)) => {
            if prec >= min_prec && at.pos < next.pos < toks.len() {
                let bound = (prec + 1) as nat;
                lemma_expr_grouped(toks, input, next, bound);
                let right = expr_step(toks, input, next, bound);
                match right.outcome {
                    Outcome::Accepted(r) => {
                        if next.pos <= right.after.pos < toks.len() {
                            let joined = combined(left, token.kind, r);
                            assert(is_grouped(joined));
                            assert(tightness(joined) == prec);
                            lemma_tail_grouped(toks, input, right.after, joined, min_prec);
                        }
                    },
                    _ => {},
                }
            } else if prec >= min_prec {
                assert(at.pos + 1 == toks.len());
                assert(token == toks.last());
            }
        },
        None => {},
    }
}

/// The kind of token that writes an operator.
pub open spec fn operator_kind(op: BinaryOp) -> TokenKind {
    match op {
        BinaryOp::And => TokenKind::And,
        BinaryOp::Or => TokenKind::Or,
        BinaryOp::Equal => TokenKind::Equal,
        BinaryOp::NotEqual => TokenKind::NotEqual,
        BinaryOp::Less => TokenKind::Less,
        BinaryOp::Greater => TokenKind::Greater,
        BinaryOp::LessEqual => TokenKind::LessEqual,
        BinaryOp::GreaterEqual => TokenKind::GreaterEqual,
        BinaryOp::Plus => TokenKind::Plus,
        BinaryOp::Minus => TokenKind::Minus,
        BinaryOp::Multiply => TokenKind::Star,
        BinaryOp::Divide => TokenKind::Slash,
    }
}

/// The kinds of the tokens that write an expression, from left to right.
pub open spec fn expr_kinds(expr: ExprView) -> Seq<TokenKind>
    decreases expr,
{
    match expr {
        ExprView::Column(_) => seq![TokenKind::Identifier],
        ExprView::Literal(LiteralView::Number(_)) => seq![TokenKind::Number],
        ExprView::Literal(LiteralView::Float(_)) => seq![TokenKind::Float],
        ExprView::Literal(LiteralView::String(_)) => seq![TokenKind::String],
        ExprView::Binary { left, op, right } => expr_kinds(*left) + seq![operator_kind(op)]
            + expr_kinds(*right),
        ExprView::Paren(inner) => seq![TokenKind::LeftParen] + expr_kinds(*inner)
            + seq![TokenKind::RightParen],
        ExprView::Star => seq![TokenKind::Star],
    }
}

/// The kinds of the tokens from the index `from` up to the index `to`.
pub open spec fn kinds_between(toks: Seq<TokenView>, from: nat, to: nat) -> Seq<TokenKind> {
    Seq::new((to - from) as nat, |i: int| toks[from + i].kind)
}

/// A primary term that the parser accepts is written by the tokens that the
/// parser has taken for it.
proof fn lemma_primary_reads_back(toks: Seq<TokenView>, input: Seq<char>, at: Progress)
    requires
        at.pos < toks.len(),
        toks.last().kind == TokenKind::Eof,
    ensures
        primary_step(toks, input, at).outcome matches Outcome::Accepted(e) ==> {
            let after = primary_step(toks, input, at).after;
            &&& at.pos < after.pos < toks.len()
            &&& expr_kinds(e) == kinds_between(toks, at.pos, after.pos)
        },
    decreases toks.len() - at.pos, 0nat,
{
    let step = primary_step(toks, input, at);
    let token = toks[at.pos as int];
    let next = advanced(toks, at);
    match step.outcome {
        Outcome::Accepted(e) => {
            assert(token.kind != TokenKind::Eof);
            assert(next.pos == at.pos + 1);
            if token.kind == TokenKind::LeftParen {
                lemma_expr_reads_back(toks, input, next, 0);
                let inner = expr_step(toks, input, next, 0);
                let close = expect_step(toks, input, inner.after, TokenKind::RightParen);
                assert(toks[inner.after.pos as int].kind == TokenKind::RightParen);
                assert(close.after.pos == inner.after.pos + 1);
                assert(expr_kinds(e) =~= kinds_between(toks, at.pos, step.after.pos));
            } else {
                assert(expr_kinds(e) =~= kinds_between(toks, at.pos, step.after.pos));
            }
        },
        _ => {},
    }
}

/// An expression that the parser accepts is written by the tokens that the
/// parser has taken for it, in their order: nothing is left out, and nothing
/// is read twice.
pub proof fn lemma_expr_reads_back(
    toks: Seq<TokenView>,
    input: Seq<char>,
    at: Progress,
    min_prec: nat,
)
    requires
        at.pos < toks.len(),
        toks.last().kind == TokenKind::Eof,
    ensures
        expr_step(toks, input, at, min_prec).outcome matches Outcome::Accepted(e) ==> {
            let after = expr_step(toks, input, at, min_prec).after;
            &&& at.pos < after.pos < toks.len()
            &&& expr_kinds(e) == kinds_between(toks, at.pos, after.pos)
        },
    decreases toks.len() - at.pos, 2nat,
{
    let first = primary_step(toks, input, at);
    lemma_primary_reads_back(toks, input, at);
    match first.outcome {
        Outcome::Accepted(left) => {
            lemma_tail_reads_back(toks, input, first.after, left, min_prec, at.pos);
        },
        _ => {},
    }
}

/// What the tokens from `start` on write stays what the parser accepts
/// when it reads on behind the left side.
proof fn lemma_tail_reads_back(
    toks: Seq<TokenView>,
    input: Seq<char>,
    at: Progress,
    left: ExprView,
    min_prec: nat,
    start: nat,
)
    requires
        start < at.pos < toks.len(),
        toks.last().kind == TokenKind::Eof,
        expr_kinds(left) == kinds_between(toks, start, at.pos),
    ensures
        tail_step(toks, input, at, left, min_prec).outcome matches Outcome::Accepted(e) ==> {
            let after = tail_step(toks, input, at, left, min_prec).after;
            &&& at.pos <= after.pos < toks.len()
            &&& expr_kinds(e) == kinds_between(toks, start, after.pos)
        },
    decreases toks.len() - at.pos, 1nat,
{
    let token = toks[at.pos as int];
    let next = advanced(toks, at);
    match precedence_of(token.kind) {
        Some((prec, left_assoc)) => {
            if prec >= min_prec && at.pos < next.pos < toks.len() {
                let bound = (prec + 1) as nat;
                lemma_expr_reads_back(toks, input, next, bound);
                let right = expr_step(toks, input, next, bound);
                match right.outcome {
                    Outcome::Accepted(r) => {
                        let joined = combined(left, token.kind, r);
                        assert(operator_kind(operator_of(token.kind).unwrap()) == token.kind);
                        assert(expr_kinds(joined) =~= kinds_between(
                            toks,
                            start,
                            right.after.pos,
                        ));
                        lemma_tail_reads_back(toks, input, right.after, joined, min_prec, start);
                    },
                    _ => {},
                }
            }
        },
        None => {},
    }
}

/// True if a primary term may begin with a token of `kind`.
pub open spec fn starts_term(kind: TokenKind) -> bool {
    kind == TokenKind::Number || kind == TokenKind::Float || kind == TokenKind::String || kind
        == TokenKind::Identifier || kind == TokenKind::Star || kind == TokenKind::LeftParen
}

/// Where an expression is required and a token stands with which none
/// begins, the end mark among them, the failure is reported to the tracker
/// at that token: the expression is rejected, the parser stays where it is,
/// and the furthest failure lies at the token or further on.
pub proof fn lemma_missing_term_is_reported(
    toks: Seq<TokenView>,
    input: Seq<char>,
    at: Progress,
    min_prec: nat,
)
    requires
        at.pos < toks.len(),
        !starts_term(toks[at.pos as int].kind),
    ensures
        primary_step(toks, input, at) == reject::<ExprView>(
            noted(toks, input, at, "expression"@),
        ),
        expr_step(toks, input, at, min_prec) == primary_step(toks, input, at),
        noted(toks, input, at, "expression"@).pos == at.pos,
        noted(toks, input, at, "expression"@).trace matches Some(failure) && failure.pos
            >= toks[at.pos as int].start,
{
    let token = toks[at.pos as int];
    lemma_track_keeps_furthest(at.trace, token.start, "expression"@, Some(token.text), input);
}

/// A number that does not fit, and a float that is not written as one, is
/// reported to the tracker at its token: the literal is rejected, and the
/// furthest failure lies at the token or further on.
pub proof fn lemma_bad_literal_is_reported(toks: Seq<TokenView>, input: Seq<char>, at: Progress)
    requires
        at.pos < toks.len(),
        (toks[at.pos as int].kind == TokenKind::Number && integer_of(
            encode_utf8(toks[at.pos as int].text),
        ) is None) || (toks[at.pos as int].kind == TokenKind::Float && !is_decimal(
            encode_utf8(toks[at.pos as int].text),
        )),
    ensures
        primary_step(toks, input, at).outcome is RejectedWith,
        primary_step(toks, input, at).after.trace matches Some(failure) && failure.pos
            >= toks[at.pos as int].start,
{
    let token = toks[at.pos as int];
    lemma_track_keeps_furthest(at.trace, token.start, "number"@, Some(token.text), input);
    lemma_track_keeps_furthest(at.trace, token.start, "float"@, Some(token.text), input);
}

} // verus!
