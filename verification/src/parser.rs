//! The parser: recursive descent over a fixed token sequence, with two
//! precedence tiers. Both tiers are right-associative — the additive and
//! multiplicative rules recurse into themselves on the right-hand side, so
//! `1 - 2 - 3` parses as `1 - (2 - 3)` — a quirk of this grammar that
//! downstream consumers may depend on, kept deliberately. The grammar is
//! specified by the recursive functions below over token models; parsing
//! either yields the one expression tree they describe or fails with the
//! error they name, never a partial tree.

use vstd::prelude::*;

use crate::ast::Ast;
use crate::ast::AstModel;
use crate::ast::BinaryOp;
use crate::ast::Expr;
use crate::ast::ExprModel;
use crate::ast::Stmt;
use crate::ast::StmtModel;
use crate::ast::ast_model;
use crate::ast::expr_model;
use crate::ast::stmt_model;
use crate::chars::is_digit_char;
use crate::chars::str_eq;
use crate::lexer::models_of;
use crate::token::Token;
use crate::token::TokenKind;
use crate::token::TokenModel;

verus! {

/// The number denoted by a digit string, most significant digit first.
pub open spec fn digits_val(s: Seq<char>) -> int
    decreases s.len(),
{
    if s.len() == 0 {
        0
    } else {
        digits_val(s.drop_last()) * 10 + (s.last() as int - 48)
    }
}

pub open spec fn all_digits(s: Seq<char>) -> bool {
    forall|i: int| 0 <= i < s.len() ==> is_digit_char(s[i])
}

/// The value a 64-bit signed integer literal denotes: an optional sign, then
/// one or more digits, in range; `None` on any other text, exactly as the
/// standard library's integer parsing accepts or rejects it.
pub open spec fn int_lit_val(s: Seq<char>) -> Option<int> {
    if s.len() == 0 {
        None
    } else {
        let neg = s[0] == '-';
        let ds = if s[0] == '-' || s[0] == '+' {
            s.subrange(1, s.len() as int)
        } else {
            s
        };
        if ds.len() == 0 || !all_digits(ds) {
            None
        } else {
            let v = if neg {
                -digits_val(ds)
            } else {
                digits_val(ds)
            };
            if i64::MIN <= v <= i64::MAX {
                Some(v)
            } else {
                None
            }
        }
    }
}

/// Reads a 64-bit signed integer from its decimal text, rejecting any text
/// the grammar above rejects and any value out of range.
pub fn parse_i64(s: &str) -> (r: Option<i64>)
    ensures
        match r {
            Some(v) => int_lit_val(s@) == Some(v as int),
            None => int_lit_val(s@) is None,
        },
{
    let n = s.unicode_len();
    if n == 0 {
        return None;
    }
    let first = s.get_char(0);
    let neg = first == '-';
    let start: usize = if first == '-' || first == '+' {
        1
    } else {
        0
    };
    let ghost ds = if s@[0] == '-' || s@[0] == '+' {
        s@.subrange(1, s@.len() as int)
    } else {
        s@
    };
    proof {
        assert(ds =~= s@.subrange(start as int, n as int));
    }
    if start == n {
        return None;
    }
    let mut acc: u64 = 0;
    let mut over: bool = false;
    let mut i: usize = start;
    while i < n
        invariant
            start <= i <= n,
            start < n,
            n == s@.len(),
            start as int == (if s@[0] == '-' || s@[0] == '+' {
                1int
            } else {
                0int
            }),
            ds == s@.subrange(start as int, n as int),
            forall|k: int| start <= k < i ==> is_digit_char(s@[k]),
            !over ==> acc == digits_val(s@.subrange(start as int, i as int)) && acc
                <= 9223372036854775808u64,
            over ==> digits_val(s@.subrange(start as int, i as int)) > 9223372036854775808,
        decreases n - i,
    {
        let c = s.get_char(i);
        if !crate::chars::digit_char(c) {
            proof {
                assert(ds[i - start] == s@[i as int]);
                assert(!all_digits(ds));
            }
            return None;
        }
        let d: u64 = (c as u32 - 48) as u64;
        proof {
            let pre = s@.subrange(start as int, i as int);
            let pre2 = s@.subrange(start as int, i + 1);
            assert(pre2.drop_last() =~= pre);
            assert(pre2.last() == s@[i as int]);
            assert(digits_val(pre2) == digits_val(pre) * 10 + (s@[i as int] as int - 48));
        }
        if over {
        } else if acc > 922337203685477580u64 {
            over = true;
        } else {
            acc = acc * 10 + d;
            if acc > 9223372036854775808u64 {
                over = true;
            }
        }
        i = i + 1;
    }
    proof {
        assert(ds =~= s@.subrange(start as int, n as int));
        assert(all_digits(ds)) by {
            assert(forall|k: int| 0 <= k < ds.len() ==> ds[k] == s@[start + k]);
        }
        assert(ds.len() > 0);
    }
    if over {
        None
    } else if neg {
        if acc == 9223372036854775808u64 {
            Some(i64::MIN)
        } else {
            Some(-(acc as i64))
        }
    } else {
        if acc <= 9223372036854775807u64 {
            Some(acc as i64)
        } else {
            None
        }
    }
}

/// The ways a parse fails, by token position: no token that can begin a
/// primary expression, a missing closing parenthesis, or an integer literal
/// whose text does not denote a 64-bit value.
pub enum PErr {
    NoPrimary(int),
    MissingClose(int),
    BadInt(int),
}

/// A fatal parse failure, carrying the offending token (with its location)
/// where one exists, or `None` when the token sequence was exhausted.
#[derive(PartialEq, Eq, Debug, Clone)]
pub enum ParseError {
    UnexpectedToken(Option<Token>),
    MissingCloseParen(Option<Token>),
    InvalidIntegerLiteral(Token),
}

/// Whether the error value `e` reports exactly the failure `m` against the
/// token sequence `toks`.
pub open spec fn err_matches(e: ParseError, m: PErr, toks: Seq<TokenModel>) -> bool {
    match m {
        PErr::BadInt(p) => e matches ParseError::InvalidIntegerLiteral(t) && 0 <= p < toks.len()
            && t@ == toks[p],
        PErr::NoPrimary(p) => e matches ParseError::UnexpectedToken(o) && ((0 <= p < toks.len()
            && (o matches Some(t) && t@ == toks[p])) || (!(0 <= p < toks.len()) && o is None)),
        PErr::MissingClose(p) => e matches ParseError::MissingCloseParen(o) && ((0 <= p
            < toks.len() && (o matches Some(t) && t@ == toks[p])) || (!(0 <= p < toks.len())
            && o is None)),
    }
}

pub open spec fn spec_is_peek(toks: Seq<TokenModel>, pos: int, kind: TokenKind, lit: Seq<char>) -> bool {
    0 <= pos < toks.len() && toks[pos].kind == kind && (lit.len() == 0 || toks[pos].lit == lit)
}

pub open spec fn is_add_op(t: TokenModel) -> bool {
    t.kind == TokenKind::Operator && (t.lit == seq!['+'] || t.lit == seq!['-'])
}

pub open spec fn is_mul_op(t: TokenModel) -> bool {
    t.kind == TokenKind::Operator && (t.lit == seq!['*'] || t.lit == seq!['/'])
}

/// What `parse_primary` yields at `pos`: a literal token or a
/// parenthesized expression (the parentheses leave no tree node).
pub open spec fn spec_primary(toks: Seq<TokenModel>, pos: int) -> Result<(ExprModel, int), PErr>
    decreases toks.len() - pos, 0int,
{
    if !(0 <= pos < toks.len()) {
        Err(PErr::NoPrimary(pos))
    } else {
        let t = toks[pos];
        if t.kind == TokenKind::Integer {
            match int_lit_val(t.lit) {
                Some(v) => Ok((ExprModel::Integer(v), pos + 1)),
                None => Err(PErr::BadInt(pos)),
            }
        } else if t.kind == TokenKind::Float {
            Ok((ExprModel::Float(t.lit), pos + 1))
        } else if t.kind == TokenKind::String {
            Ok((ExprModel::String(t.lit), pos + 1))
        } else if t.kind == TokenKind::Symbol && t.lit == seq!['('] {
            match spec_additive(toks, pos + 1) {
                Err(m) => Err(m),
                Ok((e, q)) => {
                    if 0 <= q < toks.len() && toks[q].kind == TokenKind::Symbol && toks[q].lit
                        == seq![')'] {
                        Ok((e, q + 1))
                    } else {
                        Err(PErr::MissingClose(q))
                    }
                },
            }
        } else {
            Err(PErr::NoPrimary(pos))
        }
    }
}

/// What `parse_multiplicative` yields at `pos`: a primary, possibly joined
/// by `*` or `/` to a whole multiplicative expression on the right.
pub open spec fn spec_multiplicative(toks: Seq<TokenModel>, pos: int) -> Result<
    (ExprModel, int),
    PErr,
>
    decreases toks.len() - pos, 1int,
{
    match spec_primary(toks, pos) {
        Err(m) => Err(m),
        Ok((lhs, mid)) => {
            if 0 <= mid < toks.len() && is_mul_op(toks[mid]) && pos < mid {
                match spec_multiplicative(toks, mid + 1) {
                    Err(m) => Err(m),
                    Ok((rhs, end)) => Ok(
                        (
                            ExprModel::BinaryOp(
                                Box::new(lhs),
                                if toks[mid].lit == seq!['*'] {
                                    BinaryOp::Mul
                                } else {
                                    BinaryOp::Div
                                },
                                Box::new(rhs),
                            ),
                            end,
                        ),
                    ),
                }
            } else {
                Ok((lhs, mid))
            }
        },
    }
}

/// What `parse_additive` yields at `pos`: a multiplicative expression,
/// possibly joined by `+` or `-` to a whole additive expression on the
/// right.
pub open spec fn spec_additive(toks: Seq<TokenModel>, pos: int) -> Result<(ExprModel, int), PErr>
    decreases toks.len() - pos, 2int,
{
    match spec_multiplicative(toks, pos) {
        Err(m) => Err(m),
        Ok((lhs, mid)) => {
            if 0 <= mid < toks.len() && is_add_op(toks[mid]) && pos < mid {
                match spec_additive(toks, mid + 1) {
                    Err(m) => Err(m),
                    Ok((rhs, end)) => Ok(
                        (
                            ExprModel::BinaryOp(
                                Box::new(lhs),
                                if toks[mid].lit == seq!['+'] {
                                    BinaryOp::Add
                                } else {
                                    BinaryOp::Sub
                                },
                                Box::new(rhs),
                            ),
                            end,
                        ),
                    ),
                }
            } else {
                Ok((lhs, mid))
            }
        },
    }
}

/// What `parse` yields: the whole expression wrapped as a statement and an
/// abstract syntax tree root.
pub open spec fn spec_parse(toks: Seq<TokenModel>, pos: int) -> Result<(AstModel, int), PErr> {
    match spec_additive(toks, pos) {
        Err(m) => Err(m),
        Ok((e, end)) => Ok((AstModel::Stmt(StmtModel::Expr(e)), end)),
    }
}

/// The parser: an owned, read-only token sequence and a cursor that only
/// moves forward. Parsing is a single pass with no backtracking.
pub struct Parser {
    pub tokens: Vec<Token>,
    pub pos: usize,
}

impl Parser {
    /// The token sequence as models.
    pub open spec fn toks(self) -> Seq<TokenModel> {
        models_of(self.tokens@)
    }

    pub open spec fn wf(self) -> bool {
        self.pos <= self.tokens@.len()
    }

    pub fn new(tokens: Vec<Token>) -> (p: Parser)
        ensures
            p.wf(),
            p.tokens@ == tokens@,
            p.pos == 0,
    {
        Parser { tokens, pos: 0 }
    }

    /// The next unconsumed token, if any.
    fn peek(&self) -> (r: Option<&Token>)
        ensures
            match r {
                Some(t) => self.pos < self.tokens@.len() && *t == self.tokens@[self.pos as int],
                None => self.pos >= self.tokens@.len(),
            },
    {
        if self.pos < self.tokens.len() {
            Some(&self.tokens[self.pos])
        } else {
            None
        }
    }

    /// A copy of the next unconsumed token, if any.
    fn peek_clone(&self) -> (r: Option<Token>)
        ensures
            r == (if self.pos < self.tokens@.len() {
                Some(self.tokens@[self.pos as int])
            } else {
                None::<Token>
            }),
    {
        if self.pos < self.tokens.len() {
            Some(self.tokens[self.pos].clone())
        } else {
            None
        }
    }

    /// Consumes the next token and returns a copy of it.
    fn next(&mut self) -> (r: Option<Token>)
        requires
            old(self).wf(),
        ensures
            final(self).wf(),
            final(self).tokens == old(self).tokens,
            old(self).pos < old(self).tokens@.len() ==> r == Some(
                old(self).tokens@[old(self).pos as int],
            ) && final(self).pos == old(self).pos + 1,
            old(self).pos >= old(self).tokens@.len() ==> r == None::<Token> && final(self).pos
                == old(self).pos,
    {
        if self.pos < self.tokens.len() {
            let t = self.tokens[self.pos].clone();
            self.pos = self.pos + 1;
            Some(t)
        } else {
            None
        }
    }

    /// Whether the next token has this kind, and, unless `lit` is empty,
    /// this exact literal text.
    fn is_peek(&self, kind: TokenKind, lit: &str) -> (r: bool)
        ensures
            r == spec_is_peek(self.toks(), self.pos as int, kind, lit@),
    {
        if self.pos < self.tokens.len() {
            let k = self.tokens[self.pos].kind;
            if !(k == kind) {
                return false;
            }
            if lit.unicode_len() == 0 {
                return true;
            }
            str_eq(self.tokens[self.pos].lit.as_str(), lit)
        } else {
            false
        }
    }

    /// Parses one primary expression: an integer, float or string literal,
    /// or a parenthesized expression, which is returned unwrapped.
    fn parse_primary(&mut self) -> (r: Result<Expr, ParseError>)
        requires
            old(self).wf(),
        ensures
            final(self).wf(),
            final(self).tokens == old(self).tokens,
            ({
                let sr = spec_primary(old(self).toks(), old(self).pos as int);
                match r {
                    Ok(e) => (sr matches Ok(p) && p.0 == expr_model(e) && p.1 == final(self).pos as int && old(self).pos < final(self).pos),
                    Err(pe) => (sr matches Err(m) && err_matches(pe, m, old(self).toks())),
                }
            }),
        decreases self.tokens@.len() - self.pos, 0int,
    {
        proof {
            reveal_strlit("");
            reveal_strlit("(");
            reveal_strlit(")");
            assert(""@ =~= Seq::<char>::empty());
            assert("("@ =~= seq!['(']);
            assert(")"@ =~= seq![')']);
        }
        if self.is_peek(TokenKind::Integer, "") {
            let t = self.next().unwrap();
            proof {
                assert(t@ == old(self).toks()[old(self).pos as int]);
            }
            match parse_i64(t.lit.as_str()) {
                Some(v) => Ok(Expr::Integer(v)),
                None => Err(ParseError::InvalidIntegerLiteral(t)),
            }
        } else if self.is_peek(TokenKind::Float, "") {
            let t = self.next().unwrap();
            Ok(Expr::Float(t.lit))
        } else if self.is_peek(TokenKind::String, "") {
            let t = self.next().unwrap();
            Ok(Expr::String(t.lit))
        } else if self.is_peek(TokenKind::Symbol, "(") {
            self.next();
            let inner = self.parse_expr();
            match inner {
                Err(pe) => Err(pe),
                Ok(e) => {
                    if self.is_peek(TokenKind::Symbol, ")") {
                        self.next();
                        Ok(e)
                    } else {
                        Err(ParseError::MissingCloseParen(self.peek_clone()))
                    }
                },
            }
        } else {
            Err(ParseError::UnexpectedToken(self.peek_clone()))
        }
    }

    /// Parses a multiplicative expression: a primary, then on `*` or `/` a
    /// whole multiplicative expression as the right operand.
    fn parse_multiplicative(&mut self) -> (r: Result<Expr, ParseError>)
        requires
            old(self).wf(),
        ensures
            final(self).wf(),
            final(self).tokens == old(self).tokens,
            ({
                let sr = spec_multiplicative(old(self).toks(), old(self).pos as int);
                match r {
                    Ok(e) => (sr matches Ok(p) && p.0 == expr_model(e) && p.1 == final(self).pos as int && old(self).pos < final(self).pos),
                    Err(pe) => (sr matches Err(m) && err_matches(pe, m, old(self).toks())),
                }
            }),
        decreases self.tokens@.len() - self.pos, 1int,
    {
        proof {
            reveal_strlit("*");
            reveal_strlit("/");
            assert("*"@ =~= seq!['*']);
            assert("/"@ =~= seq!['/']);
        }
        let lhs = match self.parse_primary() {
            Ok(e) => e,
            Err(pe) => {
                return Err(pe);
            },
        };
        let star = self.is_peek(TokenKind::Operator, "*");
        let slash = self.is_peek(TokenKind::Operator, "/");
        if star || slash {
            self.next();
            let rhs = match self.parse_multiplicative() {
                Ok(e) => e,
                Err(pe) => {
                    return Err(pe);
                },
            };
            let op = if star {
                BinaryOp::Mul
            } else {
                BinaryOp::Div
            };
            Ok(Expr::BinaryOp(Box::new(lhs), op, Box::new(rhs)))
        } else {
            Ok(lhs)
        }
    }

    /// Parses an additive expression: a multiplicative expression, then on
    /// `+` or `-` a whole additive expression as the right operand.
    fn parse_additive(&mut self) -> (r: Result<Expr, ParseError>)
        requires
            old(self).wf(),
        ensures
            final(self).wf(),
            final(self).tokens == old(self).tokens,
            ({
                let sr = spec_additive(old(self).toks(), old(self).pos as int);
                match r {
                    Ok(e) => (sr matches Ok(p) && p.0 == expr_model(e) && p.1 == final(self).pos as int && old(self).pos < final(self).pos),
                    Err(pe) => (sr matches Err(m) && err_matches(pe, m, old(self).toks())),
                }
            }),
        decreases self.tokens@.len() - self.pos, 2int,
    {
        proof {
            reveal_strlit("+");
            reveal_strlit("-");
            assert("+"@ =~= seq!['+']);
            assert("-"@ =~= seq!['-']);
        }
        let lhs = match self.parse_multiplicative() {
            Ok(e) => e,
            Err(pe) => {
                return Err(pe);
            },
        };
        let plus = self.is_peek(TokenKind::Operator, "+");
        let minus = self.is_peek(TokenKind::Operator, "-");
        if plus || minus {
            self.next();
            let rhs = match self.parse_additive() {
                Ok(e) => e,
                Err(pe) => {
                    return Err(pe);
                },
            };
            let op = if plus {
                BinaryOp::Add
            } else {
                BinaryOp::Sub
            };
            Ok(Expr::BinaryOp(Box::new(lhs), op, Box::new(rhs)))
        } else {
            Ok(lhs)
        }
    }

    /// Parses one whole expression (the lowest-precedence tier).
    fn parse_expr(&mut self) -> (r: Result<Expr, ParseError>)
        requires
            old(self).wf(),
        ensures
            final(self).wf(),
            final(self).tokens == old(self).tokens,
            ({
                let sr = spec_additive(old(self).toks(), old(self).pos as int);
                match r {
                    Ok(e) => (sr matches Ok(p) && p.0 == expr_model(e) && p.1 == final(self).pos as int && old(self).pos < final(self).pos),
                    Err(pe) => (sr matches Err(m) && err_matches(pe, m, old(self).toks())),
                }
            }),
        decreases self.tokens@.len() - self.pos, 3int,
    {
        self.parse_additive()
    }

    /// Parses one statement: the grammar's only statement form wraps one
    /// expression.
    fn parse_statement(&mut self) -> (r: Result<Stmt, ParseError>)
        requires
            old(self).wf(),
        ensures
            final(self).wf(),
            final(self).tokens == old(self).tokens,
            ({
                let sr = spec_additive(old(self).toks(), old(self).pos as int);
                match r {
                    Ok(s) => (sr matches Ok(p) && stmt_model(s) == StmtModel::Expr(p.0) && p.1
                        == final(self).pos as int),
                    Err(pe) => (sr matches Err(m) && err_matches(pe, m, old(self).toks())),
                }
            }),
        decreases self.tokens@.len() - self.pos, 4int,
    {
        match self.parse_expr() {
            Ok(e) => Ok(Stmt::Expr(e)),
            Err(pe) => Err(pe),
        }
    }

    /// Parses the token sequence into one abstract syntax tree. The whole
    /// relevant prefix is consumed; trailing tokens after a complete
    /// expression are ignored, not an error. A sequence that holds no
    /// complete expression at the cursor yields the error the grammar
    /// names, and no partial tree.
    pub fn parse(&mut self) -> (r: Result<Ast, ParseError>)
        requires
            old(self).wf(),
        ensures
            final(self).wf(),
            final(self).tokens == old(self).tokens,
            ({
                let sr = spec_parse(old(self).toks(), old(self).pos as int);
                match r {
                    Ok(a) => (sr matches Ok(p) && p.0 == ast_model(a) && p.1 == final(self).pos as int),
                    Err(pe) => (sr matches Err(m) && err_matches(pe, m, old(self).toks())),
                }
            }),
    {
        match self.parse_statement() {
            Ok(s) => Ok(Ast::Stmt(s)),
            Err(pe) => Err(pe),
        }
    }
}

} // verus!
