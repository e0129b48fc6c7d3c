//! The lexer: a single pass over the source text that classifies maximal
//! runs of characters into tokens. Its behaviour is specified by the
//! recursive functions below over the character sequence, and every method
//! is proved to follow them.

use vstd::prelude::*;

use crate::chars::is_digit_char;
use crate::chars::is_ident_cont;
use crate::chars::is_ident_start;
use crate::chars::is_op_char;
use crate::chars::is_symbol_char;
use crate::chars::is_ws_char;
use crate::chars::alnum_char;
use crate::chars::alpha_char;
use crate::chars::chars_to_string;
use crate::chars::digit_char;
use crate::chars::op_char;
use crate::chars::symbol_char;
use crate::chars::ws_char;
use crate::token::Location;
use crate::token::Token;
use crate::token::TokenKind;
use crate::token::TokenModel;

verus! {

/// The line and column (both 1-indexed) of the cursor after consuming the
/// first `n` characters of `input`: each newline moves to the next line and
/// resets the column, every other character advances the column.
pub open spec fn loc_after(input: Seq<char>, n: int) -> (int, int)
    decreases n,
{
    if n <= 0 {
        (1int, 1int)
    } else {
        let prev = loc_after(input, n - 1);
        if 0 <= n - 1 < input.len() && input[n - 1] == '\n' {
            (prev.0 + 1, 1int)
        } else {
            (prev.0, prev.1 + 1)
        }
    }
}

pub proof fn lemma_loc_after_bounds(input: Seq<char>, n: int)
    requires
        0 <= n,
    ensures
        1 <= loc_after(input, n).0 <= n + 1,
        1 <= loc_after(input, n).1 <= n + 1,
    decreases n,
{
    if n > 0 {
        lemma_loc_after_bounds(input, n - 1);
    }
}

/// The first position at or after `i` that does not hold whitespace.
pub open spec fn ws_end(input: Seq<char>, i: int) -> int
    decreases input.len() - i,
{
    if 0 <= i < input.len() && is_ws_char(input[i]) {
        ws_end(input, i + 1)
    } else {
        i
    }
}

/// The end of the maximal run of identifier characters starting at `i`.
pub open spec fn ident_end(input: Seq<char>, i: int) -> int
    decreases input.len() - i,
{
    if 0 <= i < input.len() && is_ident_cont(input[i]) {
        ident_end(input, i + 1)
    } else {
        i
    }
}

/// The end of the maximal run of decimal digits starting at `i`.
pub open spec fn digits_end(input: Seq<char>, i: int) -> int
    decreases input.len() - i,
{
    if 0 <= i < input.len() && is_digit_char(input[i]) {
        digits_end(input, i + 1)
    } else {
        i
    }
}

/// The position of the first `quote` character at or after `i`, or the end
/// of the input if none follows.
pub open spec fn string_end(input: Seq<char>, i: int, quote: char) -> int
    decreases input.len() - i,
{
    if 0 <= i < input.len() && input[i] != quote {
        string_end(input, i + 1, quote)
    } else {
        i
    }
}

/// The position just past the first newline at or after `i`, or the end of
/// the input if no newline follows: where lexing resumes after a comment.
pub open spec fn comment_end(input: Seq<char>, i: int) -> int
    decreases input.len() - i,
{
    if 0 <= i < input.len() {
        if input[i] == '\n' {
            i + 1
        } else {
            comment_end(input, i + 1)
        }
    } else {
        i
    }
}

pub proof fn lemma_ws_end(input: Seq<char>, i: int)
    requires
        0 <= i <= input.len(),
    ensures
        i <= ws_end(input, i) <= input.len(),
        forall|k: int| i <= k < ws_end(input, i) ==> is_ws_char(input[k]),
        ws_end(input, i) < input.len() ==> !is_ws_char(input[ws_end(input, i)]),
    decreases input.len() - i,
{
    if i < input.len() && is_ws_char(input[i]) {
        lemma_ws_end(input, i + 1);
    }
}

pub proof fn lemma_ident_end(input: Seq<char>, i: int)
    requires
        0 <= i <= input.len(),
    ensures
        i <= ident_end(input, i) <= input.len(),
        forall|k: int| i <= k < ident_end(input, i) ==> is_ident_cont(input[k]),
        ident_end(input, i) < input.len() ==> !is_ident_cont(input[ident_end(input, i)]),
    decreases input.len() - i,
{
    if i < input.len() && is_ident_cont(input[i]) {
        lemma_ident_end(input, i + 1);
    }
}

pub proof fn lemma_digits_end(input: Seq<char>, i: int)
    requires
        0 <= i <= input.len(),
    ensures
        i <= digits_end(input, i) <= input.len(),
        forall|k: int| i <= k < digits_end(input, i) ==> is_digit_char(input[k]),
        digits_end(input, i) < input.len() ==> !is_digit_char(input[digits_end(input, i)]),
    decreases input.len() - i,
{
    if i < input.len() && is_digit_char(input[i]) {
        lemma_digits_end(input, i + 1);
    }
}

pub proof fn lemma_string_end(input: Seq<char>, i: int, quote: char)
    requires
        0 <= i <= input.len(),
    ensures
        i <= string_end(input, i, quote) <= input.len(),
        forall|k: int| i <= k < string_end(input, i, quote) ==> input[k] != quote,
        string_end(input, i, quote) < input.len() ==> input[string_end(input, i, quote)] == quote,
    decreases input.len() - i,
{
    if i < input.len() && input[i] != quote {
        lemma_string_end(input, i + 1, quote);
    }
}

pub proof fn lemma_comment_end(input: Seq<char>, i: int)
    requires
        0 <= i <= input.len(),
    ensures
        i <= comment_end(input, i) <= input.len(),
        i < input.len() ==> i + 1 <= comment_end(input, i),
    decreases input.len() - i,
{
    if i < input.len() && input[i] != '\n' {
        lemma_comment_end(input, i + 1);
    }
}

/// The reserved-word set holds exactly `let`.
pub open spec fn keyword_or_ident(lit: Seq<char>) -> TokenKind {
    if lit == seq!['l', 'e', 't'] {
        TokenKind::Keyword
    } else {
        TokenKind::Ident
    }
}

/// What `read_ident` yields at position `p`: the kind, the literal, and the
/// cursor position after it.
pub open spec fn spec_read_ident(input: Seq<char>, p: int) -> (TokenKind, Seq<char>, int) {
    let e = ident_end(input, p);
    (keyword_or_ident(input.subrange(p, e)), input.subrange(p, e), e)
}

/// What `read_number` yields at position `p`: a maximal digit run, extended
/// past a following `.` into a float.
pub open spec fn spec_read_number(input: Seq<char>, p: int) -> (TokenKind, Seq<char>, int) {
    let d = digits_end(input, p);
    if d < input.len() && input[d] == '.' {
        let f = digits_end(input, d + 1);
        (TokenKind::Float, input.subrange(p, f), f)
    } else {
        (TokenKind::Integer, input.subrange(p, d), d)
    }
}

/// What `read_string` yields with the cursor at the opening quote, position
/// `p`: the contents up to the matching quote (or to the end of input when
/// the string is unterminated), with both quotes consumed where present.
pub open spec fn spec_read_string(input: Seq<char>, p: int, quote: char) -> (
    TokenKind,
    Seq<char>,
    int,
) {
    let s = if 0 <= p < input.len() {
        p + 1
    } else {
        p
    };
    let e = string_end(input, s, quote);
    let np = if e < input.len() {
        e + 1
    } else {
        e
    };
    (TokenKind::String, input.subrange(s, e), np)
}

/// What `read_unknown` yields with the cursor at position `p` (which must
/// hold a character): one- and two-character operators, symbols, and the
/// terminal `Unknown` for anything else.
pub open spec fn spec_read_unknown(input: Seq<char>, p: int) -> (TokenKind, Seq<char>, int) {
    let c = input[p];
    if is_op_char(c) && p + 1 < input.len() && input[p + 1] == '=' {
        (TokenKind::Operator, seq![c, '='], p + 2)
    } else if is_op_char(c) {
        (TokenKind::Operator, seq![c], p + 1)
    } else if c == '-' && p + 1 < input.len() && input[p + 1] == '>' {
        (TokenKind::Operator, seq![c, '>'], p + 2)
    } else if is_symbol_char(c) {
        (TokenKind::Symbol, seq![c], p + 1)
    } else {
        (TokenKind::Unknown, seq![c], p + 1)
    }
}

/// What one call of `next_token` yields at position `pos`: skip whitespace,
/// dispatch on the next character, and restart past any line comment.
pub open spec fn spec_next_token(input: Seq<char>, pos: int) -> (TokenKind, Seq<char>, int)
    decreases input.len() - pos,
{
    let p = ws_end(input, pos);
    if !(0 <= p < input.len()) {
        (TokenKind::Eof, Seq::<char>::empty(), p)
    } else {
        let c = input[p];
        if is_ident_start(c) {
            spec_read_ident(input, p)
        } else if is_digit_char(c) {
            spec_read_number(input, p)
        } else if c == '"' || c == '\'' {
            spec_read_string(input, p, c)
        } else if c == '/' && p + 1 < input.len() && input[p + 1] == '/' {
            let q = comment_end(input, p);
            if pos < q && q <= input.len() {
                spec_next_token(input, q)
            } else {
                (TokenKind::Eof, Seq::<char>::empty(), q)
            }
        } else {
            spec_read_unknown(input, p)
        }
    }
}

/// The token value `next_token` yields at `pos`, with the location the
/// cursor has after it.
pub open spec fn spec_token_at(input: Seq<char>, pos: int) -> TokenModel {
    let r = spec_next_token(input, pos);
    TokenModel {
        kind: r.0,
        lit: r.1,
        line: loc_after(input, r.2).0,
        col: loc_after(input, r.2).1,
    }
}

/// The token models of a token vector, element by element.
pub open spec fn models_of(toks: Seq<Token>) -> Seq<TokenModel> {
    toks.map(|i: int, t: Token| t@)
}

/// The whole token stream from `pos`: tokens in order up to and including
/// the first terminal one (`Eof` or `Unknown`).
pub open spec fn spec_read_all(input: Seq<char>, pos: int) -> Seq<TokenModel>
    decreases input.len() - pos,
{
    let r = spec_next_token(input, pos);
    let tm = spec_token_at(input, pos);
    if r.0 == TokenKind::Eof || r.0 == TokenKind::Unknown || r.2 <= pos || r.2 > input.len() {
        seq![tm]
    } else {
        seq![tm] + spec_read_all(input, r.2)
    }
}

pub proof fn lemma_ident_end_exact(s: Seq<char>, j: int, k: int)
    requires
        0 <= j <= k <= s.len(),
        forall|i: int| j <= i < k ==> is_ident_cont(s[i]),
        k < s.len() ==> !is_ident_cont(s[k]),
    ensures
        ident_end(s, j) == k,
    decreases k - j,
{
    if j < k {
        lemma_ident_end_exact(s, j + 1, k);
    }
}

pub proof fn lemma_digits_end_exact(s: Seq<char>, j: int, k: int)
    requires
        0 <= j <= k <= s.len(),
        forall|i: int| j <= i < k ==> is_digit_char(s[i]),
        k < s.len() ==> !is_digit_char(s[k]),
    ensures
        digits_end(s, j) == k,
    decreases k - j,
{
    if j < k {
        lemma_digits_end_exact(s, j + 1, k);
    }
}

/// Round-trip law: re-lexing the literal text stored in any token the
/// lexer yields reproduces a token of the same kind with the same literal.
/// String tokens stand outside the law: their literal is the contents
/// without the quotes, which is no longer a string literal on its own.
pub proof fn lemma_relex_token(input: Seq<char>, pos: int)
    requires
        0 <= pos <= input.len(),
        spec_next_token(input, pos).0 != TokenKind::String,
    ensures
        spec_next_token(spec_next_token(input, pos).1, 0).0 == spec_next_token(input, pos).0,
        spec_next_token(spec_next_token(input, pos).1, 0).1 == spec_next_token(input, pos).1,
    decreases input.len() - pos,
{
    let r = spec_next_token(input, pos);
    let p = ws_end(input, pos);
    lemma_ws_end(input, pos);
    if p >= input.len() {
        assert(r.1 =~= Seq::<char>::empty());
        assert(ws_end(r.1, 0) == 0);
    } else {
        let c = input[p];
        assert(!is_ws_char(c));
        if is_ident_start(c) {
            let e = ident_end(input, p);
            lemma_ident_end(input, p);
            let lit = input.subrange(p, e);
            assert(is_ident_cont(c));
            assert(e > p);
            assert(lit[0] == c);
            assert(ws_end(lit, 0) == 0);
            assert(forall|i: int| 0 <= i < lit.len() ==> is_ident_cont(lit[i]));
            lemma_ident_end_exact(lit, 0, lit.len() as int);
            assert(lit.subrange(0, lit.len() as int) =~= lit);
            assert(spec_next_token(lit, 0).0 == keyword_or_ident(lit));
            assert(r.0 == keyword_or_ident(lit));
        } else if is_digit_char(c) {
            let d = digits_end(input, p);
            lemma_digits_end(input, p);
            if d < input.len() && input[d] == '.' {
                let f = digits_end(input, d + 1);
                lemma_digits_end(input, d + 1);
                let lit = input.subrange(p, f);
                assert(lit[0] == c);
                assert(ws_end(lit, 0) == 0);
                assert(!is_ident_start(c));
                assert(forall|i: int| 0 <= i < d - p ==> is_digit_char(lit[i]));
                assert(lit[d - p] == '.');
                assert(!is_digit_char('.'));
                lemma_digits_end_exact(lit, 0, d - p);
                assert(forall|i: int| d - p + 1 <= i < lit.len() ==> is_digit_char(lit[i]));
                lemma_digits_end_exact(lit, d - p + 1, lit.len() as int);
                assert(lit.subrange(0, lit.len() as int) =~= lit);
            } else {
                let lit = input.subrange(p, d);
                assert(lit[0] == c);
                assert(ws_end(lit, 0) == 0);
                assert(!is_ident_start(c));
                assert(forall|i: int| 0 <= i < lit.len() ==> is_digit_char(lit[i]));
                lemma_digits_end_exact(lit, 0, lit.len() as int);
                assert(lit.subrange(0, lit.len() as int) =~= lit);
            }
        } else if c == '"' || c == '\'' {
            // a string literal: excluded by the precondition
            assert(false);
        } else if c == '/' && p + 1 < input.len() && input[p + 1] == '/' {
            let q = comment_end(input, p);
            lemma_comment_end(input, p);
            assert(pos < q && q <= input.len());
            lemma_relex_token(input, q);
        } else {
            // read_unknown: operators, symbols, and the terminal Unknown
            let u = spec_read_unknown(input, p);
            if is_op_char(c) && p + 1 < input.len() && input[p + 1] == '=' {
                let lit = seq![c, '='];
                assert(u.1 == lit);
                assert(!is_ws_char(lit[0]));
                assert(ws_end(lit, 0) == 0);
                assert(!(c == '"' || c == '\''));
                assert(!(c == '/' && lit[1] == '/'));
                assert(spec_read_unknown(lit, 0).0 == TokenKind::Operator);
                assert(spec_read_unknown(lit, 0).1 =~= lit);
            } else if is_op_char(c) {
                let lit = seq![c];
                assert(u.1 == lit);
                assert(ws_end(lit, 0) == 0);
                assert(!(c == '"' || c == '\''));
                assert(spec_read_unknown(lit, 0).1 =~= lit);
            } else if c == '-' && p + 1 < input.len() && input[p + 1] == '>' {
                // unreachable: '-' is an operator character
                assert(false);
            } else if is_symbol_char(c) {
                let lit = seq![c];
                assert(u.1 == lit);
                assert(ws_end(lit, 0) == 0);
                assert(!(c == '"' || c == '\''));
                assert(c != '/');
                assert(spec_read_unknown(lit, 0).0 == TokenKind::Symbol);
                assert(spec_read_unknown(lit, 0).1 =~= lit);
            } else {
                let lit = seq![c];
                assert(u.1 == lit);
                assert(ws_end(lit, 0) == 0);
                assert(!(c == '"' || c == '\''));
                assert(c != '/');
                assert(spec_read_unknown(lit, 0).0 == TokenKind::Unknown);
                assert(spec_read_unknown(lit, 0).1 =~= lit);
            }
        }
    }
}

/// The lexer: the source text as characters, a cursor, and the cursor's
/// line and column.
pub struct Lexer {
    input: Vec<char>,
    pos: usize,
    location: Location,
}

impl Lexer {
    /// The source text.
    pub closed spec fn text(self) -> Seq<char> {
        self.input@
    }

    /// The cursor: how many characters have been consumed.
    pub closed spec fn cur(self) -> int {
        self.pos as int
    }

    pub closed spec fn loc_line(self) -> int {
        self.location.line as int
    }

    pub closed spec fn loc_col(self) -> int {
        self.location.column as int
    }

    /// The lexer's invariant: the cursor is inside the text and the stored
    /// location is the one determined by the consumed prefix.
    pub open spec fn wf(self) -> bool {
        &&& 0 <= self.cur() <= self.text().len()
        &&& self.text().len() < usize::MAX
        &&& self.loc_line() == loc_after(self.text(), self.cur()).0
        &&& self.loc_col() == loc_after(self.text(), self.cur()).1
    }

    pub fn new(input: String) -> (l: Lexer)
        requires
            input@.len() < usize::MAX,
        ensures
            l.wf(),
            l.text() == input@,
            l.cur() == 0,
    {
        let s = input.as_str();
        let n = s.unicode_len();
        let mut v: Vec<char> = Vec::new();
        let mut i: usize = 0;
        while i < n
            invariant
                i <= n,
                n == input@.len(),
                s@ == input@,
                v@ == input@.subrange(0, i as int),
            decreases n - i,
        {
            let c = s.get_char(i);
            v.push(c);
            proof {
                assert(v@ =~= input@.subrange(0, i + 1 as int));
            }
            i = i + 1;
        }
        proof {
            assert(v@ =~= input@);
        }
        Lexer { input: v, pos: 0, location: Location { line: 1, column: 1 } }
    }

    /// Consumes and returns the next character, tracking line and column.
    pub fn next(&mut self) -> (r: Option<char>)
        requires
            old(self).wf(),
        ensures
            final(self).wf(),
            final(self).text() == old(self).text(),
            old(self).cur() < old(self).text().len() ==> r == Some(
                old(self).text()[old(self).cur()],
            ) && final(self).cur() == old(self).cur() + 1,
            old(self).cur() >= old(self).text().len() ==> r == None::<char> && *final(self) == *old(
                self,
            ),
    {
        proof {
            lemma_loc_after_bounds(self.input@, self.pos as int);
        }
        if self.pos < self.input.len() {
            let c = self.input[self.pos];
            self.pos = self.pos + 1;
            if c == '\n' {
                self.location.line = self.location.line + 1;
                self.location.column = 1;
            } else {
                self.location.column = self.location.column + 1;
            }
            Some(c)
        } else {
            None
        }
    }

    /// The next unconsumed character, if any, without consuming it.
    pub fn peek(&self) -> (r: Option<char>)
        ensures
            r == (if self.cur() < self.text().len() {
                Some(self.text()[self.cur()])
            } else {
                None::<char>
            }),
    {
        if self.pos < self.input.len() {
            Some(self.input[self.pos])
        } else {
            None
        }
    }

    /// The character one past the next, if any.
    pub fn peek_next(&self) -> (r: Option<char>)
        requires
            self.wf(),
        ensures
            r == (if self.cur() + 1 < self.text().len() {
                Some(self.text()[self.cur() + 1])
            } else {
                None::<char>
            }),
    {
        if self.pos < self.input.len() && self.pos + 1 < self.input.len() {
            Some(self.input[self.pos + 1])
        } else {
            None
        }
    }

    /// Consumes every whitespace character before the next token.
    pub fn skip_whitespace(&mut self)
        requires
            old(self).wf(),
        ensures
            final(self).wf(),
            final(self).text() == old(self).text(),
            final(self).cur() == ws_end(old(self).text(), old(self).cur()),
    {
        loop
            invariant
                self.wf(),
                self.text() == old(self).text(),
                ws_end(self.text(), self.cur()) == ws_end(old(self).text(), old(self).cur()),
            ensures
                self.wf(),
                self.text() == old(self).text(),
                self.cur() == ws_end(old(self).text(), old(self).cur()),
            decreases self.text().len() - self.cur(),
        {
            match self.peek() {
                Some(c) => {
                    if ws_char(c) {
                        self.next();
                    } else {
                        break ;
                    }
                },
                None => {
                    break ;
                },
            }
        }
    }

    /// Consumes a maximal run of identifier characters; the token is a
    /// keyword when the text is a reserved word, an identifier otherwise.
    pub fn read_ident(&mut self) -> (t: Token)
        requires
            old(self).wf(),
        ensures
            final(self).wf(),
            final(self).text() == old(self).text(),
            ({
                let r = spec_read_ident(old(self).text(), old(self).cur());
                t.kind == r.0 && t.lit@ == r.1 && final(self).cur() == r.2 && t.loc.line as int
                    == loc_after(old(self).text(), r.2).0 && t.loc.column as int == loc_after(
                    old(self).text(),
                    r.2,
                ).1
            }),
    {
        let ghost start = self.cur();
        let mut ident: Vec<char> = Vec::new();
        loop
            invariant
                self.wf(),
                self.text() == old(self).text(),
                0 <= start <= self.cur(),
                ident@ == self.text().subrange(start, self.cur()),
                ident_end(self.text(), self.cur()) == ident_end(self.text(), start),
            ensures
                self.wf(),
                self.text() == old(self).text(),
                0 <= start <= self.cur(),
                self.cur() == ident_end(self.text(), start),
                ident@ == self.text().subrange(start, self.cur()),
            decreases self.text().len() - self.cur(),
        {
            match self.peek() {
                Some(c) => {
                    if alnum_char(c) || c == '_' {
                        ident.push(c);
                        self.next();
                        proof {
                            assert(ident@ =~= self.text().subrange(start, self.cur()));
                        }
                    } else {
                        break ;
                    }
                },
                None => {
                    break ;
                },
            }
        }
        let is_kw = ident.len() == 3 && ident[0] == 'l' && ident[1] == 'e' && ident[2] == 't';
        proof {
            if is_kw {
                assert(ident@ =~= seq!['l', 'e', 't']);
            }
        }
        Token {
            kind: if is_kw {
                TokenKind::Keyword
            } else {
                TokenKind::Ident
            },
            lit: chars_to_string(&ident),
            loc: self.location,
        }
    }

    /// Consumes a maximal run of digits, and past a following `.` a second
    /// run, yielding an integer or float literal.
    pub fn read_number(&mut self) -> (t: Token)
        requires
            old(self).wf(),
        ensures
            final(self).wf(),
            final(self).text() == old(self).text(),
            ({
                let r = spec_read_number(old(self).text(), old(self).cur());
                t.kind == r.0 && t.lit@ == r.1 && final(self).cur() == r.2 && t.loc.line as int
                    == loc_after(old(self).text(), r.2).0 && t.loc.column as int == loc_after(
                    old(self).text(),
                    r.2,
                ).1
            }),
    {
        let ghost start = self.cur();
        let mut number: Vec<char> = Vec::new();
        loop
            invariant
                self.wf(),
                self.text() == old(self).text(),
                0 <= start <= self.cur(),
                number@ == self.text().subrange(start, self.cur()),
                digits_end(self.text(), self.cur()) == digits_end(self.text(), start),
            ensures
                self.wf(),
                self.text() == old(self).text(),
                0 <= start <= self.cur(),
                self.cur() == digits_end(self.text(), start),
                number@ == self.text().subrange(start, self.cur()),
            decreases self.text().len() - self.cur(),
        {
            match self.peek() {
                Some(c) => {
                    if digit_char(c) {
                        number.push(c);
                        self.next();
                        proof {
                            assert(number@ =~= self.text().subrange(start, self.cur()));
                        }
                    } else {
                        break ;
                    }
                },
                None => {
                    break ;
                },
            }
        }
        let dot = match self.peek() {
            Some(c) => c == '.',
            None => false,
        };
        if dot {
            number.push('.');
            self.next();
            proof {
                assert(number@ =~= self.text().subrange(start, self.cur()));
            }
            let ghost fstart = self.cur();
            loop
                invariant
                    self.wf(),
                    self.text() == old(self).text(),
                    0 <= start <= fstart <= self.cur(),
                    number@ == self.text().subrange(start, self.cur()),
                    digits_end(self.text(), self.cur()) == digits_end(self.text(), fstart),
                ensures
                    self.wf(),
                    self.text() == old(self).text(),
                    0 <= start <= fstart <= self.cur(),
                    self.cur() == digits_end(self.text(), fstart),
                    number@ == self.text().subrange(start, self.cur()),
                decreases self.text().len() - self.cur(),
            {
                match self.peek() {
                    Some(c) => {
                        if digit_char(c) {
                            number.push(c);
                            self.next();
                            proof {
                                assert(number@ =~= self.text().subrange(start, self.cur()));
                            }
                        } else {
                            break ;
                        }
                    },
                    None => {
                        break ;
                    },
                }
            }
            Token { kind: TokenKind::Float, lit: chars_to_string(&number), loc: self.location }
        } else {
            Token { kind: TokenKind::Integer, lit: chars_to_string(&number), loc: self.location }
        }
    }

    /// Consumes the opening quote, the contents up to a matching quote (or
    /// the end of input when the string is unterminated), and the closing
    /// quote where present. The literal is the contents alone.
    pub fn read_string(&mut self, quote: char) -> (t: Token)
        requires
            old(self).wf(),
        ensures
            final(self).wf(),
            final(self).text() == old(self).text(),
            ({
                let r = spec_read_string(old(self).text(), old(self).cur(), quote);
                t.kind == r.0 && t.lit@ == r.1 && final(self).cur() == r.2 && t.loc.line as int
                    == loc_after(old(self).text(), r.2).0 && t.loc.column as int == loc_after(
                    old(self).text(),
                    r.2,
                ).1
            }),
    {
        let mut string: Vec<char> = Vec::new();
        self.next();
        let ghost start = self.cur();
        loop
            invariant
                self.wf(),
                self.text() == old(self).text(),
                0 <= start <= self.cur(),
                string@ == self.text().subrange(start, self.cur()),
                string_end(self.text(), self.cur(), quote) == string_end(
                    self.text(),
                    start,
                    quote,
                ),
            ensures
                self.wf(),
                self.text() == old(self).text(),
                0 <= start <= self.cur(),
                self.cur() == string_end(self.text(), start, quote),
                string@ == self.text().subrange(start, self.cur()),
            decreases self.text().len() - self.cur(),
        {
            match self.peek() {
                Some(c) => {
                    if c == quote {
                        break ;
                    }
                    string.push(c);
                    self.next();
                    proof {
                        assert(string@ =~= self.text().subrange(start, self.cur()));
                    }
                },
                None => {
                    break ;
                },
            }
        }
        self.next();
        Token { kind: TokenKind::String, lit: chars_to_string(&string), loc: self.location }
    }

    /// Consumes one character and classifies it: a one- or two-character
    /// operator, a symbol, or the terminal `Unknown`.
    pub fn read_unknown(&mut self) -> (t: Token)
        requires
            old(self).wf(),
            old(self).cur() < old(self).text().len(),
        ensures
            final(self).wf(),
            final(self).text() == old(self).text(),
            ({
                let r = spec_read_unknown(old(self).text(), old(self).cur());
                t.kind == r.0 && t.lit@ == r.1 && final(self).cur() == r.2 && t.loc.line as int
                    == loc_after(old(self).text(), r.2).0 && t.loc.column as int == loc_after(
                    old(self).text(),
                    r.2,
                ).1
            }),
    {
        let c_opt = self.next();
        let c = c_opt.unwrap();
        let nx = self.peek();
        let nx_eq = match nx {
            Some(c2) => c2 == '=',
            None => false,
        };
        let nx_gt = match nx {
            Some(c2) => c2 == '>',
            None => false,
        };
        if op_char(c) && nx_eq {
            let mut two: Vec<char> = Vec::new();
            two.push(c);
            two.push('=');
            let s = chars_to_string(&two);
            proof {
                assert(two@ =~= seq![c, '=']);
            }
            return self.doble_symbol(s.as_str());
        } else if op_char(c) {
            let mut one: Vec<char> = Vec::new();
            one.push(c);
            proof {
                assert(one@ =~= seq![c]);
            }
            return Token {
                kind: TokenKind::Operator,
                lit: chars_to_string(&one),
                loc: self.location,
            };
        }
        if c == '-' && nx_gt {
            let mut two: Vec<char> = Vec::new();
            two.push(c);
            two.push('>');
            let s = chars_to_string(&two);
            proof {
                assert(two@ =~= seq![c, '>']);
            }
            return self.doble_symbol(s.as_str());
        }
        let mut one: Vec<char> = Vec::new();
        one.push(c);
        proof {
            assert(one@ =~= seq![c]);
        }
        if symbol_char(c) {
            Token { kind: TokenKind::Symbol, lit: chars_to_string(&one), loc: self.location }
        } else {
            Token { kind: TokenKind::Unknown, lit: chars_to_string(&one), loc: self.location }
        }
    }

    /// Consumes the second character of a two-character operator (already
    /// seen by peeking) and yields the operator token `sym`.
    pub fn doble_symbol(&mut self, sym: &str) -> (t: Token)
        requires
            old(self).wf(),
        ensures
            final(self).wf(),
            final(self).text() == old(self).text(),
            final(self).cur() == (if old(self).cur() < old(self).text().len() {
                old(self).cur() + 1
            } else {
                old(self).cur()
            }),
            t.kind == TokenKind::Operator,
            t.lit@ == sym@,
            t.loc.line as int == loc_after(final(self).text(), final(self).cur()).0,
            t.loc.column as int == loc_after(final(self).text(), final(self).cur()).1,
    {
        self.next();
        Token { kind: TokenKind::Operator, lit: String::from_str(sym), loc: self.location }
    }

    /// Skips whitespace and comments, then classifies and consumes the next
    /// token. At the end of the input it yields `Eof` with an empty literal.
    pub fn next_token(&mut self) -> (t: Token)
        requires
            old(self).wf(),
        ensures
            final(self).wf(),
            final(self).text() == old(self).text(),
            ({
                let r = spec_next_token(old(self).text(), old(self).cur());
                t.kind == r.0 && t.lit@ == r.1 && final(self).cur() == r.2 && t.loc.line as int
                    == loc_after(old(self).text(), r.2).0 && t.loc.column as int == loc_after(
                    old(self).text(),
                    r.2,
                ).1
            }),
            old(self).cur() <= final(self).cur(),
            t.kind != TokenKind::Eof ==> old(self).cur() < final(self).cur(),
        decreases self.text().len() - self.cur(),
    {
        let ghost ocur = self.cur();
        let ghost otext = self.text();
        self.skip_whitespace();
        proof {
            lemma_ws_end(otext, ocur);
            assert(ocur <= self.cur());
        }
        let c_opt = self.peek();
        match c_opt {
            None => {
                let empty: Vec<char> = Vec::new();
                proof {
                    assert(empty@ =~= Seq::<char>::empty());
                }
                Token { kind: TokenKind::Eof, lit: chars_to_string(&empty), loc: self.location }
            },
            Some(c) => {
                proof {
                    lemma_ident_end(self.text(), self.cur());
                    lemma_digits_end(self.text(), self.cur());
                }
                if alpha_char(c) || c == '_' {
                    proof {
                        assert(is_ident_cont(self.text()[self.cur()]));
                        lemma_ident_end(self.text(), self.cur() + 1);
                    }
                    self.read_ident()
                } else if digit_char(c) {
                    proof {
                        lemma_digits_end(self.text(), self.cur() + 1);
                        let d: int = digits_end(self.text(), self.cur());
                        if d < self.text().len() {
                            lemma_digits_end(self.text(), d + 1);
                        }
                    }
                    self.read_number()
                } else if c == '"' || c == '\'' {
                    proof {
                        lemma_string_end(self.text(), self.cur() + 1, c);
                    }
                    self.read_string(c)
                } else {
                    let nx = self.peek_next();
                    let slash2 = c == '/' && (match nx {
                        Some(c2) => c2 == '/',
                        None => false,
                    });
                    if slash2 {
                        let ghost cstart = self.cur();
                        proof {
                            lemma_comment_end(self.text(), cstart);
                        }
                        loop
                            invariant_except_break
                                comment_end(self.text(), self.cur()) == comment_end(
                                    self.text(),
                                    cstart,
                                ),
                            invariant
                                self.wf(),
                                self.text() == old(self).text(),
                                0 <= cstart <= self.cur(),
                            ensures
                                self.wf(),
                                self.text() == old(self).text(),
                                0 <= cstart <= self.cur(),
                                self.cur() == comment_end(self.text(), cstart),
                            decreases self.text().len() - self.cur(),
                        {
                            match self.next() {
                                Some(ch) => {
                                    if ch == '\n' {
                                        break ;
                                    }
                                },
                                None => {
                                    break ;
                                },
                            }
                        }
                        self.next_token()
                    } else {
                        self.read_unknown()
                    }
                }
            },
        }
    }

    /// Drains the whole token stream: repeatedly reads tokens until a
    /// terminal `Eof` or `Unknown` token is produced, which is included as
    /// the last element.
    pub fn read_all(&mut self) -> (tokens: Vec<Token>)
        requires
            old(self).wf(),
        ensures
            final(self).wf(),
            tokens@.len() > 0,
            models_of(tokens@) == spec_read_all(old(self).text(), old(self).cur()),
            tokens@.last().kind == TokenKind::Eof || tokens@.last().kind == TokenKind::Unknown,
            forall|i: int|
                0 <= i < tokens@.len() - 1 ==> tokens@[i].kind != TokenKind::Eof && tokens@[i].kind
                    != TokenKind::Unknown,
    {
        let ghost otext = self.text();
        let ghost ocur = self.cur();
        let mut tokens: Vec<Token> = Vec::new();
        loop
            invariant_except_break
                spec_read_all(otext, ocur) == models_of(tokens@) + spec_read_all(
                    otext,
                    self.cur(),
                ),
                forall|i: int|
                    0 <= i < tokens@.len() ==> tokens@[i].kind != TokenKind::Eof && tokens@[i].kind
                        != TokenKind::Unknown,
            invariant
                self.wf(),
                self.text() == otext,
                ocur <= self.cur(),
            ensures
                self.wf(),
                self.text() == otext,
                tokens@.len() > 0,
                models_of(tokens@) == spec_read_all(otext, ocur),
                tokens@.last().kind == TokenKind::Eof || tokens@.last().kind == TokenKind::Unknown,
                forall|i: int|
                    0 <= i < tokens@.len() - 1 ==> tokens@[i].kind != TokenKind::Eof
                        && tokens@[i].kind != TokenKind::Unknown,
            decreases otext.len() - self.cur(),
        {
            let ghost cur0 = self.cur();
            let ghost done = models_of(tokens@);
            let token = self.next_token();
            let is_end = token.kind == TokenKind::Eof || token.kind == TokenKind::Unknown;
            proof {
                assert(token@ == spec_token_at(otext, cur0));
            }
            tokens.push(token);
            proof {
                assert(models_of(tokens@) =~= done.push(spec_token_at(otext, cur0)));
                if is_end {
                    assert(spec_read_all(otext, cur0) =~= seq![spec_token_at(otext, cur0)]);
                    assert(spec_read_all(otext, ocur) =~= models_of(tokens@));
                } else {
                    assert(spec_read_all(otext, cur0) == seq![spec_token_at(otext, cur0)]
                        + spec_read_all(otext, self.cur()));
                    assert(spec_read_all(otext, ocur) =~= models_of(tokens@) + spec_read_all(
                        otext,
                        self.cur(),
                    ));
                }
            }
            if is_end {
                break ;
            }
        }
        tokens
    }
}

} // verus!
