//! A recursive-descent parser for formula text.
//!
//! Grammar, lowest precedence first; implication is right-associative,
//! disjunction and conjunction left-associative, negation prefix:
//!
//! ```text
//! expr    := implies
//! implies := or ('>' implies)?
//! or      := and ('+' and)*
//! and     := not ('*' not)*
//! not     := '~' not | primary
//! primary := '(' expr ')' | identifier
//! ```
//!
//! The input is tokenized by discarding whitespace; a maximal run of
//! alphanumeric characters forms one identifier. The functions
//! `spec_parse_*` below state the grammar over the token sequence, and
//! each parsing method is proved to follow them exactly.

use crate::expr::{Expr, SpecExpr};
use crate::text::{char_is_alphanumeric, char_is_whitespace, is_space_char, is_word_char, push_char};
use vstd::prelude::*;
use vstd::string::StringExecFns;
use vstd::string::StrSliceExecFns;

verus! {

/// The token sequence of an input line: its characters with whitespace
/// removed.
pub open spec fn spec_tokens(s: Seq<char>) -> Seq<char> {
    s.filter(|c: char| !is_space_char(c))
}

/// The token at position `p`, if any.
pub open spec fn spec_peek(t: Seq<char>, p: int) -> Option<char> {
    if 0 <= p < t.len() {
        Some(t[p])
    } else {
        None
    }
}

/// The first position at or after `p` whose token is not alphanumeric.
pub open spec fn spec_ident_end(t: Seq<char>, p: int) -> int
    decreases t.len() - p, 0int,
{
    if 0 <= p < t.len() && is_word_char(t[p]) {
        spec_ident_end(t, p + 1)
    } else {
        p
    }
}

/// `primary := '(' expr ')' | identifier`: the parsed tree and the
/// position after it, or `None` when the text is not in the grammar.
pub open spec fn spec_parse_primary(t: Seq<char>, p: int) -> Option<(SpecExpr, int)>
    decreases t.len() - p, 1int,
{
    if !(0 <= p < t.len()) {
        None
    } else if t[p] == '(' {
        match spec_parse_expr(t, p + 1) {
            Some((e, q)) => if 0 <= q < t.len() && t[q] == ')' {
                Some((e, q + 1))
            } else {
                None
            },
            None => None,
        }
    } else if is_word_char(t[p]) {
        let e = spec_ident_end(t, p);
        Some((SpecExpr::Var(t.subrange(p, e)), e))
    } else {
        None
    }
}

/// `not := '~' not | primary`.
pub open spec fn spec_parse_not(t: Seq<char>, p: int) -> Option<(SpecExpr, int)>
    decreases t.len() - p, 2int,
{
    if 0 <= p < t.len() && t[p] == '~' {
        match spec_parse_not(t, p + 1) {
            Some((e, q)) => Some((SpecExpr::Not(Box::new(e)), q)),
            None => None,
        }
    } else {
        spec_parse_primary(t, p)
    }
}

/// `and := not ('*' not)*`, built left-associatively.
pub open spec fn spec_parse_and(t: Seq<char>, p: int) -> Option<(SpecExpr, int)>
    decreases t.len() - p, 3int,
{
    match spec_parse_not(t, p) {
        Some((lhs, q)) => if p < q <= t.len() {
            spec_parse_and_rest(t, q, lhs)
        } else {
            None
        },
        None => None,
    }
}

/// The `('*' not)*` tail of a conjunction, folded onto `lhs`.
pub open spec fn spec_parse_and_rest(t: Seq<char>, p: int, lhs: SpecExpr) -> Option<(SpecExpr, int)>
    decreases t.len() - p, 4int,
{
    if 0 <= p < t.len() && t[p] == '*' {
        match spec_parse_not(t, p + 1) {
            Some((rhs, q)) => if p < q <= t.len() {
                spec_parse_and_rest(t, q, SpecExpr::And(Box::new(lhs), Box::new(rhs)))
            } else {
                None
            },
            None => None,
        }
    } else {
        Some((lhs, p))
    }
}

/// `or := and ('+' and)*`, built left-associatively.
pub open spec fn spec_parse_or(t: Seq<char>, p: int) -> Option<(SpecExpr, int)>
    decreases t.len() - p, 5int,
{
    match spec_parse_and(t, p) {
        Some((lhs, q)) => if p < q <= t.len() {
            spec_parse_or_rest(t, q, lhs)
        } else {
            None
        },
        None => None,
    }
}

/// The `('+' and)*` tail of a disjunction, folded onto `lhs`.
pub open spec fn spec_parse_or_rest(t: Seq<char>, p: int, lhs: SpecExpr) -> Option<(SpecExpr, int)>
    decreases t.len() - p, 6int,
{
    if 0 <= p < t.len() && t[p] == '+' {
        match spec_parse_and(t, p + 1) {
            Some((rhs, q)) => if p < q <= t.len() {
                spec_parse_or_rest(t, q, SpecExpr::Or(Box::new(lhs), Box::new(rhs)))
            } else {
                None
            },
            None => None,
        }
    } else {
        Some((lhs, p))
    }
}

/// `implies := or ('>' implies)?`, right-associative.
pub open spec fn spec_parse_implies(t: Seq<char>, p: int) -> Option<(SpecExpr, int)>
    decreases t.len() - p, 7int,
{
    match spec_parse_or(t, p) {
        Some((lhs, q)) => if p < q <= t.len() {
            if q < t.len() && t[q] == '>' {
                match spec_parse_implies(t, q + 1) {
                    Some((rhs, q2)) => Some((SpecExpr::Implies(Box::new(lhs), Box::new(rhs)), q2)),
                    None => None,
                }
            } else {
                Some((lhs, q))
            }
        } else {
            None
        },
        None => None,
    }
}

/// `expr := implies`: a whole formula starting at `p`.
pub open spec fn spec_parse_expr(t: Seq<char>, p: int) -> Option<(SpecExpr, int)>
    decreases t.len() - p, 8int,
{
    spec_parse_implies(t, p)
}

/// A recursive-descent parser over the token stream of one line.
pub struct Parser {
    tokens: Vec<char>,
    pos: usize,
}

impl Parser {
    /// The token sequence being parsed.
    pub closed spec fn toks(&self) -> Seq<char> {
        self.tokens@
    }

    /// The current position in the token stream.
    pub closed spec fn at(&self) -> int {
        self.pos as int
    }

    /// The position never passes the end of the token stream.
    pub closed spec fn wf(&self) -> bool {
        self.pos <= self.tokens@.len()
    }

    /// A parser over the input with all whitespace discarded.
    pub fn new(input: &str) -> (p: Parser)
        ensures
            p.wf(),
            p.at() == 0,
            p.toks() == spec_tokens(input@),
    {
        let n = input.unicode_len();
        let mut tokens: Vec<char> = Vec::new();
        let mut i: usize = 0;
        while i < n
            invariant
                n == input@.len(),
                i <= n,
                tokens@ == spec_tokens(input@.subrange(0, i as int)),
            decreases n - i,
        {
            let c = input.get_char(i);
            proof {
                reveal_with_fuel(Seq::<_>::filter, 2);
                let pre = input@.subrange(0, i as int);
                let nxt = input@.subrange(0, i as int + 1);
                assert(nxt.drop_last() =~= pre);
                assert(nxt.last() == input@[i as int]);
            }
            if !char_is_whitespace(c) {
                tokens.push(c);
            }
            i += 1;
        }
        proof {
            assert(input@.subrange(0, n as int) =~= input@);
        }
        Parser { tokens, pos: 0 }
    }

    /// The current token, without consuming it.
    pub fn peek(&self) -> (r: Option<char>)
        ensures
            r == spec_peek(self.toks(), self.at()),
    {
        if self.pos < self.tokens.len() {
            Some(self.tokens[self.pos])
        } else {
            None
        }
    }

    /// The current token, consumed: the position advances past it.
    pub fn consume(&mut self) -> (r: Option<char>)
        requires
            old(self).wf(),
        ensures
            final(self).wf(),
            final(self).toks() == old(self).toks(),
            r == spec_peek(old(self).toks(), old(self).at()),
            final(self).at() == if r is Some {
                old(self).at() + 1
            } else {
                old(self).at()
            },
    {
        let c = self.peek();
        if c.is_some() {
            let n = self.tokens.len();
            assert(self.pos < n);
            self.pos += 1;
        }
        c
    }

    /// Parses a complete expression from the current position.
    pub fn parse_expr(&mut self) -> (r: Result<Expr, String>)
        requires
            old(self).wf(),
        ensures
            final(self).wf(),
            final(self).toks() == old(self).toks(),
            old(self).at() <= final(self).at(),
            (match r {
                Ok(e) => spec_parse_expr(old(self).toks(), old(self).at()) == Some(
                    (e@, final(self).at()),
                ) && old(self).at() < final(self).at(),
                Err(_) => spec_parse_expr(old(self).toks(), old(self).at()) is None,
            }),
        decreases self.toks().len() - self.at(), 8int,
    {
        self.parse_implies()
    }

    /// Parses an implication (lowest precedence, right-associative).
    pub fn parse_implies(&mut self) -> (r: Result<Expr, String>)
        requires
            old(self).wf(),
        ensures
            final(self).wf(),
            final(self).toks() == old(self).toks(),
            old(self).at() <= final(self).at(),
            (match r {
                Ok(e) => spec_parse_implies(old(self).toks(), old(self).at()) == Some(
                    (e@, final(self).at()),
                ) && old(self).at() < final(self).at(),
                Err(_) => spec_parse_implies(old(self).toks(), old(self).at()) is None,
            }),
        decreases self.toks().len() - self.at(), 7int,
    {
        let lhs = match self.parse_or() {
            Ok(e) => e,
            Err(m) => {
                return Err(m);
            },
        };
        let c = self.peek();
        if c == Some('>') {
            self.consume();
            match self.parse_implies() {
                Ok(rhs) => Ok(Expr::Implies(Box::new(lhs), Box::new(rhs))),
                Err(m) => Err(m),
            }
        } else {
            Ok(lhs)
        }
    }

    /// Parses a disjunction (left-associative).
    pub fn parse_or(&mut self) -> (r: Result<Expr, String>)
        requires
            old(self).wf(),
        ensures
            final(self).wf(),
            final(self).toks() == old(self).toks(),
            old(self).at() <= final(self).at(),
            (match r {
                Ok(e) => spec_parse_or(old(self).toks(), old(self).at()) == Some(
                    (e@, final(self).at()),
                ) && old(self).at() < final(self).at(),
                Err(_) => spec_parse_or(old(self).toks(), old(self).at()) is None,
            }),
        decreases self.toks().len() - self.at(), 5int,
    {
        let ghost t = self.toks();
        let ghost p0 = self.at();
        let mut lhs = match self.parse_and() {
            Ok(e) => e,
            Err(m) => {
                return Err(m);
            },
        };
        while self.peek() == Some('+')
            invariant
                self.wf(),
                t == old(self).toks(),
                p0 == old(self).at(),
                self.toks() == t,
                p0 < self.at() <= t.len(),
                spec_parse_or(t, p0) == spec_parse_or_rest(t, self.at(), lhs@),
            decreases t.len() - self.at(),
        {
            self.consume();
            match self.parse_and() {
                Ok(rhs) => {
                    lhs = Expr::Or(Box::new(lhs), Box::new(rhs));
                },
                Err(m) => {
                    return Err(m);
                },
            }
        }
        Ok(lhs)
    }

    /// Parses a conjunction (left-associative).
    pub fn parse_and(&mut self) -> (r: Result<Expr, String>)
        requires
            old(self).wf(),
        ensures
            final(self).wf(),
            final(self).toks() == old(self).toks(),
            old(self).at() <= final(self).at(),
            (match r {
                Ok(e) => spec_parse_and(old(self).toks(), old(self).at()) == Some(
                    (e@, final(self).at()),
                ) && old(self).at() < final(self).at(),
                Err(_) => spec_parse_and(old(self).toks(), old(self).at()) is None,
            }),
        decreases self.toks().len() - self.at(), 3int,
    {
        let ghost t = self.toks();
        let ghost p0 = self.at();
        let mut lhs = match self.parse_not() {
            Ok(e) => e,
            Err(m) => {
                return Err(m);
            },
        };
        while self.peek() == Some('*')
            invariant
                self.wf(),
                t == old(self).toks(),
                p0 == old(self).at(),
                self.toks() == t,
                p0 < self.at() <= t.len(),
                spec_parse_and(t, p0) == spec_parse_and_rest(t, self.at(), lhs@),
            decreases t.len() - self.at(),
        {
            self.consume();
            match self.parse_not() {
                Ok(rhs) => {
                    lhs = Expr::And(Box::new(lhs), Box::new(rhs));
                },
                Err(m) => {
                    return Err(m);
                },
            }
        }
        Ok(lhs)
    }

    /// Parses a negation (prefix, right-associative).
    pub fn parse_not(&mut self) -> (r: Result<Expr, String>)
        requires
            old(self).wf(),
        ensures
            final(self).wf(),
            final(self).toks() == old(self).toks(),
            old(self).at() <= final(self).at(),
            (match r {
                Ok(e) => spec_parse_not(old(self).toks(), old(self).at()) == Some(
                    (e@, final(self).at()),
                ) && old(self).at() < final(self).at(),
                Err(_) => spec_parse_not(old(self).toks(), old(self).at()) is None,
            }),
        decreases self.toks().len() - self.at(), 2int,
    {
        let c = self.peek();
        if c == Some('~') {
            self.consume();
            match self.parse_not() {
                Ok(inner) => Ok(Expr::Not(Box::new(inner))),
                Err(m) => Err(m),
            }
        } else {
            self.parse_primary()
        }
    }

    /// Parses a primary expression: a parenthesized formula or a
    /// variable name (a maximal run of alphanumeric characters).
    pub fn parse_primary(&mut self) -> (r: Result<Expr, String>)
        requires
            old(self).wf(),
        ensures
            final(self).wf(),
            final(self).toks() == old(self).toks(),
            old(self).at() <= final(self).at(),
            (match r {
                Ok(e) => spec_parse_primary(old(self).toks(), old(self).at()) == Some(
                    (e@, final(self).at()),
                ) && old(self).at() < final(self).at(),
                Err(_) => spec_parse_primary(old(self).toks(), old(self).at()) is None,
            }),
        decreases self.toks().len() - self.at(), 1int,
    {
        let ghost t = self.toks();
        let ghost p0 = self.at();
        match self.consume() {
            Some(c) => {
                if c == '(' {
                    let e = match self.parse_expr() {
                        Ok(e) => e,
                        Err(m) => {
                            return Err(m);
                        },
                    };
                    if self.consume() == Some(')') {
                        Ok(e)
                    } else {
                        Err(String::from_str("Expected closing parenthesis"))
                    }
                } else if char_is_alphanumeric(c) {
                    let mut s = String::new();
                    push_char(&mut s, c);
                    proof {
                        assert(s@ =~= t.subrange(p0, p0 + 1));
                    }
                    while self.pos < self.tokens.len() && char_is_alphanumeric(
                        self.tokens[self.pos],
                    )
                        invariant
                            self.wf(),
                            t == old(self).toks(),
                            p0 == old(self).at(),
                            self.toks() == t,
                            p0 < self.at() <= t.len(),
                            s@ == t.subrange(p0, self.at()),
                            spec_ident_end(t, p0) == spec_ident_end(t, self.at()),
                        decreases t.len() - self.at(),
                    {
                        push_char(&mut s, self.tokens[self.pos]);
                        self.pos += 1;
                        proof {
                            assert(s@ =~= t.subrange(p0, self.at()));
                        }
                    }
                    Ok(Expr::Var(s))
                } else {
                    Err(String::from_str("Unexpected character"))
                }
            },
            None => Err(String::from_str("Unexpected end of input")),
        }
    }
}

} // verus!
