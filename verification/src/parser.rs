//! The recursive-descent parser: consumes the token sequence over a
//! six-level precedence grammar and builds an expression tree.
//!
//! ```text
//! expr       = equality
//! equality   = relational (("==" | "!=") relational)*
//! relational = add (("<" | "<=" | ">" | ">=") add)*
//! add        = mul (("+" | "-") mul)*
//! mul        = unary (("*" | "/") unary)*
//! unary      = ("+" | "-")? unary | primary
//! primary    = NUMBER | "(" expr ")"
//! ```
//!
//! Two rewrites are part of the grammar's meaning: `a > b` parses to
//! `Lt(b, a)` and `a >= b` to `Le(b, a)` (there are no dedicated `Gt`/`Ge`
//! node kinds), and unary `-e` rewrites to `Sub(Num(0), e)` while unary `+e`
//! is a transparent no-op.

use vstd::prelude::*;
use vstd::string::StrSliceExecFns;

use crate::token::{Token, TokenView};

verus! {

/// An expression tree: a binary operation or a numeric leaf. Literals stand
/// only at the leaves.
#[derive(Debug, PartialEq)]
pub enum Node {
    Add(Box<Node>, Box<Node>),
    Sub(Box<Node>, Box<Node>),
    Mul(Box<Node>, Box<Node>),
    Div(Box<Node>, Box<Node>),
    /// `==`
    Eq(Box<Node>, Box<Node>),
    /// `!=`
    Ne(Box<Node>, Box<Node>),
    /// `<`; also carries `>` with its operands swapped
    Lt(Box<Node>, Box<Node>),
    /// `<=`; also carries `>=` with its operands swapped
    Le(Box<Node>, Box<Node>),
    Num(u32),
}

/// Why parsing failed; each variant carries the index of the offending
/// token (which may be one past the last token, for truncated input).
#[derive(Clone, Copy, Debug, Eq, PartialEq, Structural)]
pub enum ParseError {
    /// A number or an opening parenthesis was expected.
    ExpectedOperand(usize),
    /// A closing parenthesis was expected.
    ExpectedCloseParen(usize),
}

/// Is `t` the one-character symbol `c`?
pub open spec fn sym_is(t: TokenView, c: char) -> bool {
    t == TokenView::Sym(seq![c])
}

/// Is `t` the two-character symbol `c0 c1`?
pub open spec fn sym_is2(t: TokenView, c0: char, c1: char) -> bool {
    t == TokenView::Sym(seq![c0, c1])
}

/// What one production returns: the parsed node and the position of the
/// first unconsumed token, or the error that stops the parse.
///
/// Every production consumes at least one token on success, so the returned
/// position is beyond the one it started at; the bound checks written before
/// each recursive tail (`i < j <= ts.len()`) only discharge the termination
/// measure and never fail on a reachable path.
pub open spec fn spec_primary(ts: Seq<TokenView>, i: int) -> Result<(Node, int), ParseError>
    decreases ts.len() - i, 0int,
{
    if 0 <= i < ts.len() {
        match ts[i] {
            TokenView::Int(n) => Ok((Node::Num(n), i + 1)),
            TokenView::Sym(_) => if sym_is(ts[i], '(') {
                match spec_expr(ts, i + 1) {
                    Ok((inner, j)) => if 0 <= j < ts.len() && sym_is(ts[j], ')') {
                        Ok((inner, j + 1))
                    } else {
                        Err(ParseError::ExpectedCloseParen(j as usize))
                    },
                    Err(e) => Err(e),
                }
            } else {
                Err(ParseError::ExpectedOperand(i as usize))
            },
        }
    } else {
        Err(ParseError::ExpectedOperand(i as usize))
    }
}

pub open spec fn spec_unary(ts: Seq<TokenView>, i: int) -> Result<(Node, int), ParseError>
    decreases ts.len() - i, 1int,
{
    if 0 <= i < ts.len() && sym_is(ts[i], '+') {
        spec_unary(ts, i + 1)
    } else if 0 <= i < ts.len() && sym_is(ts[i], '-') {
        match spec_unary(ts, i + 1) {
            Ok((rhs, j)) => Ok((Node::Sub(Box::new(Node::Num(0)), Box::new(rhs)), j)),
            Err(e) => Err(e),
        }
    } else {
        spec_primary(ts, i)
    }
}

pub open spec fn spec_mul(ts: Seq<TokenView>, i: int) -> Result<(Node, int), ParseError>
    decreases ts.len() - i, 3int,
{
    match spec_unary(ts, i) {
        Ok((n, j)) => if i < j <= ts.len() {
            spec_mul_rest(ts, n, j)
        } else {
            Err(ParseError::ExpectedOperand(i as usize))
        },
        Err(e) => Err(e),
    }
}

pub open spec fn spec_mul_rest(ts: Seq<TokenView>, acc: Node, i: int) -> Result<
    (Node, int),
    ParseError,
>
    decreases ts.len() - i, 2int,
{
    if 0 <= i < ts.len() && sym_is(ts[i], '*') {
        match spec_unary(ts, i + 1) {
            Ok((rhs, j)) => if i < j <= ts.len() {
                spec_mul_rest(ts, Node::Mul(Box::new(acc), Box::new(rhs)), j)
            } else {
                Err(ParseError::ExpectedOperand(i as usize))
            },
            Err(e) => Err(e),
        }
    } else if 0 <= i < ts.len() && sym_is(ts[i], '/') {
        match spec_unary(ts, i + 1) {
            Ok((rhs, j)) => if i < j <= ts.len() {
                spec_mul_rest(ts, Node::Div(Box::new(acc), Box::new(rhs)), j)
            } else {
                Err(ParseError::ExpectedOperand(i as usize))
            },
            Err(e) => Err(e),
        }
    } else {
        Ok((acc, i))
    }
}

pub open spec fn spec_add(ts: Seq<TokenView>, i: int) -> Result<(Node, int), ParseError>
    decreases ts.len() - i, 5int,
{
    match spec_mul(ts, i) {
        Ok((n, j)) => if i < j <= ts.len() {
            spec_add_rest(ts, n, j)
        } else {
            Err(ParseError::ExpectedOperand(i as usize))
        },
        Err(e) => Err(e),
    }
}

pub open spec fn spec_add_rest(ts: Seq<TokenView>, acc: Node, i: int) -> Result<
    (Node, int),
    ParseError,
>
    decreases ts.len() - i, 4int,
{
    if 0 <= i < ts.len() && sym_is(ts[i], '+') {
        match spec_mul(ts, i + 1) {
            Ok((rhs, j)) => if i < j <= ts.len() {
                spec_add_rest(ts, Node::Add(Box::new(acc), Box::new(rhs)), j)
            } else {
                Err(ParseError::ExpectedOperand(i as usize))
            },
            Err(e) => Err(e),
        }
    } else if 0 <= i < ts.len() && sym_is(ts[i], '-') {
        match spec_mul(ts, i + 1) {
            Ok((rhs, j)) => if i < j <= ts.len() {
                spec_add_rest(ts, Node::Sub(Box::new(acc), Box::new(rhs)), j)
            } else {
                Err(ParseError::ExpectedOperand(i as usize))
            },
            Err(e) => Err(e),
        }
    } else {
        Ok((acc, i))
    }
}

pub open spec fn spec_relational(ts: Seq<TokenView>, i: int) -> Result<(Node, int), ParseError>
    decreases ts.len() - i, 7int,
{
    match spec_add(ts, i) {
        Ok((n, j)) => if i < j <= ts.len() {
            spec_relational_rest(ts, n, j)
        } else {
            Err(ParseError::ExpectedOperand(i as usize))
        },
        Err(e) => Err(e),
    }
}

/// `a > b` is recorded as `Lt(b, a)` and `a >= b` as `Le(b, a)`: the
/// greater-than forms swap their operands instead of having node kinds of
/// their own.
pub open spec fn spec_relational_rest(ts: Seq<TokenView>, acc: Node, i: int) -> Result<
    (Node, int),
    ParseError,
>
    decreases ts.len() - i, 6int,
{
    if 0 <= i < ts.len() && sym_is(ts[i], '<') {
        match spec_add(ts, i + 1) {
            Ok((rhs, j)) => if i < j <= ts.len() {
                spec_relational_rest(ts, Node::Lt(Box::new(acc), Box::new(rhs)), j)
            } else {
                Err(ParseError::ExpectedOperand(i as usize))
            },
            Err(e) => Err(e),
        }
    } else if 0 <= i < ts.len() && sym_is2(ts[i], '<', '=') {
        match spec_add(ts, i + 1) {
            Ok((rhs, j)) => if i < j <= ts.len() {
                spec_relational_rest(ts, Node::Le(Box::new(acc), Box::new(rhs)), j)
            } else {
                Err(ParseError::ExpectedOperand(i as usize))
            },
            Err(e) => Err(e),
        }
    } else if 0 <= i < ts.len() && sym_is(ts[i], '>') {
        match spec_add(ts, i + 1) {
            Ok((rhs, j)) => if i < j <= ts.len() {
                spec_relational_rest(ts, Node::Lt(Box::new(rhs), Box::new(acc)), j)
            } else {
                Err(ParseError::ExpectedOperand(i as usize))
            },
            Err(e) => Err(e),
        }
    } else if 0 <= i < ts.len() && sym_is2(ts[i], '>', '=') {
        match spec_add(ts, i + 1) {
            Ok((rhs, j)) => if i < j <= ts.len() {
                spec_relational_rest(ts, Node::Le(Box::new(rhs), Box::new(acc)), j)
            } else {
                Err(ParseError::ExpectedOperand(i as usize))
            },
            Err(e) => Err(e),
        }
    } else {
        Ok((acc, i))
    }
}

pub open spec fn spec_equality(ts: Seq<TokenView>, i: int) -> Result<(Node, int), ParseError>
    decreases ts.len() - i, 9int,
{
    match spec_relational(ts, i) {
        Ok((n, j)) => if i < j <= ts.len() {
            spec_equality_rest(ts, n, j)
        } else {
            Err(ParseError::ExpectedOperand(i as usize))
        },
        Err(e) => Err(e),
    }
}

pub open spec fn spec_equality_rest(ts: Seq<TokenView>, acc: Node, i: int) -> Result<
    (Node, int),
    ParseError,
>
    decreases ts.len() - i, 8int,
{
    if 0 <= i < ts.len() && sym_is2(ts[i], '=', '=') {
        match spec_relational(ts, i + 1) {
            Ok((rhs, j)) => if i < j <= ts.len() {
                spec_equality_rest(ts, Node::Eq(Box::new(acc), Box::new(rhs)), j)
            } else {
                Err(ParseError::ExpectedOperand(i as usize))
            },
            Err(e) => Err(e),
        }
    } else if 0 <= i < ts.len() && sym_is2(ts[i], '!', '=') {
        match spec_relational(ts, i + 1) {
            Ok((rhs, j)) => if i < j <= ts.len() {
                spec_equality_rest(ts, Node::Ne(Box::new(acc), Box::new(rhs)), j)
            } else {
                Err(ParseError::ExpectedOperand(i as usize))
            },
            Err(e) => Err(e),
        }
    } else {
        Ok((acc, i))
    }
}

/// The whole grammar: an expression parsed from position `i`.
pub open spec fn spec_expr(ts: Seq<TokenView>, i: int) -> Result<(Node, int), ParseError>
    decreases ts.len() - i, 10int,
{
    spec_equality(ts, i)
}

/// Is the token the one-character symbol `c`?
fn tok_is1(t: &Token, c: char) -> (b: bool)
    ensures
        b == sym_is(t@, c),
{
    match t {
        Token::Reserved(s) => {
            let sl: &str = s.as_str();
            if sl.unicode_len() == 1 {
                let b = sl.get_char(0) == c;
                proof {
                    if b {
                        assert(s@ =~= seq![c]);
                    }
                }
                b
            } else {
                false
            }
        },
        Token::Num(_) => false,
    }
}

/// Is the token the two-character symbol `c0 c1`?
fn tok_is2(t: &Token, c0: char, c1: char) -> (b: bool)
    ensures
        b == sym_is2(t@, c0, c1),
{
    match t {
        Token::Reserved(s) => {
            let sl: &str = s.as_str();
            if sl.unicode_len() == 2 {
                let b = sl.get_char(0) == c0 && sl.get_char(1) == c1;
                proof {
                    if b {
                        assert(s@ =~= seq![c0, c1]);
                    }
                }
                b
            } else {
                false
            }
        },
        Token::Num(_) => false,
    }
}

/// The parser: a token sequence and a forward-only cursor into it.
pub struct Parser {
    tokens: Vec<Token>,
    idx: usize,
}

impl Parser {
    /// The token sequence, as spec values.
    pub closed spec fn toks(&self) -> Seq<TokenView> {
        self.tokens.deep_view()
    }

    /// The cursor: the index of the next token to consume.
    pub closed spec fn pos(&self) -> int {
        self.idx as int
    }

    pub fn new(tokens: Vec<Token>) -> (p: Parser)
        ensures
            p.toks() == tokens.deep_view(),
            p.pos() == 0,
    {
        Parser { tokens, idx: 0 }
    }

    /// Parses one expression starting at the cursor. On success the cursor
    /// stands on the first unconsumed token: trailing tokens after a
    /// structurally complete expression are left in place and are not an
    /// error. Reaching the end of input while a production still expects a
    /// token is an error, never silently tolerated.
    pub fn parse(&mut self) -> (r: Result<Node, ParseError>)
        ensures
            final(self).toks() == old(self).toks(),
            match r {
                Ok(node) => {
                    &&& spec_expr(old(self).toks(), old(self).pos()) == Ok::<
                        (Node, int),
                        ParseError,
                    >((node, final(self).pos()))
                    &&& old(self).pos() < final(self).pos() <= final(self).toks().len()
                },
                Err(e) => spec_expr(old(self).toks(), old(self).pos()) == Err::<
                    (Node, int),
                    ParseError,
                >(e),
            },
    {
        self.expr()
    }

    fn expr(&mut self) -> (r: Result<Node, ParseError>)
        ensures
            final(self).toks() == old(self).toks(),
            match r {
                Ok(node) => {
                    &&& spec_expr(old(self).toks(), old(self).pos()) == Ok::<
                        (Node, int),
                        ParseError,
                    >((node, final(self).pos()))
                    &&& old(self).pos() < final(self).pos() <= final(self).toks().len()
                },
                Err(e) => spec_expr(old(self).toks(), old(self).pos()) == Err::<
                    (Node, int),
                    ParseError,
                >(e),
            },
        decreases self.tokens@.len() - self.idx, 10int,
    {
        self.equality()
    }

    fn equality(&mut self) -> (r: Result<Node, ParseError>)
        ensures
            final(self).toks() == old(self).toks(),
            match r {
                Ok(node) => {
                    &&& spec_equality(old(self).toks(), old(self).pos()) == Ok::<
                        (Node, int),
                        ParseError,
                    >((node, final(self).pos()))
                    &&& old(self).pos() < final(self).pos() <= final(self).toks().len()
                },
                Err(e) => spec_equality(old(self).toks(), old(self).pos()) == Err::<
                    (Node, int),
                    ParseError,
                >(e),
            },
        decreases self.tokens@.len() - self.idx, 9int,
    {
        let ghost ts = self.toks();
        let ghost i0 = self.pos();
        let mut node = match self.relational() {
            Ok(n) => n,
            Err(e) => {
                return Err(e);
            },
        };
        loop
            invariant
                ts == old(self).toks(),
                i0 == old(self).pos(),
                self.toks() == ts,
                i0 < self.pos() <= ts.len(),
                spec_equality(ts, i0) == spec_equality_rest(ts, node, self.pos()),
            ensures
                self.toks() == ts,
                i0 < self.pos() <= ts.len(),
                spec_equality(ts, i0) == Ok::<(Node, int), ParseError>((node, self.pos())),
            decreases self.tokens@.len() - self.idx,
        {
            if self.idx < self.tokens.len() && tok_is2(&self.tokens[self.idx], '=', '=') {
                self.idx = self.idx + 1;
                let rhs = match self.relational() {
                    Ok(n) => n,
                    Err(e) => {
                        return Err(e);
                    },
                };
                node = Node::Eq(Box::new(node), Box::new(rhs));
            } else if self.idx < self.tokens.len() && tok_is2(&self.tokens[self.idx], '!', '=') {
                self.idx = self.idx + 1;
                let rhs = match self.relational() {
                    Ok(n) => n,
                    Err(e) => {
                        return Err(e);
                    },
                };
                node = Node::Ne(Box::new(node), Box::new(rhs));
            } else {
                break ;
            }
        }
        Ok(node)
    }

    fn relational(&mut self) -> (r: Result<Node, ParseError>)
        ensures
            final(self).toks() == old(self).toks(),
            match r {
                Ok(node) => {
                    &&& spec_relational(old(self).toks(), old(self).pos()) == Ok::<
                        (Node, int),
                        ParseError,
                    >((node, final(self).pos()))
                    &&& old(self).pos() < final(self).pos() <= final(self).toks().len()
                },
                Err(e) => spec_relational(old(self).toks(), old(self).pos()) == Err::<
                    (Node, int),
                    ParseError,
                >(e),
            },
        decreases self.tokens@.len() - self.idx, 7int,
    {
        let ghost ts = self.toks();
        let ghost i0 = self.pos();
        let mut node = match self.add() {
            Ok(n) => n,
            Err(e) => {
                return Err(e);
            },
        };
        loop
            invariant
                ts == old(self).toks(),
                i0 == old(self).pos(),
                self.toks() == ts,
                i0 < self.pos() <= ts.len(),
                spec_relational(ts, i0) == spec_relational_rest(ts, node, self.pos()),
            ensures
                self.toks() == ts,
                i0 < self.pos() <= ts.len(),
                spec_relational(ts, i0) == Ok::<(Node, int), ParseError>((node, self.pos())),
            decreases self.tokens@.len() - self.idx,
        {
            if self.idx < self.tokens.len() && tok_is1(&self.tokens[self.idx], '<') {
                self.idx = self.idx + 1;
                let rhs = match self.add() {
                    Ok(n) => n,
                    Err(e) => {
                        return Err(e);
                    },
                };
                node = Node::Lt(Box::new(node), Box::new(rhs));
            } else if self.idx < self.tokens.len() && tok_is2(&self.tokens[self.idx], '<', '=') {
                self.idx = self.idx + 1;
                let rhs = match self.add() {
                    Ok(n) => n,
                    Err(e) => {
                        return Err(e);
                    },
                };
                node = Node::Le(Box::new(node), Box::new(rhs));
            } else if self.idx < self.tokens.len() && tok_is1(&self.tokens[self.idx], '>') {
                self.idx = self.idx + 1;
                let rhs = match self.add() {
                    Ok(n) => n,
                    Err(e) => {
                        return Err(e);
                    },
                };
                node = Node::Lt(Box::new(rhs), Box::new(node));
            } else if self.idx < self.tokens.len() && tok_is2(&self.tokens[self.idx], '>', '=') {
                self.idx = self.idx + 1;
                let rhs = match self.add() {
                    Ok(n) => n,
                    Err(e) => {
                        return Err(e);
                    },
                };
                node = Node::Le(Box::new(rhs), Box::new(node));
            } else {
                break ;
            }
        }
        Ok(node)
    }

    fn add(&mut self) -> (r: Result<Node, ParseError>)
        ensures
            final(self).toks() == old(self).toks(),
            match r {
                Ok(node) => {
                    &&& spec_add(old(self).toks(), old(self).pos()) == Ok::<
                        (Node, int),
                        ParseError,
                    >((node, final(self).pos()))
                    &&& old(self).pos() < final(self).pos() <= final(self).toks().len()
                },
                Err(e) => spec_add(old(self).toks(), old(self).pos()) == Err::<
                    (Node, int),
                    ParseError,
                >(e),
            },
        decreases self.tokens@.len() - self.idx, 5int,
    {
        let ghost ts = self.toks();
        let ghost i0 = self.pos();
        let mut node = match self.mul() {
            Ok(n) => n,
            Err(e) => {
                return Err(e);
            },
        };
        loop
            invariant
                ts == old(self).toks(),
                i0 == old(self).pos(),
                self.toks() == ts,
                i0 < self.pos() <= ts.len(),
                spec_add(ts, i0) == spec_add_rest(ts, node, self.pos()),
            ensures
                self.toks() == ts,
                i0 < self.pos() <= ts.len(),
                spec_add(ts, i0) == Ok::<(Node, int), ParseError>((node, self.pos())),
            decreases self.tokens@.len() - self.idx,
        {
            if self.idx < self.tokens.len() && tok_is1(&self.tokens[self.idx], '+') {
                self.idx = self.idx + 1;
                let rhs = match self.mul() {
                    Ok(n) => n,
                    Err(e) => {
                        return Err(e);
                    },
                };
                node = Node::Add(Box::new(node), Box::new(rhs));
            } else if self.idx < self.tokens.len() && tok_is1(&self.tokens[self.idx], '-') {
                self.idx = self.idx + 1;
                let rhs = match self.mul() {
                    Ok(n) => n,
                    Err(e) => {
                        return Err(e);
                    },
                };
                node = Node::Sub(Box::new(node), Box::new(rhs));
            } else {
                break ;
            }
        }
        Ok(node)
    }

    fn mul(&mut self) -> (r: Result<Node, ParseError>)
        ensures
            final(self).toks() == old(self).toks(),
            match r {
                Ok(node) => {
                    &&& spec_mul(old(self).toks(), old(self).pos()) == Ok::<
                        (Node, int),
                        ParseError,
                    >((node, final(self).pos()))
                    &&& old(self).pos() < final(self).pos() <= final(self).toks().len()
                },
                Err(e) => spec_mul(old(self).toks(), old(self).pos()) == Err::<
                    (Node, int),
                    ParseError,
                >(e),
            },
        decreases self.tokens@.len() - self.idx, 3int,
    {
        let ghost ts = self.toks();
        let ghost i0 = self.pos();
        let mut node = match self.unary() {
            Ok(n) => n,
            Err(e) => {
                return Err(e);
            },
        };
        loop
            invariant
                ts == old(self).toks(),
                i0 == old(self).pos(),
                self.toks() == ts,
                i0 < self.pos() <= ts.len(),
                spec_mul(ts, i0) == spec_mul_rest(ts, node, self.pos()),
            ensures
                self.toks() == ts,
                i0 < self.pos() <= ts.len(),
                spec_mul(ts, i0) == Ok::<(Node, int), ParseError>((node, self.pos())),
            decreases self.tokens@.len() - self.idx,
        {
            if self.idx < self.tokens.len() && tok_is1(&self.tokens[self.idx], '*') {
                self.idx = self.idx + 1;
                let rhs = match self.unary() {
                    Ok(n) => n,
                    Err(e) => {
                        return Err(e);
                    },
                };
                node = Node::Mul(Box::new(node), Box::new(rhs));
            } else if self.idx < self.tokens.len() && tok_is1(&self.tokens[self.idx], '/') {
                self.idx = self.idx + 1;
                let rhs = match self.unary() {
                    Ok(n) => n,
                    Err(e) => {
                        return Err(e);
                    },
                };
                node = Node::Div(Box::new(node), Box::new(rhs));
            } else {
                break ;
            }
        }
        Ok(node)
    }

    fn unary(&mut self) -> (r: Result<Node, ParseError>)
        ensures
            final(self).toks() == old(self).toks(),
            match r {
                Ok(node) => {
                    &&& spec_unary(old(self).toks(), old(self).pos()) == Ok::<
                        (Node, int),
                        ParseError,
                    >((node, final(self).pos()))
                    &&& old(self).pos() < final(self).pos() <= final(self).toks().len()
                },
                Err(e) => spec_unary(old(self).toks(), old(self).pos()) == Err::<
                    (Node, int),
                    ParseError,
                >(e),
            },
        decreases self.tokens@.len() - self.idx, 1int,
    {
        if self.idx < self.tokens.len() && tok_is1(&self.tokens[self.idx], '+') {
            self.idx = self.idx + 1;
            return self.unary();
        }
        if self.idx < self.tokens.len() && tok_is1(&self.tokens[self.idx], '-') {
            self.idx = self.idx + 1;
            let rhs = match self.unary() {
                Ok(n) => n,
                Err(e) => {
                    return Err(e);
                },
            };
            return Ok(Node::Sub(Box::new(Node::Num(0)), Box::new(rhs)));
        }
        self.primary()
    }

    fn primary(&mut self) -> (r: Result<Node, ParseError>)
        ensures
            final(self).toks() == old(self).toks(),
            match r {
                Ok(node) => {
                    &&& spec_primary(old(self).toks(), old(self).pos()) == Ok::<
                        (Node, int),
                        ParseError,
                    >((node, final(self).pos()))
                    &&& old(self).pos() < final(self).pos() <= final(self).toks().len()
                },
                Err(e) => spec_primary(old(self).toks(), old(self).pos()) == Err::<
                    (Node, int),
                    ParseError,
                >(e),
            },
        decreases self.tokens@.len() - self.idx, 0int,
    {
        if self.idx >= self.tokens.len() {
            return Err(ParseError::ExpectedOperand(self.idx));
        }
        match &self.tokens[self.idx] {
            Token::Num(n) => {
                let v = *n;
                self.idx = self.idx + 1;
                Ok(Node::Num(v))
            },
            Token::Reserved(_) => {
                if tok_is1(&self.tokens[self.idx], '(') {
                    self.idx = self.idx + 1;
                    let inner = match self.expr() {
                        Ok(n) => n,
                        Err(e) => {
                            return Err(e);
                        },
                    };
                    if self.idx < self.tokens.len() && tok_is1(&self.tokens[self.idx], ')') {
                        self.idx = self.idx + 1;
                        Ok(inner)
                    } else {
                        Err(ParseError::ExpectedCloseParen(self.idx))
                    }
                } else {
                    Err(ParseError::ExpectedOperand(self.idx))
                }
            },
        }
    }
}

} // verus!
