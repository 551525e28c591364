use vstd::prelude::*;
use crate::errors::{lemma_diagnostic_in_source, located, same_diagnostic, Error, ErrorMessage, ParseError};
use crate::expr::{tree, Node, Op, Tree, Var};
use crate::lex::{lemma_lex_from_tokens, lex_from, lexes_to};
use crate::text::chars_of;
use crate::tokens::{Kind, Token, TokenType};

verus! {

/// A parse of some tokens: the tree and the position after it; or an error and the position
/// of the token it blames.
pub type Parsed = Result<(Tree, int), (ParseError, int)>;

/// The binary operator that a token stands for, if any.
pub open spec fn binary_op(k: Kind) -> Option<Op> {
    match k {
        Kind::Plus => Some(Op::Add),
        Kind::Minus => Some(Op::Subtract),
        Kind::Asterisk => Some(Op::Multiply),
        Kind::Slash => Some(Op::Divide),
        Kind::Greater => Some(Op::Greater),
        Kind::GreaterThanEqualTo => Some(Op::GreaterThanEqualTo),
        Kind::Less => Some(Op::Less),
        Kind::LessThanEqualTo => Some(Op::LessThanEqualTo),
        Kind::ComparisonEqual => Some(Op::ComparisonEqual),
        Kind::StrictComparisonEqual => Some(Op::StrictComparisonEqual),
        Kind::NotEqual => Some(Op::NotEqual),
        Kind::NotStrictEqual => Some(Op::NotStrictEqual),
        _ => None,
    }
}

/// How loosely an operator binds: comparisons 2, `+ -` 1, `* /` 0.
pub open spec fn op_level(op: Op) -> nat {
    match op {
        Op::Add | Op::Subtract => 1,
        Op::Multiply | Op::Divide => 0,
        _ => 2,
    }
}

/// A primary expression over tokens `p..hi`: a literal, an identifier, or an expression in
/// parentheses.
pub open spec fn primary(ks: Seq<Kind>, p: int, hi: int) -> Parsed
    decreases hi - p, 0int,
{
    if p < 0 || p >= hi {
        Err((ParseError::UnexpectedTermination, p))
    } else {
        match ks[p] {
            Kind::Number(t) => Ok((Tree::Number(t), p + 1)),
            Kind::Str(t) => Ok((Tree::Str(t), p + 1)),
            Kind::True => Ok((Tree::Boolean(true), p + 1)),
            Kind::False => Ok((Tree::Boolean(false), p + 1)),
            Kind::Identifier(t) => Ok((Tree::Identifier(t), p + 1)),
            Kind::LParen => match binary(ks, p + 1, hi, 2) {
                Ok((e, q)) => if q >= hi {
                    Err((ParseError::UnexpectedTermination, q))
                } else if ks[q] is RParen {
                    Ok((e, q + 1))
                } else {
                    Err((ParseError::UnexpectedToken, q))
                },
                Err(x) => Err(x),
            },
            _ => Err((ParseError::UnexpectedToken, p)),
        }
    }
}

/// A primary expression under any number of `!`.
pub open spec fn unary(ks: Seq<Kind>, p: int, hi: int) -> Parsed
    decreases hi - p, 1int,
{
    if 0 <= p < hi && ks[p] is Not {
        match unary(ks, p + 1, hi) {
            Ok((e, q)) => Ok((Tree::UnaryExpr(Kind::Not, Box::new(e)), q)),
            Err(x) => Err(x),
        }
    } else {
        primary(ks, p, hi)
    }
}

/// Operators of level `n` and below, each level grouping to the left.
pub open spec fn binary(ks: Seq<Kind>, p: int, hi: int, n: nat) -> Parsed
    decreases hi - p, n + 2,
{
    let first = if n == 0 {
        unary(ks, p, hi)
    } else {
        binary(ks, p, hi, (n - 1) as nat)
    };
    match first {
        // the position always advances (the parser's contracts show it); the test keeps the
        // definition well founded
        Ok((l, q)) => if p < q <= hi {
            binary_rest(ks, l, q, hi, n)
        } else {
            Ok((l, q))
        },
        Err(x) => Err(x),
    }
}

/// Continues a chain of level-`n` operators whose left operand `lhs` ends before `q`.
pub open spec fn binary_rest(ks: Seq<Kind>, lhs: Tree, q: int, hi: int, n: nat) -> Parsed
    decreases hi - q, n + 3,
{
    if 0 <= q < hi && binary_op(ks[q]) is Some && op_level(binary_op(ks[q])->Some_0) == n {
        let op = binary_op(ks[q])->Some_0;
        let next = if n == 0 {
            unary(ks, q + 1, hi)
        } else {
            binary(ks, q + 1, hi, (n - 1) as nat)
        };
        match next {
            Ok((r, q2)) => if q < q2 <= hi {
                binary_rest(ks, Tree::BinaryExpr(op, Box::new(lhs), Box::new(r)), q2, hi, n)
            } else {
                Ok((lhs, q))
            },
            Err(x) => Err(x),
        }
    } else {
        Ok((lhs, q))
    }
}

/// An expression that takes up all of tokens `p..hi`.
pub open spec fn whole(ks: Seq<Kind>, p: int, hi: int) -> Result<Tree, (ParseError, int)> {
    match binary(ks, p, hi, 2) {
        Ok((e, q)) => if q < hi {
            Err((ParseError::UnexpectedToken, q))
        } else {
            Ok(e)
        },
        Err(x) => Err(x),
    }
}

/// Position of the first `;` or end of input at or after `i`, or the number of tokens.
pub open spec fn stmt_end(ks: Seq<Kind>, i: int) -> int
    decreases ks.len() - i,
{
    if i < 0 || i >= ks.len() {
        ks.len() as int
    } else if ks[i] is Semicolon || ks[i] is EOI {
        i
    } else {
        stmt_end(ks, i + 1)
    }
}

/// The statement that starts at `i`, and the position after it: a `let` or `const` binding,
/// whose value runs to the next `;` or end of input, or an expression, which ends where no
/// operator continues it.
pub open spec fn statement(ks: Seq<Kind>, i: int) -> Parsed {
    let j = stmt_end(ks, i);
    if i < 0 || i >= ks.len() {
        Err((ParseError::UnexpectedTermination, i))
    } else if ks[i] is Let || ks[i] is Const {
        let binding = if ks[i] is Let {
            Var::Let
        } else {
            Var::Const
        };
        if !(i + 1 < j && ks[i + 1] is Identifier) {
            Err((ParseError::InvalidIdentifier, i + 1))
        } else if i + 2 >= j {
            Err((ParseError::UnexpectedTermination, i + 2))
        } else if !(ks[i + 2] is Equal) {
            Err((ParseError::UnexpectedToken, i + 2))
        } else {
            match whole(ks, i + 3, j) {
                Ok(v) => Ok(
                    (
                        Tree::Variable(
                            binding,
                            Box::new(Tree::Identifier(ks[i + 1]->Identifier_0)),
                            Box::new(v),
                        ),
                        j,
                    ),
                ),
                Err(x) => Err(x),
            }
        }
    } else {
        binary(ks, i, j, 2)
    }
}

/// The trees of the statements from `i` on, the last one the end of input; or the first error.
pub open spec fn program(ks: Seq<Kind>, i: int) -> Result<Seq<Tree>, (ParseError, int)>
    decreases ks.len() - i,
{
    if i < 0 || i >= ks.len() {
        Ok(seq![])
    } else if ks[i] is EOI {
        Ok(seq![Tree::EOI])
    } else if ks[i] is Semicolon {
        program(ks, i + 1)
    } else {
        match statement(ks, i) {
            Ok((t, j)) => {
                let next = if j < ks.len() && ks[j] is Semicolon {
                    j + 1
                } else {
                    j
                };
                if i < next <= ks.len() {
                    match program(ks, next) {
                        Ok(rest) => Ok(seq![t] + rest),
                        Err(x) => Err(x),
                    }
                } else {
                    Ok(seq![t])
                }
            },
            Err(x) => Err(x),
        }
    }
}

/// Whitespace and comments, which carry no syntax.
pub open spec fn trivia(k: Kind) -> bool {
    k is Comment || k is DocComment || k is Whitespace
}

/// The tokens of `ts` that are not trivia, in order.
pub open spec fn significant<'a>(ts: Seq<Token<'a>>) -> Seq<Token<'a>>
    decreases ts.len(),
{
    if ts.len() == 0 {
        seq![]
    } else if trivia(ts[0].token_type@) {
        significant(ts.drop_first())
    } else {
        seq![ts[0]] + significant(ts.drop_first())
    }
}

/// The kinds of a sequence of tokens.
pub open spec fn kinds(ts: Seq<Token>) -> Seq<Kind> {
    ts.map_values(|t: Token| t.token_type@)
}

/// The mathematical value of an executable parse result.
pub open spec fn parsed(r: Result<(Node, usize), (ParseError, usize)>) -> Parsed {
    match r {
        Ok((n, q)) => Ok((tree(n), q as int)),
        Err((e, k)) => Err((e, k as int)),
    }
}

/// Recursive descent over the significant tokens of a source.
pub struct Parser<'a> {
    pub tokens: Vec<Token<'a>>,
    pub index: usize,
}

/// The binary operator that a token type stands for, if any.
pub fn tok_to_op(tok: &TokenType) -> (r: Option<Op>)
    ensures
        r == binary_op(tok@),
{
    match tok {
        TokenType::Plus => Some(Op::Add),
        TokenType::Minus => Some(Op::Subtract),
        TokenType::Asterisk => Some(Op::Multiply),
        TokenType::Slash => Some(Op::Divide),
        TokenType::Greater => Some(Op::Greater),
        TokenType::GreaterThanEqualTo => Some(Op::GreaterThanEqualTo),
        TokenType::Less => Some(Op::Less),
        TokenType::LessThanEqualTo => Some(Op::LessThanEqualTo),
        TokenType::ComparisonEqual => Some(Op::ComparisonEqual),
        TokenType::StrictComparisonEqual => Some(Op::StrictComparisonEqual),
        TokenType::NotEqual => Some(Op::NotEqual),
        TokenType::NotStrictEqual => Some(Op::NotStrictEqual),
        _ => None,
    }
}

/// The level of an operator, as `op_level` gives it.
fn level(op: Op) -> (r: usize)
    ensures
        r == op_level(op),
{
    match op {
        Op::Add | Op::Subtract => 1,
        Op::Multiply | Op::Divide => 0,
        _ => 2,
    }
}

impl<'a> Parser<'a> {
    /// The kinds of the tokens being parsed.
    pub open spec fn kinds(&self) -> Seq<Kind> {
        kinds(self.tokens@)
    }

    /// A parser at the first of `tok`, which should hold no trivia.
    pub fn new(tok: Vec<Token<'a>>) -> (r: Parser<'a>)
        ensures
            r.tokens == tok,
            r.index == 0,
    {
        Parser { tokens: tok, index: 0 }
    }

    /// Whether the token at `p` is `;` or the end of input.
    fn ends_statement(&self, p: usize) -> (r: bool)
        requires
            p < self.tokens@.len(),
        ensures
            r == (self.kinds()[p as int] is Semicolon || self.kinds()[p as int] is EOI),
    {
        match self.tokens[p].token_type {
            TokenType::Semicolon | TokenType::EOI => true,
            _ => false,
        }
    }

    /// Whether the token at `p` is `)`.
    fn is_rparen(&self, p: usize) -> (r: bool)
        requires
            p < self.tokens@.len(),
        ensures
            r == (self.kinds()[p as int] is RParen),
    {
        match self.tokens[p].token_type {
            TokenType::RParen => true,
            _ => false,
        }
    }

    /// The primary expression at `p`, within tokens up to `hi`.
    pub fn primary(&self, p: usize, hi: usize) -> (r: Result<(Node, usize), (ParseError, usize)>)
        requires
            p <= hi <= self.tokens@.len(),
        ensures
            r is Err ==> r->Err_0.1 <= hi,
            parsed(r) == primary(self.kinds(), p as int, hi as int),
            r is Ok ==> p < r->Ok_0.1 <= hi,
        decreases hi - p, 0int,
    {
        if p >= hi {
            return Err((ParseError::UnexpectedTermination, p));
        }
        match &self.tokens[p].token_type {
            TokenType::Number(t) => Ok((Node::Number(t.clone()), p + 1)),
            TokenType::String(t) => Ok((Node::String(t.clone()), p + 1)),
            TokenType::True => Ok((Node::Boolean(true), p + 1)),
            TokenType::False => Ok((Node::Boolean(false), p + 1)),
            TokenType::Identifier(t) => Ok((Node::Identifier(t.clone()), p + 1)),
            TokenType::LParen => match self.binary(p + 1, hi, 2) {
                Ok((e, q)) => {
                    if q >= hi {
                        Err((ParseError::UnexpectedTermination, q))
                    } else if self.is_rparen(q) {
                        Ok((e, q + 1))
                    } else {
                        Err((ParseError::UnexpectedToken, q))
                    }
                },
                Err(x) => Err(x),
            },
            _ => Err((ParseError::UnexpectedToken, p)),
        }
    }

    /// The expression at `p` under any number of `!`, within tokens up to `hi`.
    pub fn unary(&self, p: usize, hi: usize) -> (r: Result<(Node, usize), (ParseError, usize)>)
        requires
            p <= hi <= self.tokens@.len(),
        ensures
            r is Err ==> r->Err_0.1 <= hi,
            parsed(r) == unary(self.kinds(), p as int, hi as int),
            r is Ok ==> p < r->Ok_0.1 <= hi,
        decreases hi - p, 1int,
    {
        if p < hi {
            if let TokenType::Not = self.tokens[p].token_type {
                return match self.unary(p + 1, hi) {
                    Ok((e, q)) => Ok((Node::UnaryExpr { operation: TokenType::Not, body: Box::new(e) }, q)),
                    Err(x) => Err(x),
                };
            }
        }
        self.primary(p, hi)
    }

    /// The expression at `p` built from operators of level `n` and below, within tokens up
    /// to `hi`.
    pub fn binary(&self, p: usize, hi: usize, n: usize) -> (r: Result<(Node, usize), (ParseError, usize)>)
        requires
            p <= hi <= self.tokens@.len(),
        ensures
            r is Err ==> r->Err_0.1 <= hi,
            parsed(r) == binary(self.kinds(), p as int, hi as int, n as nat),
            r is Ok ==> p < r->Ok_0.1 <= hi,
        decreases hi - p, n + 2,
    {
        let first = if n == 0 {
            self.unary(p, hi)
        } else {
            self.binary(p, hi, n - 1)
        };
        match first {
            Ok((l, q)) => self.binary_rest(l, q, hi, n),
            Err(x) => Err(x),
        }
    }

    /// Extends `lhs`, which ends before `q`, by the level-`n` operators that follow it.
    pub fn binary_rest(&self, lhs: Node, q: usize, hi: usize, n: usize) -> (r: Result<(Node, usize), (ParseError, usize)>)
        requires
            hi <= self.tokens@.len(),
            q <= hi,
        ensures
            r is Err ==> r->Err_0.1 <= hi,
            parsed(r) == binary_rest(self.kinds(), tree(lhs), q as int, hi as int, n as nat),
            r is Ok ==> q <= r->Ok_0.1 <= hi,
        decreases hi - q, n + 3,
    {
        if q >= hi {
            return Ok((lhs, q));
        }
        let op = match tok_to_op(&self.tokens[q].token_type) {
            Some(op) => op,
            None => return Ok((lhs, q)),
        };
        if level(op) != n {
            return Ok((lhs, q));
        }
        let next = if n == 0 {
            self.unary(q + 1, hi)
        } else {
            self.binary(q + 1, hi, n - 1)
        };
        match next {
            Ok((r, q2)) => {
                let combined = Node::BinaryExpr { operation: op, lhs: Box::new(lhs), rhs: Box::new(r) };
                self.binary_rest(combined, q2, hi, n)
            },
            Err(x) => Err(x),
        }
    }

    /// An expression that takes up all of tokens `p..hi`.
    pub fn whole(&self, p: usize, hi: usize) -> (r: Result<Node, (ParseError, usize)>)
        requires
            p <= hi <= self.tokens@.len(),
        ensures
            r is Err ==> r->Err_0.1 <= hi,
            match r {
                Ok(n) => whole(self.kinds(), p as int, hi as int) == Ok::<Tree, (ParseError, int)>(tree(n)),
                Err((e, k)) => whole(self.kinds(), p as int, hi as int) == Err::<Tree, (ParseError, int)>((e, k as int)),
            },
    {
        match self.binary(p, hi, 2) {
            Ok((e, q)) => {
                if q < hi {
                    Err((ParseError::UnexpectedToken, q))
                } else {
                    Ok(e)
                }
            },
            Err(x) => Err(x),
        }
    }

    /// Position of the first `;` or end of input at or after `from`, or the number of tokens.
    pub fn peek_end_of_statement(&self, from: usize) -> (r: usize)
        requires
            from <= self.tokens@.len(),
        ensures
            r == stmt_end(self.kinds(), from as int),
            from <= r <= self.tokens@.len(),
            forall|k: int| from <= k < r ==> !(self.kinds()[k] is Semicolon || self.kinds()[k] is EOI),
            r < self.tokens@.len() ==> (self.kinds()[r as int] is Semicolon || self.kinds()[r as int] is EOI),
    {
        let mut idx = from;
        while idx < self.tokens.len() && !self.ends_statement(idx)
            invariant
                from <= idx <= self.tokens@.len(),
                stmt_end(self.kinds(), from as int) == stmt_end(self.kinds(), idx as int),
                forall|k: int| from <= k < idx ==> !(self.kinds()[k] is Semicolon || self.kinds()[k] is EOI),
            decreases self.tokens@.len() - idx,
        {
            idx = idx + 1;
        }
        idx
    }

    /// The statement that starts at `i`, and the position after it.
    pub fn expr(&self, i: usize) -> (r: Result<(Node, usize), (ParseError, usize)>)
        ensures
            parsed(r) == statement(self.kinds(), i as int),
            r is Ok ==> i < r->Ok_0.1 <= self.tokens@.len(),
            r is Ok ==> forall|m: int| i <= m < r->Ok_0.1 ==> !(#[trigger] self.kinds()[m] is EOI),
            r is Err && i < self.tokens@.len() ==> r->Err_0.1 <= self.tokens@.len() && forall|m: int|
                i <= m < r->Err_0.1 ==> !(#[trigger] self.kinds()[m] is EOI),
    {
        let n = self.tokens.len();
        if i >= n {
            return Err((ParseError::UnexpectedTermination, i));
        }
        let j = self.peek_end_of_statement(i);
        let ghost ks = self.kinds();
        assert(ks[i as int] == self.tokens@[i as int].token_type@);
        assert(i + 1 < n ==> ks[i + 1] == self.tokens@[i + 1].token_type@);
        assert(i + 2 < n ==> ks[i + 2] == self.tokens@[i + 2].token_type@);
        let binding = match self.tokens[i].token_type {
            TokenType::Let => Some(Var::Let),
            TokenType::Const => Some(Var::Const),
            _ => None,
        };
        match binding {
            Some(binding) => {
                if j - i <= 1 {
                    return Err((ParseError::InvalidIdentifier, i + 1));
                }
                let name = match &self.tokens[i + 1].token_type {
                    TokenType::Identifier(name) => name.clone(),
                    _ => return Err((ParseError::InvalidIdentifier, i + 1)),
                };
                assert(tree(Node::Identifier(name)) == Tree::Identifier(ks[i + 1]->Identifier_0));
                if j - i <= 2 {
                    return Err((ParseError::UnexpectedTermination, i + 2));
                }
                match self.tokens[i + 2].token_type {
                    TokenType::Equal => {},
                    _ => return Err((ParseError::UnexpectedToken, i + 2)),
                }
                match self.whole(i + 3, j) {
                    Ok(value) => Ok(
                        (
                            Node::Variable {
                                variable_type: binding,
                                identifier: Box::new(Node::Identifier(name)),
                                value: Box::new(value),
                            },
                            j,
                        ),
                    ),
                    Err(x) => Err(x),
                }
            },
            None => self.binary(i, j, 2),
        }
    }

    /// Parses every statement, up to and including the end of input.
    pub fn parse(&mut self) -> (r: Result<Vec<Node>, (ParseError, usize)>)
        requires
            old(self).index == 0,
        ensures
            final(self).tokens == old(self).tokens,
            match program(old(self).kinds(), 0) {
                Ok(ts) => r is Ok && trees(r->Ok_0@) == ts,
                Err((e, k)) => r is Err && r->Err_0.0 == e && r->Err_0.1 as int == k,
            },
            r is Err ==> r->Err_0.1 <= old(self).tokens@.len() && forall|m: int|
                0 <= m < r->Err_0.1 ==> !(#[trigger] old(self).kinds()[m] is EOI),
    {
        let ghost ks = self.kinds();
        let mut nodes: Vec<Node> = Vec::new();
        while self.index < self.tokens.len()
            invariant
                self.tokens == old(self).tokens,
                self.kinds() == ks,
                ks == old(self).kinds(),
                forall|m: int| 0 <= m < self.index ==> !(#[trigger] ks[m] is EOI),
                self.index <= ks.len(),
                glue_trees(trees(nodes@), program(ks, self.index as int))
                    == program(ks, 0),
            decreases ks.len() - self.index,
        {
            let i = self.index;
            assert(ks[i as int] == self.tokens@[i as int].token_type@);
            match self.tokens[i].token_type {
                TokenType::EOI => {
                    proof {
                        assert(trees(nodes@.push(Node::EOI)) =~= trees(nodes@) + seq![Tree::EOI]);
                    }
                    nodes.push(Node::EOI);
                    return Ok(nodes);
                },
                TokenType::Semicolon => {
                    assert(program(ks, i as int) == program(ks, i + 1));
                    self.index = i + 1;
                    continue;
                },
                _ => {},
            }
            match self.expr(i) {
                Ok((node, j)) => {
                    let next = if j < self.tokens.len() && matches!(self.tokens[j].token_type, TokenType::Semicolon) {
                        j + 1
                    } else {
                        j
                    };
                    proof {
                        let done = trees(nodes@);
                        assert(trees(nodes@.push(node)) =~= done.push(tree(node)));
                        match program(ks, next as int) {
                            Ok(rest) => {
                                assert(done + (seq![tree(node)] + rest) =~= done.push(tree(node)) + rest);
                            },
                            Err(_) => {},
                        }
                    }
                    nodes.push(node);
                    self.index = next;
                },
                Err((e, k)) => return Err((e, k)),
            }
        }
        assert(trees(nodes@) + seq![] =~= trees(nodes@));
        Ok(nodes)
    }

} // impl Parser

/// The trees of a sequence of nodes.
pub open spec fn trees(ns: Seq<Node>) -> Seq<Tree> {
    ns.map_values(|n: Node| tree(n))
}

/// `done` followed by what `rest` holds, or the error of `rest`.
pub open spec fn glue_trees(done: Seq<Tree>, rest: Result<Seq<Tree>, (ParseError, int)>) -> Result<
    Seq<Tree>,
    (ParseError, int),
> {
    match rest {
        Ok(t) => Ok(done + t),
        Err(e) => Err(e),
    }
}

/// Whether a token type is trivia.
fn is_trivia(tt: &TokenType) -> (r: bool)
    ensures
        r == trivia(tt@),
{
    match tt {
        TokenType::Comment | TokenType::DocComment(_) | TokenType::Whitespace => true,
        _ => false,
    }
}

/// The tokens of `tokens` that are not trivia, in order.
pub fn significant_tokens<'a>(tokens: Vec<Token<'a>>) -> (r: Vec<Token<'a>>)
    ensures
        r@ == significant(tokens@),
{
    let ghost all = tokens@;
    let mut rest = tokens;
    let mut kept: Vec<Token<'a>> = Vec::new();
    while rest.len() > 0
        invariant
            significant(all) == kept@ + significant(rest@),
        decreases rest@.len(),
    {
        let ghost before = rest@;
        let t = rest.remove(0);
        proof {
            assert(before.drop_first() =~= rest@);
        }
        if !is_trivia(&t.token_type) {
            proof {
                assert(kept@ + (seq![t] + significant(rest@)) =~= kept@.push(t) + significant(rest@));
            }
            kept.push(t);
        }
    }
    assert(kept@ + seq![] =~= kept@);
    kept
}

/// `d` reports error `e` at the token at position `k` of `ts`, or just after the last token
/// when `k` lies past them; offsets beyond the token's source are taken as its end.
pub open spec fn blamed(ts: Seq<Token>, k: int, e: ParseError, d: ErrorMessage) -> bool {
    let inside = 0 <= k < ts.len();
    let t = if inside {
        ts[k]
    } else {
        ts.last()
    };
    let want = if inside {
        t.span.0 as int
    } else {
        t.span.1 as int
    };
    let off = if want <= t.source@.len() {
        want
    } else {
        t.source@.len() as int
    };
    let len = if inside && t.span.0 <= t.span.1 {
        t.span.1 - t.span.0
    } else {
        0
    };
    located(d, t.source@, off, len, Error::ParseError(e))
}

/// `r` is what parsing `tokens` gives: the trees of `program` over the significant tokens, or
/// its error reported at the token it blames, which no end of input comes before.
pub open spec fn parses_to(tokens: Seq<Token>, r: Result<Vec<Node>, ErrorMessage>) -> bool {
    match program(kinds(significant(tokens)), 0) {
        Ok(ts) => r is Ok && trees(r->Ok_0@) == ts,
        Err((e, k)) => {
            &&& r is Err
            &&& blamed(significant(tokens), k, e, r->Err_0)
            &&& 0 <= k <= significant(tokens).len()
            &&& forall|m: int| 0 <= m < k ==> !(#[trigger] kinds(significant(tokens))[m] is EOI)
        },
    }
}

/// Builds the syntax tree of a token sequence, dropping whitespace and comments first; the
/// first error stops the pass and is reported at the token it blames.
pub fn parse<'a>(tokens: Vec<Token<'a>>) -> (r: Result<Vec<Node>, ErrorMessage>)
    ensures
        parses_to(tokens@, r),
{
    let filtered = significant_tokens(tokens);
    let ghost ks = kinds(filtered@);
    let mut parser = Parser::new(filtered);
    match parser.parse() {
        Ok(nodes) => Ok(nodes),
        Err((e, k)) => {
            let n = parser.tokens.len();
            assert(ks.len() == n);
            assert(n > 0) by {
                if n == 0 {
                    assert(program(ks, 0) == Ok::<Seq<Tree>, (ParseError, int)>(seq![]));
                }
            }
            let inside = k < n;
            let t = if inside {
                &parser.tokens[k]
            } else {
                &parser.tokens[n - 1]
            };
            let want = if inside {
                t.span.0
            } else {
                t.span.1
            };
            let chars = chars_of(t.source);
            let off = if want <= chars.len() {
                want
            } else {
                chars.len()
            };
            let len = if inside && t.span.0 <= t.span.1 {
                t.span.1 - t.span.0
            } else {
                0
            };
            Err(ErrorMessage::at(t.source, &chars, off, len, Error::ParseError(e)))
        },
    }
}

} // verus!

verus! {

/// Parsing the same tokens twice gives the same trees, or the same diagnostic.
pub proof fn lemma_parse_deterministic(
    tokens: Seq<Token>,
    r1: Result<Vec<Node>, ErrorMessage>,
    r2: Result<Vec<Node>, ErrorMessage>,
)
    requires
        parses_to(tokens, r1),
        parses_to(tokens, r2),
    ensures
        r1 is Ok <==> r2 is Ok,
        r1 is Ok ==> trees(r1->Ok_0@) == trees(r2->Ok_0@),
        r1 is Err ==> same_diagnostic(r1->Err_0, r2->Err_0),
{
}

/// A diagnostic of the parser points into the source of a token it was given: at an offset
/// within that source, and at a column within the line it quotes.
pub proof fn lemma_parse_error_in_source(tokens: Seq<Token>, r: Result<Vec<Node>, ErrorMessage>)
    requires
        parses_to(tokens, r),
        r is Err,
    ensures
        r->Err_0.column <= r->Err_0.source_text@.len(),
        exists|t: Token, off: int|
            significant(tokens).contains(t) && 0 <= off <= t.source@.len() && located(
                r->Err_0,
                t.source@,
                off,
                r->Err_0.len as int,
                r->Err_0.message,
            ),
{
    let ts = significant(tokens);
    let ks = kinds(ts);
    let (e, k) = program(ks, 0)->Err_0;
    assert(ts.len() > 0) by {
        if ts.len() == 0 {
            assert(program(ks, 0) == Ok::<Seq<Tree>, (ParseError, int)>(seq![]));
        }
    }
    let inside = 0 <= k < ts.len();
    let t = if inside {
        ts[k]
    } else {
        ts.last()
    };
    let want = if inside {
        t.span.0 as int
    } else {
        t.span.1 as int
    };
    let off = if want <= t.source@.len() {
        want
    } else {
        t.source@.len() as int
    };
    let len = if inside && t.span.0 <= t.span.1 {
        t.span.1 - t.span.0
    } else {
        0
    };
    lemma_diagnostic_in_source(r->Err_0, t.source@, off, len, Error::ParseError(e));
    assert(ts.contains(t));
}

/// Every token that `significant` keeps comes from `ts`, and every token of `ts` that is not
/// trivia is kept.
proof fn lemma_significant(ts: Seq<Token>)
    ensures
        forall|x: Token| #[trigger] significant(ts).contains(x) ==> ts.contains(x),
        forall|m: int| 0 <= m < ts.len() && !trivia(ts[m].token_type@) ==> significant(ts).contains(#[trigger] ts[m]),
    decreases ts.len(),
{
    if ts.len() > 0 {
        let rest = ts.drop_first();
        lemma_significant(rest);
        assert forall|x: Token| #[trigger] significant(ts).contains(x) implies ts.contains(x) by {
            let m = choose|m: int| 0 <= m < significant(ts).len() && significant(ts)[m] == x;
            if trivia(ts[0].token_type@) {
                assert(significant(rest).contains(x));
            } else if m == 0 {
                assert(ts[0] == x);
            } else {
                assert(significant(rest)[m - 1] == x);
                assert(significant(rest).contains(x));
            }
            if rest.contains(x) {
                let j = choose|j: int| 0 <= j < rest.len() && rest[j] == x;
                assert(ts[j + 1] == x);
            }
        }
        assert forall|m: int| 0 <= m < ts.len() && !trivia(ts[m].token_type@) implies significant(ts).contains(#[trigger] ts[m]) by {
            if m == 0 {
                assert(significant(ts)[0] == ts[0]);
            } else {
                assert(ts[m] == rest[m - 1]);
                assert(significant(rest).contains(rest[m - 1]));
                let j = choose|j: int| 0 <= j < significant(rest).len() && significant(rest)[j] == rest[m - 1];
                if trivia(ts[0].token_type@) {
                    assert(significant(ts)[j] == ts[m]);
                } else {
                    assert(significant(ts)[j + 1] == ts[m]);
                }
            }
        }
    }
}

/// Parsing what `tokenise` gave: a diagnostic is a parse error, located in the source where
/// the token it blames starts, over that token's extent.
pub proof fn lemma_front_end_error_at_token<'a>(
    src: &'a str,
    toks: Vec<Token<'a>>,
    r: Result<Vec<Node>, ErrorMessage>,
)
    requires
        lexes_to(src, Ok(toks)),
        parses_to(toks@, r),
        r is Err,
    ensures
        r->Err_0.message is ParseError,
        r->Err_0.column <= r->Err_0.source_text@.len(),
        exists|t: Token|
            #[trigger] significant(toks@).contains(t) && t.source == src && t.span.0 <= t.span.1
                <= src@.len() && located(
                r->Err_0,
                src@,
                t.span.0 as int,
                t.span.1 - t.span.0,
                r->Err_0.message,
            ),
{
    let s = src@;
    let ts = toks@;
    lemma_lex_from_tokens(s, 0);
    let lx = lex_from(s, 0)->Ok_0;
    lemma_significant(ts);
    let last = ts.len() - 1;
    assert(lx[last] == lx.last());
    assert(lx[last] == (ts[last].token_type@, ts[last].span.0 as int, ts[last].span.1 as int));
    assert(!trivia(ts[last].token_type@));
    let sig = significant(ts);
    assert(sig.contains(ts[last]));
    let m0 = choose|m0: int| 0 <= m0 < sig.len() && sig[m0] == ts[last];
    assert(kinds(sig)[m0] is EOI);
    let (e, k) = program(kinds(sig), 0)->Err_0;
    assert(k < sig.len()) by {
        if k >= sig.len() {
            assert(!(kinds(sig)[m0] is EOI));
        }
    }
    let t = sig[k];
    assert(sig.contains(t));
    assert(ts.contains(t));
    let j = choose|j: int| 0 <= j < ts.len() && ts[j] == t;
    assert(lx[j] == (ts[j].token_type@, ts[j].span.0 as int, ts[j].span.1 as int));
    lemma_diagnostic_in_source(r->Err_0, s, t.span.0 as int, t.span.1 - t.span.0, Error::ParseError(e));
}

} // verus!
