use vstd::prelude::*;

use crate::token::{well_formed_tokens, Node, Token};

verus! {

/// Why a token list is not a program; each variant holds the index of the
/// offending token.
#[derive(Clone, Copy, Debug, PartialEq, Eq, Structural)]
pub enum ParseError {
    /// Neither a number, an identifier nor `(` where an operand is expected.
    UnexpectedToken(usize),
    /// A statement not followed by `;`.
    MissingSemicolon(usize),
    /// A `(` whose group is not closed by `)`.
    UnclosedParen(usize),
    /// An `=` whose left side is not a variable.
    InvalidAssignTarget(usize),
}

pub open spec fn at(ts: Seq<Token>, pos: int, t: Token) -> bool {
    0 <= pos < ts.len() && ts[pos] == t
}

/// A sub-parse that went from `pos` to `q` consumed at least one token and
/// stayed inside the list; every successful one does.
pub open spec fn advanced(ts: Seq<Token>, pos: int, q: int) -> bool {
    pos < q <= ts.len()
}

// The grammar, as a deterministic recursive-descent reading of a token list.
// Each function reads from index `pos` and gives the tree it read together
// with the index of the first token after it.
//
//   atom           := Number | Identifier | '(' additive ')'
//   multiplicative := atom (('*' | '/') atom)*
//   additive       := multiplicative (('+' | '-') multiplicative)*
//   assignment     := additive ('=' assignment)*
//   statement      := assignment ';'
//   program        := statement* EOF
pub open spec fn parse_term(ts: Seq<Token>, pos: int) -> Result<(Node, int), ParseError>
    decreases ts.len() - pos, 0nat,
{
    if at(ts, pos, Token::Lparen) {
        match parse_add(ts, pos + 1) {
            Ok((n, q)) => if at(ts, q, Token::Rparen) {
                Ok((n, q + 1))
            } else {
                Err(ParseError::UnclosedParen(q as usize))
            },
            Err(e) => Err(e),
        }
    } else if 0 <= pos < ts.len() && (ts[pos] is Num || ts[pos] is Ident) {
        Ok((Node::leaf(ts[pos]), pos + 1))
    } else {
        Err(ParseError::UnexpectedToken(pos as usize))
    }
}

pub open spec fn parse_mul(ts: Seq<Token>, pos: int) -> Result<(Node, int), ParseError>
    decreases ts.len() - pos, 1nat,
{
    match parse_term(ts, pos) {
        Ok((n, q)) => if advanced(ts, pos, q) {
            parse_mul_rest(ts, n, q)
        } else {
            Ok((n, q))
        },
        Err(e) => Err(e),
    }
}

pub open spec fn parse_mul_rest(ts: Seq<Token>, acc: Node, pos: int) -> Result<(Node, int), ParseError>
    decreases ts.len() - pos, 1nat,
{
    if at(ts, pos, Token::Asterisk) || at(ts, pos, Token::Slash) {
        match parse_term(ts, pos + 1) {
            Ok((r, q)) => {
                let n = Node::branch(ts[pos], acc, r);
                if advanced(ts, pos, q) {
                    parse_mul_rest(ts, n, q)
                } else {
                    Ok((n, q))
                }
            },
            Err(e) => Err(e),
        }
    } else {
        Ok((acc, pos))
    }
}

pub open spec fn parse_add(ts: Seq<Token>, pos: int) -> Result<(Node, int), ParseError>
    decreases ts.len() - pos, 2nat,
{
    match parse_mul(ts, pos) {
        Ok((n, q)) => if advanced(ts, pos, q) {
            parse_add_rest(ts, n, q)
        } else {
            Ok((n, q))
        },
        Err(e) => Err(e),
    }
}

pub open spec fn parse_add_rest(ts: Seq<Token>, acc: Node, pos: int) -> Result<(Node, int), ParseError>
    decreases ts.len() - pos, 2nat,
{
    if at(ts, pos, Token::Plus) || at(ts, pos, Token::Minus) {
        match parse_mul(ts, pos + 1) {
            Ok((r, q)) => {
                let n = Node::branch(ts[pos], acc, r);
                if advanced(ts, pos, q) {
                    parse_add_rest(ts, n, q)
                } else {
                    Ok((n, q))
                }
            },
            Err(e) => Err(e),
        }
    } else {
        Ok((acc, pos))
    }
}

pub open spec fn parse_assign(ts: Seq<Token>, pos: int) -> Result<(Node, int), ParseError>
    decreases ts.len() - pos, 0nat,
{
    match parse_add(ts, pos) {
        Ok((n, q)) => if advanced(ts, pos, q) {
            parse_assign_rest(ts, n, q)
        } else {
            Ok((n, q))
        },
        Err(e) => Err(e),
    }
}

pub open spec fn parse_assign_rest(ts: Seq<Token>, acc: Node, pos: int) -> Result<(Node, int), ParseError>
    decreases ts.len() - pos, 0nat,
{
    if at(ts, pos, Token::Assign) {
        if !(acc.token is Ident) {
            Err(ParseError::InvalidAssignTarget(pos as usize))
        } else {
            match parse_assign(ts, pos + 1) {
                Ok((r, q)) => {
                    let n = Node::branch(Token::Assign, acc, r);
                    if advanced(ts, pos, q) {
                        parse_assign_rest(ts, n, q)
                    } else {
                        Ok((n, q))
                    }
                },
                Err(e) => Err(e),
            }
        }
    } else {
        Ok((acc, pos))
    }
}

pub open spec fn parse_stmt(ts: Seq<Token>, pos: int) -> Result<(Node, int), ParseError> {
    match parse_assign(ts, pos) {
        Ok((n, q)) => if at(ts, q, Token::Semicolon) {
            Ok((n, q + 1))
        } else {
            Err(ParseError::MissingSemicolon(q as usize))
        },
        Err(e) => Err(e),
    }
}

/// The statements read from `pos` up to the `EOF` token.
pub open spec fn parse_program(ts: Seq<Token>, pos: int) -> Result<Seq<Node>, ParseError>
    decreases ts.len() - pos,
{
    if !(0 <= pos < ts.len()) || ts[pos] is EOF {
        Ok(Seq::empty())
    } else {
        match parse_stmt(ts, pos) {
            Ok((n, q)) => if advanced(ts, pos, q) {
                prepend_nodes(seq![n], parse_program(ts, q))
            } else {
                Ok(seq![n])
            },
            Err(e) => Err(e),
        }
    }
}

pub open spec fn prepend_nodes(ns: Seq<Node>, r: Result<Seq<Node>, ParseError>) -> Result<Seq<Node>, ParseError> {
    match r {
        Ok(rest) => Ok(ns + rest),
        Err(e) => Err(e),
    }
}

/// Every successful read consumes at least one token and stays within the
/// list, so the `advanced` tests in the grammar above always hold.
pub proof fn lemma_term_advances(ts: Seq<Token>, pos: int)
    ensures
        parse_term(ts, pos) is Ok ==> 0 <= pos && advanced(ts, pos, parse_term(ts, pos)->Ok_0.1),
    decreases ts.len() - pos, 0nat,
{
    if at(ts, pos, Token::Lparen) {
        lemma_add_advances(ts, pos + 1);
    }
}

pub proof fn lemma_mul_advances(ts: Seq<Token>, pos: int)
    ensures
        parse_mul(ts, pos) is Ok ==> 0 <= pos && advanced(ts, pos, parse_mul(ts, pos)->Ok_0.1),
    decreases ts.len() - pos, 1nat,
{
    lemma_term_advances(ts, pos);
    if parse_term(ts, pos) is Ok {
        let (n, q) = parse_term(ts, pos)->Ok_0;
        lemma_mul_rest_advances(ts, n, q);
    }
}

pub proof fn lemma_mul_rest_advances(ts: Seq<Token>, acc: Node, pos: int)
    requires
        0 <= pos <= ts.len(),
    ensures
        parse_mul_rest(ts, acc, pos) is Ok ==> pos <= parse_mul_rest(ts, acc, pos)->Ok_0.1 <= ts.len(),
    decreases ts.len() - pos, 1nat,
{
    if at(ts, pos, Token::Asterisk) || at(ts, pos, Token::Slash) {
        lemma_term_advances(ts, pos + 1);
        if parse_term(ts, pos + 1) is Ok {
            let (r, q) = parse_term(ts, pos + 1)->Ok_0;
            lemma_mul_rest_advances(ts, Node::branch(ts[pos], acc, r), q);
        }
    }
}

pub proof fn lemma_add_advances(ts: Seq<Token>, pos: int)
    ensures
        parse_add(ts, pos) is Ok ==> 0 <= pos && advanced(ts, pos, parse_add(ts, pos)->Ok_0.1),
    decreases ts.len() - pos, 2nat,
{
    lemma_mul_advances(ts, pos);
    if parse_mul(ts, pos) is Ok {
        let (n, q) = parse_mul(ts, pos)->Ok_0;
        lemma_add_rest_advances(ts, n, q);
    }
}

pub proof fn lemma_add_rest_advances(ts: Seq<Token>, acc: Node, pos: int)
    requires
        0 <= pos <= ts.len(),
    ensures
        parse_add_rest(ts, acc, pos) is Ok ==> pos <= parse_add_rest(ts, acc, pos)->Ok_0.1 <= ts.len(),
    decreases ts.len() - pos, 2nat,
{
    if at(ts, pos, Token::Plus) || at(ts, pos, Token::Minus) {
        lemma_mul_advances(ts, pos + 1);
        if parse_mul(ts, pos + 1) is Ok {
            let (r, q) = parse_mul(ts, pos + 1)->Ok_0;
            lemma_add_rest_advances(ts, Node::branch(ts[pos], acc, r), q);
        }
    }
}

/// The exec result `r` with the index `end` where reading stopped, in the
/// shape of the grammar functions above.
pub open spec fn outcome(r: Result<Node, ParseError>, end: int) -> Result<(Node, int), ParseError> {
    match r {
        Ok(n) => Ok((n, end)),
        Err(e) => Err(e),
    }
}

/// What every successful exec parse function also guarantees: it consumed at
/// least one token, did not reach the final `EOF`, and built a well-formed tree.
pub open spec fn progress(ts: Seq<Token>, r: Result<Node, ParseError>, start: int, end: int) -> bool {
    r is Ok ==> start < end < ts.len() && r->Ok_0.wf()
}

/// Whether token `a` is of the kind that `b` asks for: any number matches a
/// number and any identifier an identifier, whatever their values; other
/// tokens match only themselves.
pub open spec fn same_kind(a: Token, b: Token) -> bool {
    match (a, b) {
        (Token::Num(_), Token::Num(_)) => true,
        (Token::Ident(_), Token::Ident(_)) => true,
        _ => a == b,
    }
}

/// Advances `*pos` past the next token and returns `true` when that token is
/// of the kind of `tok` (see `same_kind`); otherwise leaves `*pos` and
/// returns `false`.
pub fn consume(tokens: &mut Vec<Token>, tok: Token, pos: &mut usize) -> (r: bool)
    requires
        *old(pos) < old(tokens)@.len(),
    ensures
        final(tokens)@ == old(tokens)@,
        r == same_kind(old(tokens)@[*old(pos) as int], tok),
        r ==> *final(pos) == *old(pos) + 1,
        !r ==> *final(pos) == *old(pos),
{
    let len = tokens.len();
    let next = tokens[*pos];
    let hit = match (next, tok) {
        (Token::Num(_), Token::Num(_)) => true,
        (Token::Ident(_), Token::Ident(_)) => true,
        _ => next == tok,
    };
    if hit {
        assert(*pos < len);
        *pos = *pos + 1;
    }
    hit
}

pub proof fn lemma_prepend_nodes_push(ns: Seq<Node>, n: Node, r: Result<Seq<Node>, ParseError>)
    ensures
        prepend_nodes(ns, prepend_nodes(seq![n], r)) == prepend_nodes(ns.push(n), r),
{
    if r is Ok {
        assert(ns + (seq![n] + r->Ok_0) =~= ns.push(n) + r->Ok_0);
    }
}

/// Reads an operand: a number, a variable, or a parenthesized sum.
pub fn term(tokens: &mut Vec<Token>, pos: &mut usize) -> (r: Result<Node, ParseError>)
    requires
        well_formed_tokens(old(tokens)@),
        *old(pos) < old(tokens)@.len(),
    ensures
        final(tokens)@ == old(tokens)@,
        parse_term(old(tokens)@, *old(pos) as int) == outcome(r, *final(pos) as int),
        progress(old(tokens)@, r, *old(pos) as int, *final(pos) as int),
    decreases old(tokens)@.len() - *old(pos), 0nat,
{
    let ghost ts = tokens@;
    let len = tokens.len();
    if consume(tokens, Token::Lparen, pos) {
        let node = match crate::parse::add(tokens, pos) {
            Ok(n) => n,
            Err(e) => return Err(e),
        };
        if !consume(tokens, Token::Rparen, pos) {
            return Err(ParseError::UnclosedParen(*pos));
        }
        return Ok(node);
    }
    match tokens[*pos] {
        Token::Num(num) => {
            *pos = *pos + 1;
            return Ok(Node::new_node_num(num));
        },
        Token::Ident(name) => {
            *pos = *pos + 1;
            return Ok(Node::new_node_ident(name));
        },
        _ => {},
    }
    Err(ParseError::UnexpectedToken(*pos))
}

/// Reads a product: operands joined by `*` and `/`, grouped to the left.
pub fn mul(tokens: &mut Vec<Token>, pos: &mut usize) -> (r: Result<Node, ParseError>)
    requires
        well_formed_tokens(old(tokens)@),
        *old(pos) < old(tokens)@.len(),
    ensures
        final(tokens)@ == old(tokens)@,
        parse_mul(old(tokens)@, *old(pos) as int) == outcome(r, *final(pos) as int),
        progress(old(tokens)@, r, *old(pos) as int, *final(pos) as int),
    decreases old(tokens)@.len() - *old(pos), 1nat,
{
    let ghost ts = tokens@;
    let ghost start = *pos as int;
    let mut node = match term(tokens, pos) {
        Ok(n) => n,
        Err(e) => return Err(e),
    };
    loop
        invariant
            tokens@ == ts,
            ts == old(tokens)@,
            start == *old(pos) as int,
            well_formed_tokens(ts),
            start < *pos < ts.len(),
            node.wf(),
            parse_mul(ts, start) == parse_mul_rest(ts, node, *pos as int),
        decreases ts.len() - *pos,
    {
        if consume(tokens, Token::Asterisk, pos) {
            let r = match term(tokens, pos) {
                Ok(n) => n,
                Err(e) => return Err(e),
            };
            node = Node::new(Token::Asterisk, node, r);
        } else if consume(tokens, Token::Slash, pos) {
            let r = match term(tokens, pos) {
                Ok(n) => n,
                Err(e) => return Err(e),
            };
            node = Node::new(Token::Slash, node, r);
        } else {
            return Ok(node);
        }
    }
}

/// Reads a sum: products joined by `+` and `-`, grouped to the left.
pub fn add(tokens: &mut Vec<Token>, pos: &mut usize) -> (r: Result<Node, ParseError>)
    requires
        well_formed_tokens(old(tokens)@),
        *old(pos) < old(tokens)@.len(),
    ensures
        final(tokens)@ == old(tokens)@,
        parse_add(old(tokens)@, *old(pos) as int) == outcome(r, *final(pos) as int),
        progress(old(tokens)@, r, *old(pos) as int, *final(pos) as int),
    decreases old(tokens)@.len() - *old(pos), 2nat,
{
    let ghost ts = tokens@;
    let ghost start = *pos as int;
    let mut node = match crate::parse::mul(tokens, pos) {
        Ok(n) => n,
        Err(e) => return Err(e),
    };
    loop
        invariant
            tokens@ == ts,
            ts == old(tokens)@,
            start == *old(pos) as int,
            well_formed_tokens(ts),
            start < *pos < ts.len(),
            node.wf(),
            parse_add(ts, start) == parse_add_rest(ts, node, *pos as int),
        decreases ts.len() - *pos,
    {
        if consume(tokens, Token::Plus, pos) {
            let r = match crate::parse::mul(tokens, pos) {
                Ok(n) => n,
                Err(e) => return Err(e),
            };
            node = Node::new(Token::Plus, node, r);
        } else if consume(tokens, Token::Minus, pos) {
            let r = match crate::parse::mul(tokens, pos) {
                Ok(n) => n,
                Err(e) => return Err(e),
            };
            node = Node::new(Token::Minus, node, r);
        } else {
            return Ok(node);
        }
    }
}

/// Reads an assignment chain `x = y = ... = e`, grouped to the right.
pub fn assign(tokens: &mut Vec<Token>, pos: &mut usize) -> (r: Result<Node, ParseError>)
    requires
        well_formed_tokens(old(tokens)@),
        *old(pos) < old(tokens)@.len(),
    ensures
        final(tokens)@ == old(tokens)@,
        parse_assign(old(tokens)@, *old(pos) as int) == outcome(r, *final(pos) as int),
        progress(old(tokens)@, r, *old(pos) as int, *final(pos) as int),
    decreases old(tokens)@.len() - *old(pos),
{
    let ghost ts = tokens@;
    let ghost start = *pos as int;
    let mut node = match crate::parse::add(tokens, pos) {
        Ok(n) => n,
        Err(e) => return Err(e),
    };
    loop
        invariant
            tokens@ == ts,
            ts == old(tokens)@,
            start == *old(pos) as int,
            well_formed_tokens(ts),
            start < *pos < ts.len(),
            node.wf(),
            parse_assign(ts, start) == parse_assign_rest(ts, node, *pos as int),
        decreases ts.len() - *pos,
    {
        let at_eq = *pos;
        if consume(tokens, Token::Assign, pos) {
            match node.token {
                Token::Ident(_) => {},
                _ => return Err(ParseError::InvalidAssignTarget(at_eq)),
            }
            let r = match assign(tokens, pos) {
                Ok(n) => n,
                Err(e) => return Err(e),
            };
            node = Node::new(Token::Assign, node, r);
        } else {
            return Ok(node);
        }
    }
}

/// Reads one statement: an assignment chain followed by `;`.
pub fn stmt(tokens: &mut Vec<Token>, pos: &mut usize) -> (r: Result<Node, ParseError>)
    requires
        well_formed_tokens(old(tokens)@),
        *old(pos) < old(tokens)@.len(),
    ensures
        final(tokens)@ == old(tokens)@,
        parse_stmt(old(tokens)@, *old(pos) as int) == outcome(r, *final(pos) as int),
        progress(old(tokens)@, r, *old(pos) as int, *final(pos) as int),
        r is Ok ==> *final(pos) >= *old(pos) + 2,
{
    let node = match assign(tokens, pos) {
        Ok(n) => n,
        Err(e) => return Err(e),
    };
    if !consume(tokens, Token::Semicolon, pos) {
        return Err(ParseError::MissingSemicolon(*pos));
    }
    Ok(node)
}

/// Reads statements up to the final `EOF`, in source order.
pub fn program(tokens: &mut Vec<Token>, pos: &mut usize) -> (r: Result<Vec<Node>, ParseError>)
    requires
        well_formed_tokens(old(tokens)@),
        *old(pos) < old(tokens)@.len(),
    ensures
        final(tokens)@ == old(tokens)@,
        r is Ok <==> parse_program(old(tokens)@, *old(pos) as int) is Ok,
        r is Ok ==> r->Ok_0@ == parse_program(old(tokens)@, *old(pos) as int)->Ok_0,
        r is Ok ==> forall|i: int| 0 <= i < r->Ok_0@.len() ==> (#[trigger] r->Ok_0@[i]).wf(),
        r is Err ==> r->Err_0 == parse_program(old(tokens)@, *old(pos) as int)->Err_0,
        r is Ok ==> *final(pos) < final(tokens)@.len() && final(tokens)@[*final(pos) as int] is EOF,
        r is Ok ==> *final(pos) >= *old(pos) + 2 * r->Ok_0@.len(),
{
    let ghost ts = tokens@;
    let ghost start = *pos as int;
    let mut code: Vec<Node> = Vec::new();
    while tokens[*pos] != Token::EOF
        invariant
            tokens@ == ts,
            ts == old(tokens)@,
            start == *old(pos) as int,
            well_formed_tokens(ts),
            *pos < ts.len(),
            parse_program(ts, start) == prepend_nodes(code@, parse_program(ts, *pos as int)),
            forall|i: int| 0 <= i < code@.len() ==> (#[trigger] code@[i]).wf(),
            *pos >= start + 2 * code@.len(),
        decreases ts.len() - *pos,
    {
        let ghost p = *pos as int;
        let n = match stmt(tokens, pos) {
            Ok(n) => n,
            Err(e) => return Err(e),
        };
        proof {
            lemma_prepend_nodes_push(code@, n, parse_program(ts, *pos as int));
        }
        code.push(n);
    }
    assert(code@ + Seq::<Node>::empty() =~= code@);
    Ok(code)
}

} // verus!
