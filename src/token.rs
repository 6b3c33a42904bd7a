use vstd::prelude::*;
use vstd::string::StringSliceAdditionalSpecFns;

verus! {

/// A lexical token of the source language.
#[derive(Clone, Copy, Debug, PartialEq, Eq, Structural)]
pub enum Token {
    Num(i64),
    Ident(char),
    Assign,
    Semicolon,
    Lparen,
    Rparen,
    Plus,
    Minus,
    Slash,
    Asterisk,
    EOF,
}

/// Why the source text could not be split into tokens; `pos` is the byte
/// offset at which the unconsumed remainder of the input starts.
#[derive(Clone, Copy, Debug, PartialEq, Eq, Structural)]
pub enum TokenizeError {
    /// A byte that starts no token.
    Unexpected { pos: usize },
    /// A run of digits whose value does not fit in an `i64`.
    Overflow { pos: usize },
}

/// A node of the syntax tree: a leaf (`Num`, `Ident`) has no children; an
/// operator node (`Plus`, `Minus`, `Asterisk`, `Slash`, `Assign`) has both.
#[derive(Debug)]
pub struct Node {
    pub token: Token,
    pub lhs: Option<Box<Node>>,
    pub rhs: Option<Box<Node>>,
}

pub open spec fn is_operator(t: Token) -> bool {
    t is Plus || t is Minus || t is Asterisk || t is Slash || t is Assign
}

pub open spec fn is_letter(c: char) -> bool {
    'a' <= c && c <= 'z'
}

impl Node {
    pub open spec fn leaf(token: Token) -> Node {
        Node { token, lhs: None, rhs: None }
    }

    pub open spec fn branch(token: Token, l: Node, r: Node) -> Node {
        Node { token, lhs: Some(Box::new(l)), rhs: Some(Box::new(r)) }
    }

    /// Leaves carry no children, operator nodes carry two well-formed ones,
    /// identifiers are lowercase letters, and an assignment's target is an
    /// identifier.
    pub open spec fn wf(self) -> bool
        decreases self,
    {
        match self.token {
            Token::Num(_) => self.lhs is None && self.rhs is None,
            Token::Ident(c) => self.lhs is None && self.rhs is None && is_letter(c),
            _ => is_operator(self.token) && match (self.lhs, self.rhs) {
                (Some(l), Some(r)) => {
                    &&& l.wf()
                    &&& r.wf()
                    &&& (self.token is Assign ==> l.token is Ident)
                },
                _ => false,
            },
        }
    }

    /// Builds an operator node over two subtrees.
    pub fn new(token: Token, lhs: Node, rhs: Node) -> (r: Node)
        ensures
            r == Node::branch(token, lhs, rhs),
    {
        Node { token, lhs: Some(Box::new(lhs)), rhs: Some(Box::new(rhs)) }
    }

    /// Builds a number leaf.
    pub fn new_node_num(num: i64) -> (r: Node)
        ensures
            r == Node::leaf(Token::Num(num)),
            r.wf(),
    {
        Node { token: Token::Num(num), lhs: None, rhs: None }
    }

    /// Builds an identifier leaf.
    pub fn new_node_ident(name: char) -> (r: Node)
        ensures
            r == Node::leaf(Token::Ident(name)),
            is_letter(name) ==> r.wf(),
    {
        Node { token: Token::Ident(name), lhs: None, rhs: None }
    }
}

// ---------------------------------------------------------------------------
// Lexical structure, over the bytes of the source text.
/// ASCII whitespace: space, tab, line feed, form feed, carriage return.
pub open spec fn is_space(b: u8) -> bool {
    b == 0x20u8 || b == 0x09u8 || b == 0x0Au8 || b == 0x0Cu8 || b == 0x0Du8
}

/// `'0'..='9'`
pub open spec fn is_digit(b: u8) -> bool {
    0x30u8 <= b && b <= 0x39u8
}

/// `'a'..='z'`
pub open spec fn is_lower(b: u8) -> bool {
    0x61u8 <= b && b <= 0x7Au8
}

/// The token of a one-byte symbol (`= ; + - * / ( )`), if `b` is one.
pub open spec fn symbol(b: u8) -> Option<Token> {
    if b == 0x3Du8 {
        Some(Token::Assign)
    } else if b == 0x3Bu8 {
        Some(Token::Semicolon)
    } else if b == 0x2Bu8 {
        Some(Token::Plus)
    } else if b == 0x2Du8 {
        Some(Token::Minus)
    } else if b == 0x2Au8 {
        Some(Token::Asterisk)
    } else if b == 0x2Fu8 {
        Some(Token::Slash)
    } else if b == 0x28u8 {
        Some(Token::Lparen)
    } else if b == 0x29u8 {
        Some(Token::Rparen)
    } else {
        None
    }
}

/// A byte that may appear in source text without a tokenizing error.
pub open spec fn is_source_byte(b: u8) -> bool {
    is_space(b) || symbol(b) is Some || is_lower(b) || is_digit(b)
}

/// The number of digits in the run that starts at `i`.
pub open spec fn digit_run(s: Seq<u8>, i: int) -> nat
    decreases s.len() - i,
{
    if 0 <= i < s.len() && is_digit(s[i]) {
        1 + digit_run(s, i + 1)
    } else {
        0
    }
}

/// The decimal value of a sequence of digits.
pub open spec fn digits_value(d: Seq<u8>) -> int
    decreases d.len(),
{
    if d.len() == 0 {
        0
    } else {
        digits_value(d.drop_last()) * 10 + (d.last() - 0x30u8)
    }
}

pub open spec fn prepend<E>(ts: Seq<Token>, r: Result<Seq<Token>, E>) -> Result<Seq<Token>, E> {
    match r {
        Ok(rest) => Ok(ts + rest),
        Err(e) => Err(e),
    }
}

/// The tokens of `s` from byte `i` on, ending with a single `EOF`.
pub open spec fn lex(s: Seq<u8>, i: int) -> Result<Seq<Token>, TokenizeError>
    decreases s.len() - i
    via lex_decreases
{
    if i < 0 || i >= s.len() {
        Ok(seq![Token::EOF])
    } else if is_space(s[i]) {
        lex(s, i + 1)
    } else if symbol(s[i]) is Some {
        prepend(seq![symbol(s[i])->Some_0], lex(s, i + 1))
    } else if is_lower(s[i]) {
        prepend(seq![Token::Ident(s[i] as char)], lex(s, i + 1))
    } else if is_digit(s[i]) {
        let n = 1 + digit_run(s, i + 1);
        let v = digits_value(s.subrange(i, i + n));
        if v > i64::MAX {
            Err(TokenizeError::Overflow { pos: i as usize })
        } else {
            prepend(seq![Token::Num(v as i64)], lex(s, i + n))
        }
    } else {
        Err(TokenizeError::Unexpected { pos: i as usize })
    }
}

pub proof fn lemma_digit_run_bound(s: Seq<u8>, i: int)
    requires
        0 <= i <= s.len(),
    ensures
        i + digit_run(s, i) <= s.len(),
        forall|k: int| i <= k < i + digit_run(s, i) ==> is_digit(#[trigger] s[k]),
        i + digit_run(s, i) < s.len() ==> !is_digit(s[i + digit_run(s, i)]),
    decreases s.len() - i,
{
    if i < s.len() && is_digit(s[i]) {
        lemma_digit_run_bound(s, i + 1);
    }
}

#[via_fn]
proof fn lex_decreases(s: Seq<u8>, i: int) {
    if 0 <= i < s.len() {
        lemma_digit_run_bound(s, i + 1);
    }
}

/// A token list as the tokenizer produces it: it ends with `EOF`, and every
/// identifier is a lowercase letter.
pub open spec fn well_formed_tokens(ts: Seq<Token>) -> bool {
    &&& ts.len() > 0
    &&& ts.last() == Token::EOF
    &&& forall|i: int| 0 <= i < ts.len() && (#[trigger] ts[i]) is Ident ==> is_letter(ts[i]->Ident_0)
}

pub proof fn lemma_prepend_push<E>(ts: Seq<Token>, t: Token, r: Result<Seq<Token>, E>)
    ensures
        prepend(ts, prepend(seq![t], r)) == prepend(ts.push(t), r),
{
    if r is Ok {
        assert(ts + (seq![t] + r->Ok_0) =~= ts.push(t) + r->Ok_0);
    }
}

/// The token of a one-byte symbol, if `b` is one.
fn symbol_token(b: u8) -> (r: Option<Token>)
    ensures
        r == symbol(b),
{
    if b == 0x3Du8 {
        Some(Token::Assign)
    } else if b == 0x3Bu8 {
        Some(Token::Semicolon)
    } else if b == 0x2Bu8 {
        Some(Token::Plus)
    } else if b == 0x2Du8 {
        Some(Token::Minus)
    } else if b == 0x2Au8 {
        Some(Token::Asterisk)
    } else if b == 0x2Fu8 {
        Some(Token::Slash)
    } else if b == 0x28u8 {
        Some(Token::Lparen)
    } else if b == 0x29u8 {
        Some(Token::Rparen)
    } else {
        None
    }
}

/// Reads the run of digits that starts at `*pos`. When its decimal value fits
/// in an `i64`, returns it and moves `*pos` past the run; otherwise returns
/// `None` and leaves `*pos` where it was.
pub fn strtonum(s: &[u8], pos: &mut usize) -> (r: Option<i64>)
    requires
        *old(pos) < s@.len(),
        is_digit(s@[*old(pos) as int]),
    ensures
        ({
            let start = *old(pos) as int;
            let n = digit_run(s@, start);
            let v = digits_value(s@.subrange(start, start + n));
            &&& v <= i64::MAX ==> r == Some(v as i64) && *final(pos) == start + n
            &&& v > i64::MAX ==> r is None && *final(pos) == start
        }),
{
    let start = *pos;
    let mut i: usize = start;
    let mut acc: i64 = 0;
    let mut too_big: bool = false;
    proof {
        lemma_digit_run_bound(s@, start as int);
    }
    while i < s.len() && 0x30u8 <= s[i] && s[i] <= 0x39u8
        invariant
            start <= i <= start + digit_run(s@, start as int),
            start + digit_run(s@, start as int) <= s@.len(),
            forall|k: int| start <= k < start + digit_run(s@, start as int) ==> is_digit(#[trigger] s@[k]),
            start + digit_run(s@, start as int) < s@.len() ==> !is_digit(s@[start + digit_run(s@, start as int)]),
            !too_big ==> acc >= 0 && acc as int == digits_value(s@.subrange(start as int, i as int)),
            too_big ==> digits_value(s@.subrange(start as int, i as int)) > i64::MAX,
        decreases s@.len() - i,
    {
        let d = (s[i] - 0x30u8) as i64;
        proof {
            assert(s@.subrange(start as int, i + 1).drop_last() =~= s@.subrange(start as int, i as int));
        }
        if !too_big {
            if acc < 922337203685477580 || (acc == 922337203685477580 && d <= 7) {
                acc = acc * 10 + d;
            } else {
                too_big = true;
            }
        }
        i = i + 1;
    }
    if too_big {
        None
    } else {
        *pos = i;
        Some(acc)
    }
}

/// Splits source text into tokens: whitespace is skipped, each of
/// `= ; + - * / ( )` and each lowercase letter is one token, a maximal run of
/// digits is one number, and the list ends with a single `EOF`.
pub fn tokenize(p: &str) -> (r: Result<Vec<Token>, TokenizeError>)
    ensures
        r is Ok <==> lex(p.spec_bytes(), 0) is Ok,
        r is Ok ==> r->Ok_0@ == lex(p.spec_bytes(), 0)->Ok_0,
        r is Err ==> r->Err_0 == lex(p.spec_bytes(), 0)->Err_0,
        r is Ok ==> well_formed_tokens(r->Ok_0@),
{
    let s = p.as_bytes();
    let ghost b = s@;
    let mut tokens: Vec<Token> = Vec::new();
    let mut i: usize = 0;
    while i < s.len()
        invariant
            b == s@,
            b == p.spec_bytes(),
            i <= s@.len(),
            lex(b, 0) == prepend(tokens@, lex(b, i as int)),
            forall|k: int| 0 <= k < tokens@.len() && (#[trigger] tokens@[k]) is Ident ==> is_letter(tokens@[k]->Ident_0),
        decreases s@.len() - i,
    {
        let c = s[i];
        // space, tab, line feed, form feed, carriage return
        if c == 0x20u8 || c == 0x09u8 || c == 0x0Au8 || c == 0x0Cu8 || c == 0x0Du8 {
            i = i + 1;
            continue;
        }
        match symbol_token(c) {
            Some(t) => {
                proof {
                    lemma_prepend_push(tokens@, t, lex(b, i + 1));
                }
                tokens.push(t);
                i = i + 1;
                continue;
            },
            None => {},
        }
        // 'a'..='z'
        if 0x61u8 <= c && c <= 0x7Au8 {
            proof {
                lemma_prepend_push(tokens@, Token::Ident(c as char), lex(b, i + 1));
            }
            tokens.push(Token::Ident(c as char));
            i = i + 1;
        } else if 0x30u8 <= c && c <= 0x39u8 {
            // '0'..='9': a number, read by strtonum
            let mut q = i;
            assert(digit_run(b, i as int) == 1 + digit_run(b, i + 1));
            proof {
                lemma_digit_run_bound(b, i as int);
            }
            match strtonum(s, &mut q) {
                Some(v) => {
                    proof {
                        lemma_prepend_push(tokens@, Token::Num(v), lex(b, q as int));
                    }
                    tokens.push(Token::Num(v));
                    i = q;
                },
                None => {
                    return Err(TokenizeError::Overflow { pos: i });
                },
            }
        } else {
            return Err(TokenizeError::Unexpected { pos: i });
        }
    }
    assert(tokens@.push(Token::EOF) =~= tokens@ + seq![Token::EOF]);
    tokens.push(Token::EOF);
    Ok(tokens)
}

} // verus!
