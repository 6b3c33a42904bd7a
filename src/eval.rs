use vstd::prelude::*;

use crate::machine::two_64;
use crate::token::{Node, Token};

verus! {

/// Where variable `c` lives among the frame's slots: `z` in slot 0, `y` in
/// slot 1, ..., `a` in slot 25.
pub open spec fn slot_index(c: char) -> int {
    'z' as int - c as int
}

/// The value of operator `op` on `a` and `b`, as 64-bit words: sums,
/// differences and products wrap around, division is unsigned and undefined
/// by zero. Being unsigned, division does not give the signed quotient of
/// words that stand for negative numbers; the language leaves that case open.
pub open spec fn apply(op: Token, a: u64, b: u64) -> Option<u64> {
    match op {
        Token::Plus => Some(a.wrapping_add(b)),
        Token::Minus => Some(a.wrapping_sub(b)),
        Token::Asterisk => Some(((a as int * b as int) % two_64()) as u64),
        Token::Slash => if b == 0 {
            None
        } else {
            Some((a as int / b as int) as u64)
        },
        _ => None,
    }
}

/// The value of expression `n` with the variables holding `env` (indexed by
/// `slot_index`), and the variables afterwards. Operands are evaluated left
/// to right; an assignment stores the value of its right side and has that
/// value. `None` where a division by zero occurs.
pub open spec fn eval(n: Node, env: Seq<u64>) -> Option<(u64, Seq<u64>)>
    decreases n,
{
    match n.token {
        Token::Num(v) => Some((v as u64, env)),
        Token::Ident(c) => Some((env[slot_index(c)], env)),
        _ => match (n.lhs, n.rhs) {
            (Some(l), Some(r)) => if n.token is Assign {
                match eval(*r, env) {
                    Some((v, e)) => Some((v, e.update(slot_index(l.token->Ident_0), v))),
                    None => None,
                }
            } else {
                match eval(*l, env) {
                    Some((a, e1)) => match eval(*r, e1) {
                        Some((b, e2)) => match apply(n.token, a, b) {
                            Some(v) => Some((v, e2)),
                            None => None,
                        },
                        None => None,
                    },
                    None => None,
                }
            },
            _ => None,
        },
    }
}

/// Runs the statements of `ns` in order from variables `env`; gives the value
/// of the last one (`last` when there is none) and the variables afterwards.
pub open spec fn eval_program(ns: Seq<Node>, env: Seq<u64>, last: u64) -> Option<(u64, Seq<u64>)>
    decreases ns.len(),
{
    if ns.len() == 0 {
        Some((last, env))
    } else {
        match eval_program(ns.drop_last(), env, last) {
            Some((_, e)) => eval(ns.last(), e),
            None => None,
        }
    }
}

/// Evaluation keeps the number of variable slots.
pub proof fn lemma_eval_len(n: Node, env: Seq<u64>)
    requires
        n.wf(),
        env.len() == 26,
    ensures
        eval(n, env) is Some ==> eval(n, env)->Some_0.1.len() == env.len(),
    decreases n,
{
    match (n.lhs, n.rhs) {
        (Some(l), Some(r)) => {
            lemma_eval_len(*r, env);
            lemma_eval_len(*l, env);
            if n.token is Assign {
                let c = l.token->Ident_0;
                assert(l.wf());
                assert(crate::token::is_letter(c));
                assert(0 <= slot_index(c) < 26);
            }
            if eval(*l, env) is Some {
                lemma_eval_len(*r, eval(*l, env)->Some_0.1);
            }
        },
        _ => {},
    }
}

} // verus!
