use vstd::prelude::*;

use crate::eval::{eval, eval_program, slot_index};
use crate::parse::{at, lemma_add_advances, lemma_term_advances, ParseError, parse_add, parse_add_rest, parse_assign, parse_assign_rest, parse_mul, parse_mul_rest, parse_stmt, parse_term};
use crate::token::{digit_run, digits_value, is_digit, is_letter, is_lower, is_source_byte, is_space, lemma_digit_run_bound, lex, symbol, Node, Token, TokenizeError};

verus! {

/// A token that is an operand on its own: a number or a variable.
pub open spec fn is_atom(t: Token) -> bool {
    t is Num || (t is Ident && is_letter(t->Ident_0))
}

pub open spec fn is_additive(t: Token) -> bool {
    t is Plus || t is Minus
}

pub open spec fn is_multiplicative(t: Token) -> bool {
    t is Asterisk || t is Slash
}

/// A successful read of tree `n` that stopped at index `q`.
pub open spec fn ok(n: Node, q: int) -> Result<(Node, int), ParseError> {
    Ok((n, q))
}

pub open spec fn leaf(t: Token) -> Node {
    Node::leaf(t)
}

pub open spec fn branch(t: Token, l: Node, r: Node) -> Node {
    Node::branch(t, l, r)
}

/// Parentheses that restate the grouping change nothing: `x + y * z;` and
/// `x + (y * z);` read as the same tree, the product under the sum.
pub proof fn law_optional_parens_right(x: Token, op1: Token, y: Token, op2: Token, z: Token)
    requires
        is_atom(x),
        is_atom(y),
        is_atom(z),
        is_additive(op1),
        is_multiplicative(op2),
    ensures
        parse_stmt(seq![x, op1, y, op2, z, Token::Semicolon, Token::EOF], 0)
            == ok(branch(op1, leaf(x), branch(op2, leaf(y), leaf(z))), 6),
        parse_stmt(seq![x, op1, Token::Lparen, y, op2, z, Token::Rparen, Token::Semicolon, Token::EOF], 0)
            == ok(branch(op1, leaf(x), branch(op2, leaf(y), leaf(z))), 8),
{
    let ts = seq![x, op1, y, op2, z, Token::Semicolon, Token::EOF];
    let yz = branch(op2, leaf(y), leaf(z));
    let n = branch(op1, leaf(x), yz);
    assert(parse_term(ts, 0) == ok(leaf(x), 1));
    assert(parse_mul_rest(ts, leaf(x), 1) == ok(leaf(x), 1));
    assert(parse_mul(ts, 0) == ok(leaf(x), 1));
    assert(parse_term(ts, 2) == ok(leaf(y), 3));
    assert(parse_term(ts, 4) == ok(leaf(z), 5));
    assert(parse_mul_rest(ts, yz, 5) == ok(yz, 5));
    assert(parse_mul_rest(ts, leaf(y), 3) == ok(yz, 5));
    assert(parse_mul(ts, 2) == ok(yz, 5));
    assert(parse_add_rest(ts, n, 5) == ok(n, 5));
    assert(parse_add_rest(ts, leaf(x), 1) == ok(n, 5));
    assert(parse_add(ts, 0) == ok(n, 5));
    assert(parse_assign_rest(ts, n, 5) == ok(n, 5));
    assert(parse_assign(ts, 0) == ok(n, 5));

    let ps = seq![x, op1, Token::Lparen, y, op2, z, Token::Rparen, Token::Semicolon, Token::EOF];
    assert(parse_term(ps, 0) == ok(leaf(x), 1));
    assert(parse_mul_rest(ps, leaf(x), 1) == ok(leaf(x), 1));
    assert(parse_mul(ps, 0) == ok(leaf(x), 1));
    assert(parse_term(ps, 3) == ok(leaf(y), 4));
    assert(parse_term(ps, 5) == ok(leaf(z), 6));
    assert(parse_mul_rest(ps, yz, 6) == ok(yz, 6));
    assert(parse_mul_rest(ps, leaf(y), 4) == ok(yz, 6));
    assert(parse_mul(ps, 3) == ok(yz, 6));
    assert(parse_add_rest(ps, yz, 6) == ok(yz, 6));
    assert(parse_add(ps, 3) == ok(yz, 6));
    assert(parse_term(ps, 2) == ok(yz, 7));
    assert(parse_mul_rest(ps, yz, 7) == ok(yz, 7));
    assert(parse_mul(ps, 2) == ok(yz, 7));
    assert(parse_add_rest(ps, n, 7) == ok(n, 7));
    assert(parse_add_rest(ps, leaf(x), 1) == ok(n, 7));
    assert(parse_add(ps, 0) == ok(n, 7));
    assert(parse_assign_rest(ps, n, 7) == ok(n, 7));
    assert(parse_assign(ps, 0) == ok(n, 7));
}

/// Parentheses that restate the grouping change nothing: `x * y + z;` and
/// `(x * y) + z;` read as the same tree, the product under the sum.
pub proof fn law_optional_parens_left(x: Token, op2: Token, y: Token, op1: Token, z: Token)
    requires
        is_atom(x),
        is_atom(y),
        is_atom(z),
        is_additive(op1),
        is_multiplicative(op2),
    ensures
        parse_stmt(seq![x, op2, y, op1, z, Token::Semicolon, Token::EOF], 0)
            == ok(branch(op1, branch(op2, leaf(x), leaf(y)), leaf(z)), 6),
        parse_stmt(seq![Token::Lparen, x, op2, y, Token::Rparen, op1, z, Token::Semicolon, Token::EOF], 0)
            == ok(branch(op1, branch(op2, leaf(x), leaf(y)), leaf(z)), 8),
{
    let ts = seq![x, op2, y, op1, z, Token::Semicolon, Token::EOF];
    let xy = branch(op2, leaf(x), leaf(y));
    let n = branch(op1, xy, leaf(z));
    assert(parse_term(ts, 0) == ok(leaf(x), 1));
    assert(parse_term(ts, 2) == ok(leaf(y), 3));
    assert(parse_mul_rest(ts, xy, 3) == ok(xy, 3));
    assert(parse_mul_rest(ts, leaf(x), 1) == ok(xy, 3));
    assert(parse_mul(ts, 0) == ok(xy, 3));
    assert(parse_term(ts, 4) == ok(leaf(z), 5));
    assert(parse_mul_rest(ts, leaf(z), 5) == ok(leaf(z), 5));
    assert(parse_mul(ts, 4) == ok(leaf(z), 5));
    assert(parse_add_rest(ts, n, 5) == ok(n, 5));
    assert(parse_add_rest(ts, xy, 3) == ok(n, 5));
    assert(parse_add(ts, 0) == ok(n, 5));
    assert(parse_assign_rest(ts, n, 5) == ok(n, 5));
    assert(parse_assign(ts, 0) == ok(n, 5));

    let ps = seq![Token::Lparen, x, op2, y, Token::Rparen, op1, z, Token::Semicolon, Token::EOF];
    assert(parse_term(ps, 1) == ok(leaf(x), 2));
    assert(parse_term(ps, 3) == ok(leaf(y), 4));
    assert(parse_mul_rest(ps, xy, 4) == ok(xy, 4));
    assert(parse_mul_rest(ps, leaf(x), 2) == ok(xy, 4));
    assert(parse_mul(ps, 1) == ok(xy, 4));
    assert(parse_add_rest(ps, xy, 4) == ok(xy, 4));
    assert(parse_add(ps, 1) == ok(xy, 4));
    assert(parse_term(ps, 0) == ok(xy, 5));
    assert(parse_mul_rest(ps, xy, 5) == ok(xy, 5));
    assert(parse_mul(ps, 0) == ok(xy, 5));
    assert(parse_term(ps, 6) == ok(leaf(z), 7));
    assert(parse_mul_rest(ps, leaf(z), 7) == ok(leaf(z), 7));
    assert(parse_mul(ps, 6) == ok(leaf(z), 7));
    assert(parse_add_rest(ps, n, 7) == ok(n, 7));
    assert(parse_add_rest(ps, xy, 5) == ok(n, 7));
    assert(parse_add(ps, 0) == ok(n, 7));
    assert(parse_assign_rest(ps, n, 7) == ok(n, 7));
    assert(parse_assign(ps, 0) == ok(n, 7));
}

/// An operand read at `i`: a number, a variable or a parenthesized group.
pub open spec fn operand(ts: Seq<Token>, i: int) -> Node {
    parse_term(ts, i)->Ok_0.0
}

/// The index just after the operand read at `i`.
pub open spec fn after(ts: Seq<Token>, i: int) -> int {
    parse_term(ts, i)->Ok_0.1
}

/// Three operands at `i`, `j + 1` and `k + 1`, where `j` and `k` are the
/// indices right after the first two, and `m` the index right after the
/// third, which holds no arithmetic operator.
pub open spec fn three_operands(ts: Seq<Token>, i: int, j: int, k: int, m: int) -> bool {
    &&& parse_term(ts, i) is Ok && after(ts, i) == j
    &&& parse_term(ts, j + 1) is Ok && after(ts, j + 1) == k
    &&& parse_term(ts, k + 1) is Ok && after(ts, k + 1) == m
    &&& 0 <= m < ts.len()
    &&& !is_additive(ts[m]) && !is_multiplicative(ts[m])
}

/// For any operands `a`, `b`, `c`: `a + b * c` reads as `a + (b * c)`
/// (and likewise with `-` and `/`).
pub proof fn law_precedence_right(ts: Seq<Token>, i: int, j: int, k: int, m: int)
    requires
        three_operands(ts, i, j, k, m),
        is_additive(ts[j]),
        is_multiplicative(ts[k]),
    ensures
        parse_add(ts, i) == ok(branch(ts[j], operand(ts, i), branch(ts[k], operand(ts, j + 1), operand(ts, k + 1))), m),
{
    lemma_term_advances(ts, i);
    lemma_term_advances(ts, j + 1);
    lemma_term_advances(ts, k + 1);
    let (a, b, c) = (operand(ts, i), operand(ts, j + 1), operand(ts, k + 1));
    let bc = branch(ts[k], b, c);
    let n = branch(ts[j], a, bc);
    assert(parse_mul_rest(ts, a, j) == ok(a, j));
    assert(parse_mul(ts, i) == ok(a, j));
    assert(parse_mul_rest(ts, bc, m) == ok(bc, m));
    assert(parse_mul_rest(ts, b, k) == ok(bc, m));
    assert(parse_mul(ts, j + 1) == ok(bc, m));
    assert(parse_add_rest(ts, n, m) == ok(n, m));
    assert(parse_add_rest(ts, a, j) == ok(n, m));
}

/// For any operands `a`, `b`, `c`: `a * b + c` reads as `(a * b) + c`
/// (and likewise with `/` and `-`).
pub proof fn law_precedence_left(ts: Seq<Token>, i: int, j: int, k: int, m: int)
    requires
        three_operands(ts, i, j, k, m),
        is_multiplicative(ts[j]),
        is_additive(ts[k]),
    ensures
        parse_add(ts, i) == ok(branch(ts[k], branch(ts[j], operand(ts, i), operand(ts, j + 1)), operand(ts, k + 1)), m),
{
    lemma_term_advances(ts, i);
    lemma_term_advances(ts, j + 1);
    lemma_term_advances(ts, k + 1);
    let (a, b, c) = (operand(ts, i), operand(ts, j + 1), operand(ts, k + 1));
    let ab = branch(ts[j], a, b);
    let n = branch(ts[k], ab, c);
    assert(parse_mul_rest(ts, ab, k) == ok(ab, k));
    assert(parse_mul_rest(ts, a, j) == ok(ab, k));
    assert(parse_mul(ts, i) == ok(ab, k));
    assert(parse_mul_rest(ts, c, m) == ok(c, m));
    assert(parse_mul(ts, k + 1) == ok(c, m));
    assert(parse_add_rest(ts, n, m) == ok(n, m));
    assert(parse_add_rest(ts, ab, k) == ok(n, m));
}

/// Sums and differences group to the left: `a - b - c` reads as
/// `(a - b) - c`.
pub proof fn law_additive_left_assoc(ts: Seq<Token>, i: int, j: int, k: int, m: int)
    requires
        three_operands(ts, i, j, k, m),
        is_additive(ts[j]),
        is_additive(ts[k]),
    ensures
        parse_add(ts, i) == ok(branch(ts[k], branch(ts[j], operand(ts, i), operand(ts, j + 1)), operand(ts, k + 1)), m),
{
    lemma_term_advances(ts, i);
    lemma_term_advances(ts, j + 1);
    lemma_term_advances(ts, k + 1);
    let (a, b, c) = (operand(ts, i), operand(ts, j + 1), operand(ts, k + 1));
    let ab = branch(ts[j], a, b);
    let n = branch(ts[k], ab, c);
    assert(parse_mul_rest(ts, a, j) == ok(a, j));
    assert(parse_mul(ts, i) == ok(a, j));
    assert(parse_mul_rest(ts, b, k) == ok(b, k));
    assert(parse_mul(ts, j + 1) == ok(b, k));
    assert(parse_mul_rest(ts, c, m) == ok(c, m));
    assert(parse_mul(ts, k + 1) == ok(c, m));
    assert(parse_add_rest(ts, n, m) == ok(n, m));
    assert(parse_add_rest(ts, ab, k) == ok(n, m));
    assert(parse_add_rest(ts, a, j) == ok(n, m));
}

/// Products and quotients group to the left: `a / b * c` reads as
/// `(a / b) * c`.
pub proof fn law_multiplicative_left_assoc(ts: Seq<Token>, i: int, j: int, k: int, m: int)
    requires
        three_operands(ts, i, j, k, m),
        is_multiplicative(ts[j]),
        is_multiplicative(ts[k]),
    ensures
        parse_mul(ts, i) == ok(branch(ts[k], branch(ts[j], operand(ts, i), operand(ts, j + 1)), operand(ts, k + 1)), m),
{
    lemma_term_advances(ts, i);
    lemma_term_advances(ts, j + 1);
    lemma_term_advances(ts, k + 1);
    let (a, b, c) = (operand(ts, i), operand(ts, j + 1), operand(ts, k + 1));
    let ab = branch(ts[j], a, b);
    let n = branch(ts[k], ab, c);
    assert(parse_mul_rest(ts, n, m) == ok(n, m));
    assert(parse_mul_rest(ts, ab, k) == ok(n, m));
    assert(parse_mul_rest(ts, a, j) == ok(n, m));
}

/// Assignments group to the right: `p = q = e` reads as `p = (q = e)`, and
/// evaluating it stores the value of `e` in `q` and then that same value,
/// not `q`'s earlier one, in `p`; that value is also the whole expression's.
pub proof fn law_assign_right_assoc(ts: Seq<Token>, i: int, m: int, env: Seq<u64>)
    requires
        0 <= i,
        i + 4 < ts.len(),
        ts[i] is Ident,
        ts[i + 1] == Token::Assign,
        ts[i + 2] is Ident,
        ts[i + 3] == Token::Assign,
        parse_add(ts, i + 4) is Ok,
        parse_add(ts, i + 4)->Ok_0.1 == m,
        0 <= m < ts.len(),
        ts[m] != Token::Assign,
    ensures
        ({
            let (p, q) = (ts[i]->Ident_0, ts[i + 2]->Ident_0);
            let e = parse_add(ts, i + 4)->Ok_0.0;
            let n = branch(Token::Assign, leaf(ts[i]), branch(Token::Assign, leaf(ts[i + 2]), e));
            &&& parse_assign(ts, i) == ok(n, m)
            &&& eval(n, env) == match eval(e, env) {
                Some((v, f)) => Some((v, f.update(slot_index(q), v).update(slot_index(p), v))),
                None => None,
            }
        }),
{
    lemma_add_advances(ts, i + 4);
    let e = parse_add(ts, i + 4)->Ok_0.0;
    let lp = leaf(ts[i]);
    let lq = leaf(ts[i + 2]);
    let qe = branch(Token::Assign, lq, e);
    let n = branch(Token::Assign, lp, qe);
    assert(parse_term(ts, i) == ok(lp, i + 1));
    assert(parse_mul_rest(ts, lp, i + 1) == ok(lp, i + 1));
    assert(parse_mul(ts, i) == ok(lp, i + 1));
    assert(parse_add_rest(ts, lp, i + 1) == ok(lp, i + 1));
    assert(parse_add(ts, i) == ok(lp, i + 1));
    assert(parse_term(ts, i + 2) == ok(lq, i + 3));
    assert(parse_mul_rest(ts, lq, i + 3) == ok(lq, i + 3));
    assert(parse_mul(ts, i + 2) == ok(lq, i + 3));
    assert(parse_add_rest(ts, lq, i + 3) == ok(lq, i + 3));
    assert(parse_add(ts, i + 2) == ok(lq, i + 3));
    assert(parse_assign_rest(ts, e, m) == ok(e, m));
    assert(parse_assign(ts, i + 4) == ok(e, m));
    assert(parse_assign_rest(ts, qe, m) == ok(qe, m));
    assert(parse_assign_rest(ts, lq, i + 3) == ok(qe, m));
    assert(parse_assign(ts, i + 2) == ok(qe, m));
    assert(parse_assign_rest(ts, n, m) == ok(n, m));
    assert(parse_assign_rest(ts, lp, i + 1) == ok(n, m));
    let (p, q) = (ts[i]->Ident_0, ts[i + 2]->Ident_0);
    assert(eval(qe, env) == match eval(e, env) {
        Some((v, f)) => Some((v, f.update(slot_index(q), v))),
        None => None,
    });
}

/// An assignment is an expression: its value is the value of its right
/// side, and afterwards the target variable holds that value.
pub proof fn law_assignment_value(c: char, r: Node, env: Seq<u64>)
    requires
        is_letter(c),
        r.wf(),
        env.len() == 26,
    ensures
        ({
            let n = branch(Token::Assign, leaf(Token::Ident(c)), r);
            &&& eval(n, env) is Some <==> eval(r, env) is Some
            &&& eval(n, env) is Some ==> {
                &&& eval(n, env)->Some_0.0 == eval(r, env)->Some_0.0
                &&& eval(n, env)->Some_0.1[slot_index(c)] == eval(r, env)->Some_0.0
            }
        }),
{
    crate::eval::lemma_eval_len(r, env);
}

/// A program's result is the value of its last statement, evaluated with the
/// variables as the statements before it left them.
pub proof fn law_sequencing(ns: Seq<Node>, n: Node, env: Seq<u64>, last: u64)
    ensures
        eval_program(ns.push(n), env, last) == match eval_program(ns, env, last) {
            Some((_, e)) => eval(n, e),
            None => None,
        },
{
    assert(ns.push(n).drop_last() =~= ns);
}

/// Whether `n` holds an assignment to variable `c`.
pub open spec fn assigns(n: Node, c: char) -> bool
    decreases n,
{
    match (n.lhs, n.rhs) {
        (Some(l), Some(r)) => (n.token is Assign && l.token == Token::Ident(c)) || assigns(*l, c) || assigns(*r, c),
        _ => false,
    }
}

/// Evaluating an expression leaves every variable that it does not assign
/// to as it was.
pub proof fn law_other_slots_unchanged(n: Node, env: Seq<u64>, d: char)
    requires
        n.wf(),
        env.len() == 26,
        is_letter(d),
        !assigns(n, d),
    ensures
        eval(n, env) is Some ==> eval(n, env)->Some_0.1[slot_index(d)] == env[slot_index(d)],
    decreases n,
{
    match (n.lhs, n.rhs) {
        (Some(l), Some(r)) => {
            law_other_slots_unchanged(*r, env, d);
            crate::eval::lemma_eval_len(*r, env);
            if n.token is Assign {
                assert(l.wf());
                let c = l.token->Ident_0;
                assert(c != d);
                assert(slot_index(c) != slot_index(d));
            } else {
                law_other_slots_unchanged(*l, env, d);
                crate::eval::lemma_eval_len(*l, env);
                if eval(*l, env) is Some {
                    law_other_slots_unchanged(*r, eval(*l, env)->Some_0.1, d);
                }
            }
        },
        _ => {},
    }
}

/// Parentheses around a sum read as the sum itself: the group `( e )` gives
/// exactly the tree of `e`, so wrapping `e` changes neither its shape nor
/// its value.
pub proof fn law_parenthesized_same_tree(ts: Seq<Token>, pos: int)
    requires
        at(ts, pos, Token::Lparen),
        parse_add(ts, pos + 1) is Ok,
        at(ts, parse_add(ts, pos + 1)->Ok_0.1, Token::Rparen),
    ensures
        parse_term(ts, pos) == ok(parse_add(ts, pos + 1)->Ok_0.0, parse_add(ts, pos + 1)->Ok_0.1 + 1),
{
}

/// Index `i` starts a maximal run of digits.
pub open spec fn run_start(s: Seq<u8>, i: int) -> bool {
    0 <= i < s.len() && is_digit(s[i]) && (i == 0 || !is_digit(s[i - 1]))
}

/// Every run of digits that starts in `[lo, hi)` has a value that fits in
/// an `i64`.
pub open spec fn runs_fit(s: Seq<u8>, lo: int, hi: int) -> bool {
    forall|i: int| lo <= i < hi && #[trigger] run_start(s, i) ==> digits_value(s.subrange(i, i + digit_run(s, i))) <= i64::MAX
}

/// Whether byte `i` begins a token: a symbol, a letter, or the first digit
/// of a number.
pub open spec fn starts_token(s: Seq<u8>, i: int) -> bool {
    0 <= i < s.len() && (symbol(s[i]) is Some || is_lower(s[i]) || run_start(s, i))
}

/// How many tokens begin at byte `i` or later.
pub open spec fn token_count(s: Seq<u8>, i: int) -> nat
    decreases s.len() - i,
{
    if i < 0 || i >= s.len() {
        0
    } else {
        (if starts_token(s, i) { 1nat } else { 0nat }) + token_count(s, i + 1)
    }
}

/// No token begins inside a run of digits after its first one.
proof fn lemma_count_in_run(s: Seq<u8>, a: int, j: int)
    requires
        0 < a <= j <= s.len(),
        forall|k: int| a - 1 <= k < j ==> is_digit(#[trigger] s[k]),
    ensures
        token_count(s, a) == token_count(s, j),
    decreases j - a,
{
    if a < j {
        assert(is_digit(s[a]) && is_digit(s[a - 1]));
        lemma_count_in_run(s, a + 1, j);
    }
}

proof fn lemma_lex_scan(s: Seq<u8>, i: int, bad: int)
    requires
        0 <= i <= bad <= s.len(),
        i == 0 || i >= s.len() || !is_digit(s[i - 1]) || !is_digit(s[i]),
        forall|k: int| i <= k < bad ==> is_source_byte(#[trigger] s[k]),
        runs_fit(s, i, bad),
        bad < s.len() ==> !is_source_byte(s[bad]),
    ensures
        bad == s.len() ==> lex(s, i) is Ok && lex(s, i)->Ok_0.len() == 1 + token_count(s, i),
        bad < s.len() ==> lex(s, i) == Err::<Seq<Token>, TokenizeError>(TokenizeError::Unexpected { pos: bad as usize }),
    decreases s.len() - i,
{
    if i < s.len() && i < bad {
        assert(is_source_byte(s[i]));
        if is_space(s[i]) || symbol(s[i]) is Some || is_lower(s[i]) {
            lemma_lex_scan(s, i + 1, bad);
        } else {
            assert(run_start(s, i));
            lemma_digit_run_bound(s, i);
            let j = i + digit_run(s, i);
            assert(digit_run(s, i) == 1 + digit_run(s, i + 1));
            if j > bad {
                assert(is_digit(s[bad]));
            }
            lemma_lex_scan(s, j, bad);
            lemma_count_in_run(s, i + 1, j);
        }
    }
}

/// Every text made of digits, lowercase letters, the eight symbols and
/// whitespace is tokenized without error, provided each number in it fits
/// in an `i64`; it gives one token per symbol, per letter and per run of
/// digits, and the final `EOF`.
pub proof fn law_tokenize_total(s: Seq<u8>)
    requires
        forall|k: int| 0 <= k < s.len() ==> is_source_byte(#[trigger] s[k]),
        runs_fit(s, 0, s.len() as int),
    ensures
        lex(s, 0) is Ok,
        lex(s, 0)->Ok_0.len() == 1 + token_count(s, 0),
{
    lemma_lex_scan(s, 0, s.len() as int);
}

/// Any other byte makes tokenizing fail, at the first such byte.
pub proof fn law_tokenize_rejects(s: Seq<u8>, bad: int)
    requires
        0 <= bad < s.len(),
        !is_source_byte(s[bad]),
        forall|k: int| 0 <= k < bad ==> is_source_byte(#[trigger] s[k]),
        runs_fit(s, 0, bad),
    ensures
        lex(s, 0) == Err::<Seq<Token>, TokenizeError>(TokenizeError::Unexpected { pos: bad as usize }),
{
    lemma_lex_scan(s, 0, bad);
}

} // verus!
