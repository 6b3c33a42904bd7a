use vstd::prelude::*;

use crate::eval::{apply, eval, eval_program, lemma_eval_len, slot_index};
use crate::machine::{frame_index, lemma_run_append, run, two_64, Instr, MachineState, FRAME_SIZE};
use crate::token::{is_letter, Node, Token};

verus! {

/// How far below the frame base variable `c` lives: 8 bytes for `z`, 16 for
/// `y`, ..., 208 for `a`.
pub open spec fn offset(c: char) -> int {
    (slot_index(c) + 1) * 8
}

/// Pushes the address of variable `c`.
pub open spec fn lval_code(c: char) -> Seq<Instr> {
    seq![Instr::MovRaxRbp, Instr::SubRaxImm(offset(c) as u64), Instr::PushRax]
}

/// Replaces the address on top of the stack by the value stored there.
pub open spec fn load_tail() -> Seq<Instr> {
    seq![Instr::PopRax, Instr::LoadRax, Instr::PushRax]
}

/// Stores the value on top of the stack at the address below it, leaving
/// the value.
pub open spec fn store_tail() -> Seq<Instr> {
    seq![Instr::PopRdi, Instr::PopRax, Instr::StoreRdi, Instr::PushRdi]
}

/// Replaces the two values on top of the stack by `op` applied to them.
pub open spec fn binop_tail(op: Token) -> Seq<Instr> {
    match op {
        Token::Plus => seq![Instr::PopRdi, Instr::PopRax, Instr::AddRaxRdi, Instr::PushRax],
        Token::Minus => seq![Instr::PopRdi, Instr::PopRax, Instr::SubRaxRdi, Instr::PushRax],
        Token::Asterisk => seq![Instr::PopRdi, Instr::PopRax, Instr::MulRdi, Instr::PushRax],
        _ => seq![Instr::PopRdi, Instr::PopRax, Instr::ZeroRdx, Instr::DivRdi, Instr::PushRax],
    }
}

/// The code for expression `n`, emitted in postorder.
pub open spec fn compile(n: Node) -> Seq<Instr>
    decreases n,
{
    match n.token {
        Token::Num(v) => seq![Instr::PushImm(v)],
        Token::Ident(c) => lval_code(c) + load_tail(),
        _ => match (n.lhs, n.rhs) {
            (Some(l), Some(r)) => if n.token is Assign {
                lval_code(l.token->Ident_0) + compile(*r) + store_tail()
            } else {
                compile(*l) + compile(*r) + binop_tail(n.token)
            },
            _ => Seq::empty(),
        },
    }
}

/// The code for a list of statements: each one's code, then a `pop rax` that
/// takes its value off the stack into the return register.
pub open spec fn compile_program(ns: Seq<Node>) -> Seq<Instr>
    decreases ns.len(),
{
    if ns.len() == 0 {
        Seq::empty()
    } else {
        compile_program(ns.drop_last()) + compile(ns.last()) + seq![Instr::PopRax]
    }
}

/// Running `code` from `s` ends as `r` says: with the value pushed on the
/// stack and the frame holding the variables afterwards, or in a fault.
pub open spec fn pushes_result(s: MachineState, code: Seq<Instr>, r: Option<(u64, Seq<u64>)>) -> bool {
    match r {
        Some((v, f)) => {
            &&& run(s, code) is Some
            &&& run(s, code)->Some_0.stack == s.stack.push(v)
            &&& run(s, code)->Some_0.frame == f
            &&& run(s, code)->Some_0.rbp == s.rbp
        },
        None => run(s, code) is None,
    }
}

/// A machine state on which the emitted code can run: a full frame below a
/// frame base that leaves room for it.
pub open spec fn ready(s: MachineState) -> bool {
    s.frame.len() == 26 && s.rbp >= FRAME_SIZE
}

proof fn lemma_lval(s: MachineState, c: char)
    requires
        ready(s),
        is_letter(c),
    ensures
        run(s, lval_code(c)) == Some(MachineState {
            rax: (s.rbp - offset(c)) as u64,
            stack: s.stack.push((s.rbp - offset(c)) as u64),
            ..s
        }),
        frame_index(s.rbp, (s.rbp - offset(c)) as u64) == Some(slot_index(c)),
{
    reveal_with_fuel(run, 4);
    let k = slot_index(c);
    assert(0 <= k < 26);
    assert(((k + 1) * 8) % 8 == 0 && ((k + 1) * 8) / 8 == k + 1) by (nonlinear_arith)
        requires 0 <= k < 26;
}

proof fn lemma_load_tail(t: MachineState, below: Seq<u64>, addr: u64, k: int)
    requires
        t.stack == below.push(addr),
        frame_index(t.rbp, addr) == Some(k),
        0 <= k < t.frame.len(),
    ensures
        run(t, load_tail()) is Some,
        run(t, load_tail())->Some_0.stack == below.push(t.frame[k]),
        run(t, load_tail())->Some_0.frame == t.frame,
        run(t, load_tail())->Some_0.rbp == t.rbp,
{
    reveal_with_fuel(run, 4);
    assert(t.stack.drop_last() =~= below);
}

proof fn lemma_store_tail(t: MachineState, below: Seq<u64>, addr: u64, v: u64, k: int)
    requires
        t.stack == below.push(addr).push(v),
        frame_index(t.rbp, addr) == Some(k),
        0 <= k < t.frame.len(),
    ensures
        run(t, store_tail()) is Some,
        run(t, store_tail())->Some_0.stack == below.push(v),
        run(t, store_tail())->Some_0.frame == t.frame.update(k, v),
        run(t, store_tail())->Some_0.rbp == t.rbp,
{
    reveal_with_fuel(run, 5);
    assert(t.stack.drop_last() =~= below.push(addr));
    assert(t.stack.drop_last().drop_last() =~= below);
}

proof fn lemma_binop_tail(t: MachineState, below: Seq<u64>, op: Token, a: u64, b: u64)
    requires
        t.stack == below.push(a).push(b),
        is_operator_arith(op),
    ensures
        match apply(op, a, b) {
            Some(v) => {
                &&& run(t, binop_tail(op)) is Some
                &&& run(t, binop_tail(op))->Some_0.stack == below.push(v)
                &&& run(t, binop_tail(op))->Some_0.frame == t.frame
                &&& run(t, binop_tail(op))->Some_0.rbp == t.rbp
            },
            None => run(t, binop_tail(op)) is None,
        },
{
    let pops = seq![Instr::PopRdi, Instr::PopRax];
    let u = MachineState { rdi: b, rax: a, stack: below, ..t };
    assert(run(t, pops) == Some(u)) by {
        reveal_with_fuel(run, 3);
        assert(t.stack.drop_last() =~= below.push(a));
        assert(t.stack.drop_last().drop_last() =~= below);
    }
    assert(binop_tail(op) =~= pops + op_rest(op));
    lemma_run_append(t, pops, op_rest(op));
    match op {
        Token::Plus => lemma_rest_add(u),
        Token::Minus => lemma_rest_sub(u),
        Token::Asterisk => lemma_rest_mul(u),
        _ => lemma_rest_div(u),
    }
}

/// What follows the two pops in `binop_tail`.
pub open spec fn op_rest(op: Token) -> Seq<Instr> {
    match op {
        Token::Plus => seq![Instr::AddRaxRdi, Instr::PushRax],
        Token::Minus => seq![Instr::SubRaxRdi, Instr::PushRax],
        Token::Asterisk => seq![Instr::MulRdi, Instr::PushRax],
        _ => seq![Instr::ZeroRdx, Instr::DivRdi, Instr::PushRax],
    }
}

proof fn lemma_rest_add(u: MachineState)
    ensures
        run(u, op_rest(Token::Plus)) == Some(MachineState { rax: u.rax.wrapping_add(u.rdi), stack: u.stack.push(u.rax.wrapping_add(u.rdi)), ..u }),
{
    reveal_with_fuel(run, 3);
}

proof fn lemma_rest_sub(u: MachineState)
    ensures
        run(u, op_rest(Token::Minus)) == Some(MachineState { rax: u.rax.wrapping_sub(u.rdi), stack: u.stack.push(u.rax.wrapping_sub(u.rdi)), ..u }),
{
    reveal_with_fuel(run, 3);
}

proof fn lemma_rest_mul(u: MachineState)
    ensures
        run(u, op_rest(Token::Asterisk)) is Some,
        run(u, op_rest(Token::Asterisk))->Some_0.stack == u.stack.push(((u.rax as int * u.rdi as int) % two_64()) as u64),
        run(u, op_rest(Token::Asterisk))->Some_0.frame == u.frame,
        run(u, op_rest(Token::Asterisk))->Some_0.rbp == u.rbp,
{
    reveal_with_fuel(run, 3);
}

proof fn lemma_rest_div(u: MachineState)
    ensures
        u.rdi == 0 ==> run(u, op_rest(Token::Slash)) is None,
        u.rdi != 0 ==> {
            &&& run(u, op_rest(Token::Slash)) is Some
            &&& run(u, op_rest(Token::Slash))->Some_0.stack == u.stack.push((u.rax as int / u.rdi as int) as u64)
            &&& run(u, op_rest(Token::Slash))->Some_0.frame == u.frame
            &&& run(u, op_rest(Token::Slash))->Some_0.rbp == u.rbp
        },
{
    reveal_with_fuel(run, 4);
    if u.rdi != 0 {
        assert(u.rax as int / u.rdi as int <= u.rax as int) by (nonlinear_arith)
            requires u.rdi as int >= 1, u.rax as int >= 0;
        assert(0 * two_64() + u.rax as int == u.rax as int);
    }
}

pub open spec fn is_operator_arith(op: Token) -> bool {
    op is Plus || op is Minus || op is Asterisk || op is Slash
}

/// Code generation is correct: from any ready machine, the code for a
/// well-formed expression pushes exactly the expression's value, stores to
/// the frame exactly what evaluation stores, and faults exactly where
/// evaluation divides by zero.
pub proof fn lemma_compile_correct(n: Node, s: MachineState)
    requires
        n.wf(),
        ready(s),
    ensures
        pushes_result(s, compile(n), eval(n, s.frame)),
    decreases n,
{
    match n.token {
        Token::Num(v) => {
            reveal_with_fuel(run, 2);
        },
        Token::Ident(c) => {
            lemma_lval(s, c);
            lemma_run_append(s, lval_code(c), load_tail());
            let t = run(s, lval_code(c))->Some_0;
            lemma_load_tail(t, s.stack, t.rax, slot_index(c));
        },
        _ => {
            let l = *n.lhs.unwrap();
            let r = *n.rhs.unwrap();
            if n.token is Assign {
                let c = l.token->Ident_0;
                assert(l.wf());
                lemma_lval(s, c);
                let s1 = run(s, lval_code(c))->Some_0;
                lemma_compile_correct(r, s1);
                lemma_run_append(s, lval_code(c), compile(r));
                lemma_run_append(s, lval_code(c) + compile(r), store_tail());
                lemma_eval_len(r, s.frame);
                if eval(r, s.frame) is Some {
                    let t = run(s1, compile(r))->Some_0;
                    let v = eval(r, s.frame)->Some_0.0;
                    lemma_store_tail(t, s.stack, s1.rax, v, slot_index(c));
                }
            } else {
                lemma_compile_correct(l, s);
                lemma_run_append(s, compile(l), compile(r));
                lemma_run_append(s, compile(l) + compile(r), binop_tail(n.token));
                if eval(l, s.frame) is Some {
                    let t1 = run(s, compile(l))->Some_0;
                    let a = eval(l, s.frame)->Some_0.0;
                    lemma_eval_len(l, s.frame);
                    lemma_compile_correct(r, t1);
                    if eval(r, t1.frame) is Some {
                        let t2 = run(t1, compile(r))->Some_0;
                        let b = eval(r, t1.frame)->Some_0.0;
                        lemma_binop_tail(t2, s.stack, n.token, a, b);
                    }
                }
            }
        },
    }
}

/// Running `code` from `s` ends as `r` says: with the program's value in the
/// return register, the stack as it was, and the frame holding the variables
/// afterwards; or in a fault.
pub open spec fn returns_result(s: MachineState, code: Seq<Instr>, r: Option<(u64, Seq<u64>)>) -> bool {
    match r {
        Some((v, f)) => {
            &&& run(s, code) is Some
            &&& run(s, code)->Some_0.rax == v
            &&& run(s, code)->Some_0.stack == s.stack
            &&& run(s, code)->Some_0.frame == f
            &&& run(s, code)->Some_0.rbp == s.rbp
        },
        None => run(s, code) is None,
    }
}

pub open spec fn all_wf(ns: Seq<Node>) -> bool {
    forall|i: int| 0 <= i < ns.len() ==> (#[trigger] ns[i]).wf()
}

/// The code for a list of statements (what `gen` emits for each, then
/// `pop rax`, as `gen_program` builds it) leaves the value of the last one in
/// the return register and the stack as it was, with every store of every
/// statement made in order and visible to the statements after it.
pub proof fn lemma_program_correct(ns: Seq<Node>, s: MachineState)
    requires
        all_wf(ns),
        ready(s),
    ensures
        returns_result(s, compile_program(ns), eval_program(ns, s.frame, s.rax)),
        eval_program(ns, s.frame, s.rax) is Some ==> eval_program(ns, s.frame, s.rax)->Some_0.1.len() == 26,
    decreases ns.len(),
{
    if ns.len() > 0 {
        let init = ns.drop_last();
        let last = ns.last();
        assert(last.wf());
        assert(all_wf(init));
        lemma_program_correct(init, s);
        lemma_run_append(s, compile_program(init) + compile(last), seq![Instr::PopRax]);
        lemma_run_append(s, compile_program(init), compile(last));
        if eval_program(init, s.frame, s.rax) is Some {
            let t = run(s, compile_program(init))->Some_0;
            lemma_compile_correct(last, t);
            lemma_eval_len(last, t.frame);
            if eval(last, t.frame) is Some {
                let t2 = run(t, compile(last))->Some_0;
                reveal_with_fuel(run, 2);
                assert(t2.stack.drop_last() =~= s.stack);
            }
        }
    }
}

/// Emits the code that pushes the address of variable `node`.
pub fn gen_lval(node: &Node, code: &mut Vec<Instr>)
    requires
        node.token is Ident,
        is_letter(node.token->Ident_0),
    ensures
        final(code)@ == old(code)@ + lval_code(node.token->Ident_0),
{
    match node.token {
        Token::Ident(c) => {
            let off: u64 = (('z' as u64) - (c as u64) + 1) * 8;
            code.push(Instr::MovRaxRbp);
            code.push(Instr::SubRaxImm(off));
            code.push(Instr::PushRax);
            assert(code@ =~= old(code)@ + lval_code(c));
        },
        _ => {},
    }
}

/// Emits the code for expression `node`, which leaves its value on top of
/// the stack.
pub fn gen(node: &Node, code: &mut Vec<Instr>)
    requires
        node.wf(),
    ensures
        final(code)@ == old(code)@ + compile(*node),
    decreases node,
{
    match node.token {
        Token::Num(num) => {
            code.push(Instr::PushImm(num));
            assert(code@ =~= old(code)@ + compile(*node));
            return;
        },
        Token::Ident(_) => {
            gen_lval(node, code);
            code.push(Instr::PopRax);
            code.push(Instr::LoadRax);
            code.push(Instr::PushRax);
            assert(code@ =~= old(code)@ + compile(*node));
            return;
        },
        _ => {},
    }
    match (&node.lhs, &node.rhs) {
        (Some(l), Some(r)) => {
            if let Token::Assign = node.token {
                assert(l.wf());
                gen_lval(l, code);
                gen(r, code);
                code.push(Instr::PopRdi);
                code.push(Instr::PopRax);
                code.push(Instr::StoreRdi);
                code.push(Instr::PushRdi);
                assert(code@ =~= old(code)@ + compile(*node));
                return;
            }
            gen(l, code);
            gen(r, code);
            code.push(Instr::PopRdi);
            code.push(Instr::PopRax);
            match node.token {
                Token::Plus => code.push(Instr::AddRaxRdi),
                Token::Minus => code.push(Instr::SubRaxRdi),
                Token::Asterisk => code.push(Instr::MulRdi),
                _ => {
                    code.push(Instr::ZeroRdx);
                    code.push(Instr::DivRdi);
                },
            }
            code.push(Instr::PushRax);
            assert(code@ =~= old(code)@ + compile(*node));
        },
        _ => {},
    }
}

/// Emits the code for each statement in order, each followed by `pop rax`.
pub fn gen_program(nodes: &Vec<Node>) -> (code: Vec<Instr>)
    requires
        all_wf(nodes@),
    ensures
        code@ == compile_program(nodes@),
{
    let mut code: Vec<Instr> = Vec::new();
    let mut i: usize = 0;
    while i < nodes.len()
        invariant
            i <= nodes@.len(),
            all_wf(nodes@),
            code@ == compile_program(nodes@.subrange(0, i as int)),
        decreases nodes@.len() - i,
    {
        assert(nodes@.subrange(0, i + 1).drop_last() =~= nodes@.subrange(0, i as int));
        assert(nodes@[i as int].wf());
        gen(&nodes[i], &mut code);
        code.push(Instr::PopRax);
        assert(code@ =~= compile_program(nodes@.subrange(0, i + 1)));
        i = i + 1;
    }
    assert(nodes@.subrange(0, nodes@.len() as int) =~= nodes@);
    code
}

} // verus!
