use vstd::prelude::*;

verus! {

/// One instruction of the x86-64 subset that the code generator emits.
#[derive(Clone, Copy, Debug, PartialEq, Eq, Structural)]
pub enum Instr {
    /// `push n`. The model pushes any 64-bit `n`; an assembler encodes
    /// `push imm` only for values that fit in a sign-extended 32 bits, so
    /// larger literals in the text output do not assemble as written.
    PushImm(i64),
    /// `push rax`
    PushRax,
    /// `push rdi`
    PushRdi,
    /// `pop rax`
    PopRax,
    /// `pop rdi`
    PopRdi,
    /// `mov rax, rbp`
    MovRaxRbp,
    /// `sub rax, n`
    SubRaxImm(u64),
    /// `mov rax, [rax]`
    LoadRax,
    /// `mov [rax], rdi`
    StoreRdi,
    /// `add rax, rdi`
    AddRaxRdi,
    /// `sub rax, rdi`
    SubRaxRdi,
    /// `mul rdi`
    MulRdi,
    /// `mov rdx, 0`
    ZeroRdx,
    /// `div rdi`
    DivRdi,
}

/// The number of variable slots in a frame, one per lowercase letter.
pub const SLOTS: usize = 26;

/// The bytes of local storage that a frame reserves: eight per slot.
pub const FRAME_SIZE: u64 = 208;

pub open spec fn two_64() -> int {
    0x1_0000_0000_0000_0000
}

/// The machine as the emitted code sees it: three registers, the frame base,
/// the operand stack (top at the end) and the frame's slots, where slot `k`
/// lies `8 * (k + 1)` bytes below the frame base.
pub ghost struct MachineState {
    pub rax: u64,
    pub rdi: u64,
    pub rdx: u64,
    pub rbp: u64,
    pub stack: Seq<u64>,
    pub frame: Seq<u64>,
}

/// The slot that address `addr` names in the frame based at `rbp`, if any.
pub open spec fn frame_index(rbp: u64, addr: u64) -> Option<int> {
    let d = rbp - addr;
    if addr <= rbp && d % 8 == 0 && 8 <= d <= FRAME_SIZE {
        Some(d / 8 - 1)
    } else {
        None
    }
}

/// The state after one instruction, or `None` where the instruction faults:
/// a pop from an empty stack, a memory access outside the frame, a division
/// by zero or a quotient that does not fit in 64 bits.
pub open spec fn step(s: MachineState, i: Instr) -> Option<MachineState> {
    match i {
        Instr::PushImm(n) => Some(MachineState { stack: s.stack.push(n as u64), ..s }),
        Instr::PushRax => Some(MachineState { stack: s.stack.push(s.rax), ..s }),
        Instr::PushRdi => Some(MachineState { stack: s.stack.push(s.rdi), ..s }),
        Instr::PopRax => if s.stack.len() > 0 {
            Some(MachineState { rax: s.stack.last(), stack: s.stack.drop_last(), ..s })
        } else {
            None
        },
        Instr::PopRdi => if s.stack.len() > 0 {
            Some(MachineState { rdi: s.stack.last(), stack: s.stack.drop_last(), ..s })
        } else {
            None
        },
        Instr::MovRaxRbp => Some(MachineState { rax: s.rbp, ..s }),
        Instr::SubRaxImm(n) => Some(MachineState { rax: s.rax.wrapping_sub(n), ..s }),
        Instr::LoadRax => match frame_index(s.rbp, s.rax) {
            Some(k) => if k < s.frame.len() {
                Some(MachineState { rax: s.frame[k], ..s })
            } else {
                None
            },
            None => None,
        },
        Instr::StoreRdi => match frame_index(s.rbp, s.rax) {
            Some(k) => if k < s.frame.len() {
                Some(MachineState { frame: s.frame.update(k, s.rdi), ..s })
            } else {
                None
            },
            None => None,
        },
        Instr::AddRaxRdi => Some(MachineState { rax: s.rax.wrapping_add(s.rdi), ..s }),
        Instr::SubRaxRdi => Some(MachineState { rax: s.rax.wrapping_sub(s.rdi), ..s }),
        Instr::MulRdi => {
            let p = s.rax as int * s.rdi as int;
            Some(MachineState { rax: (p % two_64()) as u64, rdx: (p / two_64()) as u64, ..s })
        },
        Instr::ZeroRdx => Some(MachineState { rdx: 0, ..s }),
        Instr::DivRdi => {
            let n = s.rdx as int * two_64() + s.rax as int;
            if s.rdi == 0 || n / (s.rdi as int) >= two_64() {
                None
            } else {
                Some(MachineState { rax: (n / (s.rdi as int)) as u64, rdx: (n % (s.rdi as int)) as u64, ..s })
            }
        },
    }
}

/// The state after running `code` from its first instruction to its last,
/// or `None` if one of them faults.
pub open spec fn run(s: MachineState, code: Seq<Instr>) -> Option<MachineState>
    decreases code.len(),
{
    if code.len() == 0 {
        Some(s)
    } else {
        match step(s, code[0]) {
            Some(t) => run(t, code.drop_first()),
            None => None,
        }
    }
}

pub proof fn lemma_run_append(s: MachineState, a: Seq<Instr>, b: Seq<Instr>)
    ensures
        run(s, a + b) == match run(s, a) {
            Some(t) => run(t, b),
            None => None,
        },
    decreases a.len(),
{
    if a.len() > 0 {
        assert((a + b).drop_first() =~= a.drop_first() + b);
        match step(s, a[0]) {
            Some(t) => lemma_run_append(t, a.drop_first(), b),
            None => {},
        }
    } else {
        assert(a + b =~= b);
    }
}

/// An executable machine; its view is the `MachineState` it stands for.
pub struct Machine {
    pub rax: u64,
    pub rdi: u64,
    pub rdx: u64,
    pub rbp: u64,
    pub stack: Vec<u64>,
    pub frame: Vec<u64>,
}

impl View for Machine {
    type V = MachineState;

    open spec fn view(&self) -> MachineState {
        MachineState {
            rax: self.rax,
            rdi: self.rdi,
            rdx: self.rdx,
            rbp: self.rbp,
            stack: self.stack@,
            frame: self.frame@,
        }
    }
}

/// The slot that address `addr` names in the frame based at `rbp`, if any.
fn slot_of(rbp: u64, addr: u64) -> (r: Option<usize>)
    ensures
        match frame_index(rbp, addr) {
            Some(k) => r == Some(k as usize),
            None => r is None,
        },
{
    if addr <= rbp {
        let d = rbp - addr;
        if d % 8 == 0 && 8 <= d && d <= FRAME_SIZE {
            return Some((d / 8 - 1) as usize);
        }
    }
    None
}

impl Machine {
    /// A machine about to run a program: empty stack, registers cleared, and
    /// every slot of the frame below `rbp` holding zero.
    pub fn new(rbp: u64) -> (m: Machine)
        ensures
            m@.rax == 0 && m@.rdi == 0 && m@.rdx == 0,
            m@.rbp == rbp,
            m@.stack == Seq::<u64>::empty(),
            m@.frame == Seq::new(SLOTS as nat, |k: int| 0u64),
    {
        let mut frame: Vec<u64> = Vec::new();
        let mut k: usize = 0;
        while k < SLOTS
            invariant
                k <= SLOTS,
                frame@ == Seq::new(k as nat, |j: int| 0u64),
            decreases SLOTS - k,
        {
            frame.push(0);
            k = k + 1;
        }
        Machine { rax: 0, rdi: 0, rdx: 0, rbp, stack: Vec::new(), frame }
    }

    /// Runs one instruction; returns `false`, with the machine in no promised
    /// state, where it faults.
    pub fn exec(&mut self, i: Instr) -> (ok: bool)
        ensures
            ok == step(old(self)@, i) is Some,
            ok ==> final(self)@ == step(old(self)@, i)->Some_0,
    {
        match i {
            Instr::PushImm(n) => {
                self.stack.push(n as u64);
                true
            },
            Instr::PushRax => {
                self.stack.push(self.rax);
                true
            },
            Instr::PushRdi => {
                self.stack.push(self.rdi);
                true
            },
            Instr::PopRax => match self.stack.pop() {
                Some(v) => {
                    self.rax = v;
                    true
                },
                None => false,
            },
            Instr::PopRdi => match self.stack.pop() {
                Some(v) => {
                    self.rdi = v;
                    true
                },
                None => false,
            },
            Instr::MovRaxRbp => {
                self.rax = self.rbp;
                true
            },
            Instr::SubRaxImm(n) => {
                self.rax = self.rax.wrapping_sub(n);
                true
            },
            Instr::LoadRax => match slot_of(self.rbp, self.rax) {
                Some(k) => if k < self.frame.len() {
                    self.rax = self.frame[k];
                    true
                } else {
                    false
                },
                None => false,
            },
            Instr::StoreRdi => match slot_of(self.rbp, self.rax) {
                Some(k) => if k < self.frame.len() {
                    self.frame.set(k, self.rdi);
                    true
                } else {
                    false
                },
                None => false,
            },
            Instr::AddRaxRdi => {
                self.rax = self.rax.wrapping_add(self.rdi);
                true
            },
            Instr::SubRaxRdi => {
                self.rax = self.rax.wrapping_sub(self.rdi);
                true
            },
            Instr::MulRdi => {
                assert(self.rax as int * self.rdi as int <= u64::MAX as int * u64::MAX as int) by (nonlinear_arith);
                let p: u128 = (self.rax as u128) * (self.rdi as u128);
                self.rax = (p % 0x1_0000_0000_0000_0000u128) as u64;
                self.rdx = (p / 0x1_0000_0000_0000_0000u128) as u64;
                true
            },
            Instr::ZeroRdx => {
                self.rdx = 0;
                true
            },
            Instr::DivRdi => {
                if self.rdi == 0 {
                    return false;
                }
                let n: u128 = (self.rdx as u128) * 0x1_0000_0000_0000_0000u128 + (self.rax as u128);
                let q: u128 = n / (self.rdi as u128);
                if q >= 0x1_0000_0000_0000_0000u128 {
                    return false;
                }
                self.rax = q as u64;
                self.rdx = (n % (self.rdi as u128)) as u64;
                true
            },
        }
    }

    /// Runs `code` from first to last instruction; returns `false` at the
    /// first one that faults.
    pub fn execute(&mut self, code: &Vec<Instr>) -> (ok: bool)
        ensures
            ok == run(old(self)@, code@) is Some,
            ok ==> final(self)@ == run(old(self)@, code@)->Some_0,
    {
        let mut i: usize = 0;
        assert(code@.subrange(0, code@.len() as int) =~= code@);
        while i < code.len()
            invariant
                i <= code@.len(),
                run(old(self)@, code@) == run(self@, code@.subrange(i as int, code@.len() as int)),
            decreases code@.len() - i,
        {
            let ghost before = self@;
            let ghost rest = code@.subrange(i as int, code@.len() as int);
            assert(rest.drop_first() =~= code@.subrange(i + 1, code@.len() as int));
            if !self.exec(code[i]) {
                return false;
            }
            i = i + 1;
        }
        true
    }
}

} // verus!
