use vstd::prelude::*;

use crate::instr::{Instr, RuntimeError};
use crate::translate::{well_formed, Program};

verus! {

/// Cells a tape starts with, all zero.
pub const INITIAL_TAPE_LEN: usize = 30000;

/// The whole state of one run: the tape, the data pointer, the program
/// counter, the position in the input, and the output emitted so far.
pub ghost struct MachineState {
    pub tape: Seq<u8>,
    pub ptr: nat,
    pub pc: nat,
    pub inpos: nat,
    pub out: Seq<char>,
}

/// What one more step of a run yields: a next state, a completed run with
/// its output, or a run stopped by an error with the output so far.
pub ghost enum Outcome {
    Running(MachineState),
    Halted(Seq<char>),
    Failed(RuntimeError, Seq<char>),
}

/// The state a run starts in: a fresh zero tape, everything else at zero.
pub open spec fn init_state() -> MachineState {
    MachineState {
        tape: Seq::new(INITIAL_TAPE_LEN as nat, |i: int| 0u8),
        ptr: 0,
        pc: 0,
        inpos: 0,
        out: Seq::empty(),
    }
}

/// The tape after a pointer move: grown with zero cells, one per missing
/// index, until the pointer is addressable. It never shrinks.
pub open spec fn grow_tape(tape: Seq<u8>, ptr: nat) -> Seq<u8> {
    if ptr < tape.len() {
        tape
    } else {
        tape + Seq::new((ptr + 1 - tape.len()) as nat, |i: int| 0u8)
    }
}

/// One step of the engine on state `st`: the run halts when the program
/// counter leaves the instruction sequence; otherwise the instruction at
/// the counter executes and the counter advances by exactly one, a jump
/// landing on the partner bracket's own index before that uniform
/// increment steps past it.
pub open spec fn step_of(prog: Seq<Instr>, input: Seq<u8>, st: MachineState) -> Outcome {
    if st.pc >= prog.len() {
        Outcome::Halted(st.out)
    } else {
        match prog[st.pc as int] {
            Instr::Add(x) => Outcome::Running(
                MachineState {
                    tape: st.tape.update(
                        st.ptr as int,
                        (((st.tape[st.ptr as int] + x) % 256) as u8),
                    ),
                    ptr: st.ptr,
                    pc: st.pc + 1,
                    inpos: st.inpos,
                    out: st.out,
                },
            ),
            Instr::Ptr(x) => {
                let dest = st.ptr + x;
                if dest < 0 {
                    Outcome::Failed(RuntimeError::PointerUnderflow, st.out)
                } else if dest > usize::MAX {
                    Outcome::Failed(RuntimeError::PointerOverflow, st.out)
                } else {
                    Outcome::Running(
                        MachineState {
                            tape: grow_tape(st.tape, dest as nat),
                            ptr: dest as nat,
                            pc: st.pc + 1,
                            inpos: st.inpos,
                            out: st.out,
                        },
                    )
                }
            },
            Instr::LoopBegin(t) => Outcome::Running(
                MachineState {
                    tape: st.tape,
                    ptr: st.ptr,
                    pc: if st.tape[st.ptr as int] == 0 {
                        (t + 1) as nat
                    } else {
                        st.pc + 1
                    },
                    inpos: st.inpos,
                    out: st.out,
                },
            ),
            Instr::LoopEnd(t) => Outcome::Running(
                MachineState {
                    tape: st.tape,
                    ptr: st.ptr,
                    pc: if st.tape[st.ptr as int] != 0 {
                        (t + 1) as nat
                    } else {
                        st.pc + 1
                    },
                    inpos: st.inpos,
                    out: st.out,
                },
            ),
            Instr::Out => Outcome::Running(
                MachineState {
                    tape: st.tape,
                    ptr: st.ptr,
                    pc: st.pc + 1,
                    inpos: st.inpos,
                    out: st.out.push((st.tape[st.ptr as int] as char)),
                },
            ),
            Instr::In => Outcome::Running(
                MachineState {
                    tape: st.tape.update(
                        st.ptr as int,
                        if st.inpos < input.len() {
                            input[st.inpos as int]
                        } else {
                            0u8
                        },
                    ),
                    ptr: st.ptr,
                    pc: st.pc + 1,
                    inpos: if st.inpos < input.len() {
                        st.inpos + 1
                    } else {
                        st.inpos
                    },
                    out: st.out,
                },
            ),
        }
    }
}

/// The outcome after at most `n` steps from `st`: still `Running` if no
/// terminal outcome was reached, otherwise the terminal outcome itself.
pub open spec fn run_for(prog: Seq<Instr>, input: Seq<u8>, st: MachineState, n: nat) -> Outcome
    decreases n,
{
    if n == 0 {
        Outcome::Running(st)
    } else {
        match step_of(prog, input, st) {
            Outcome::Running(st2) => run_for(prog, input, st2, (n - 1) as nat),
            outcome => outcome,
        }
    }
}

/// Appending one more step to a still running run performs the step of the
/// state it reached.
pub proof fn lemma_run_for_snoc(prog: Seq<Instr>, input: Seq<u8>, st0: MachineState, n: nat)
    ensures
        run_for(prog, input, st0, n) matches Outcome::Running(st) ==> run_for(
            prog,
            input,
            st0,
            n + 1,
        ) == step_of(prog, input, st),
    decreases n,
{
    if n == 0 {
        match step_of(prog, input, st0) {
            Outcome::Running(st1) => {
                assert(run_for(prog, input, st1, 0) == Outcome::Running(st1));
                assert(run_for(prog, input, st0, 1) == Outcome::Running(st1));
            },
            _ => {
                assert(run_for(prog, input, st0, 1) == step_of(prog, input, st0));
            },
        }
    } else {
        match step_of(prog, input, st0) {
            Outcome::Running(st1) => {
                lemma_run_for_snoc(prog, input, st1, (n - 1) as nat);
                assert(run_for(prog, input, st0, n) == run_for(prog, input, st1, (n - 1) as nat));
                assert(run_for(prog, input, st0, n + 1) == run_for(prog, input, st1, n));
            },
            _ => (),
        }
    }
}

/// A terminal outcome does not change as the step budget grows: once a run
/// has halted or failed, no further instruction is performed.
pub proof fn lemma_run_for_stable(
    prog: Seq<Instr>,
    input: Seq<u8>,
    st: MachineState,
    n: nat,
    m: nat,
)
    requires
        n <= m,
        !(run_for(prog, input, st, n) is Running),
    ensures
        run_for(prog, input, st, m) == run_for(prog, input, st, n),
    decreases n,
{
    if n == 0 {
        assert(false);
    } else {
        match step_of(prog, input, st) {
            Outcome::Running(st2) => lemma_run_for_stable(
                prog,
                input,
                st2,
                (n - 1) as nat,
                (m - 1) as nat,
            ),
            _ => (),
        }
    }
}

/// Two complete runs of one program on one input end the same way: the
/// terminal outcome, output included, is a function of program and input
/// alone, so running the same program twice on identical input produces
/// identical output.
pub proof fn lemma_run_deterministic(prog: Seq<Instr>, input: Seq<u8>, n1: nat, n2: nat)
    requires
        !(run_for(prog, input, init_state(), n1) is Running),
        !(run_for(prog, input, init_state(), n2) is Running),
    ensures
        run_for(prog, input, init_state(), n1) == run_for(prog, input, init_state(), n2),
{
    if n1 <= n2 {
        lemma_run_for_stable(prog, input, init_state(), n1, n2);
    } else {
        lemma_run_for_stable(prog, input, init_state(), n2, n1);
    }
}

/// A run that has left the instruction sequence has halted, with exactly
/// the output it holds.
pub proof fn lemma_halted(prog: Seq<Instr>, input: Seq<u8>, st: MachineState, n: nat)
    requires
        run_for(prog, input, init_state(), n) == Outcome::Running(st),
        st.pc >= prog.len(),
    ensures
        run_for(prog, input, init_state(), n + 1) == Outcome::Halted(st.out),
{
    lemma_run_for_snoc(prog, input, init_state(), n);
}

/// Reading with the input exhausted stores zero in the current cell and
/// never fails: the run continues with only that cell changed.
pub proof fn lemma_input_at_end_stores_zero(prog: Seq<Instr>, input: Seq<u8>, st: MachineState)
    requires
        st.pc < prog.len(),
        prog[st.pc as int] == Instr::In,
        st.inpos >= input.len(),
    ensures
        step_of(prog, input, st) is Running,
        step_of(prog, input, st)->Running_0.tape == st.tape.update(st.ptr as int, 0u8),
        step_of(prog, input, st)->Running_0.ptr == st.ptr,
        step_of(prog, input, st)->Running_0.pc == st.pc + 1,
        step_of(prog, input, st)->Running_0.inpos == st.inpos,
        step_of(prog, input, st)->Running_0.out == st.out,
{
}

/// Relies on `String::push`: appends exactly the one character.
#[verifier::external_body]
fn push_char(s: &mut String, c: char)
    ensures
        final(s)@ == old(s)@.push(c),
{
    s.push(c);
}

/// Grows the tape one zero cell at a time until `ptr` is addressable.
fn grow(tape: &mut Vec<u8>, ptr: usize)
    ensures
        final(tape)@ == grow_tape(old(tape)@, ptr as nat),
{
    while ptr >= tape.len()
        invariant
            old(tape)@.len() <= tape@.len(),
            tape@.take(old(tape)@.len() as int) == old(tape)@,
            forall|k: int| old(tape)@.len() <= k < tape@.len() ==> tape@[k] == 0u8,
            tape@.len() <= ptr + 1 || tape@ == old(tape)@,
        decreases ptr + 1 - tape@.len(),
    {
        tape.push(0);
        proof {
            assert(tape@.take(old(tape)@.len() as int) =~= old(tape)@);
        }
    }
    proof {
        assert(tape@ =~= grow_tape(old(tape)@, ptr as nat));
    }
}

/// One run in progress: the program and input it reads, and the engine's
/// own state, created fresh for the run and discarded with it.
pub struct Machine<'a> {
    prog: &'a Program,
    input: &'a [u8],
    tape: Vec<u8>,
    ptr: usize,
    pc: usize,
    inpos: usize,
    out: String,
    steps: Ghost<nat>,
}

impl<'a> Machine<'a> {
    /// The abstract engine state this machine is at.
    pub closed spec fn st(&self) -> MachineState {
        MachineState {
            tape: self.tape@,
            ptr: self.ptr as nat,
            pc: self.pc as nat,
            inpos: self.inpos as nat,
            out: self.out@,
        }
    }

    /// The instruction sequence being run.
    pub closed spec fn prog_view(&self) -> Seq<Instr> {
        self.prog@
    }

    /// The input bytes being read.
    pub closed spec fn input_view(&self) -> Seq<u8> {
        self.input@
    }

    /// How many steps of the run have been performed.
    pub closed spec fn steps(&self) -> nat {
        self.steps@
    }

    /// The machine is a faithful position of the run: its state is what
    /// `steps()` steps from the start reach, and its fields are in bounds.
    pub closed spec fn inv(&self) -> bool {
        &&& well_formed(self.prog@)
        &&& self.ptr < self.tape@.len()
        &&& self.inpos <= self.input@.len()
        &&& run_for(self.prog@, self.input@, init_state(), self.steps@) == Outcome::Running(
            self.st(),
        )
    }

    /// Starts a run of `prog` on `input`: a fresh tape of zero cells,
    /// pointer, program counter and input position at zero, no output.
    pub fn new(prog: &'a Program, input: &'a [u8]) -> (m: Machine<'a>)
        ensures
            m.inv(),
            m.prog_view() == prog@,
            m.input_view() == input@,
            m.steps() == 0,
            m.st() == init_state(),
    {
        proof {
            use_type_invariant(prog);
        }
        let mut tape: Vec<u8> = Vec::new();
        while tape.len() < INITIAL_TAPE_LEN
            invariant
                forall|k: int| 0 <= k < tape@.len() ==> tape@[k] == 0u8,
                tape@.len() <= INITIAL_TAPE_LEN,
            decreases INITIAL_TAPE_LEN - tape@.len(),
        {
            tape.push(0);
        }
        let m = Machine {
            prog,
            input,
            tape,
            ptr: 0,
            pc: 0,
            inpos: 0,
            out: String::new(),
            steps: Ghost(0),
        };
        proof {
            assert(m.st().tape =~= init_state().tape);
            assert(m.st().out =~= init_state().out);
            assert(m.st() == init_state());
            assert(run_for(m.prog@, m.input@, init_state(), 0) == Outcome::Running(m.st()));
        }
        m
    }

    /// Whether the run has completed the whole instruction sequence.
    pub fn halted(&self) -> (r: bool)
        ensures
            r == (self.st().pc >= self.prog_view().len()),
    {
        self.pc >= self.prog.instrs().len()
    }

    /// The output emitted so far.
    pub fn output(&self) -> (r: &String)
        ensures
            r@ == self.st().out,
    {
        &self.out
    }

    /// Performs the one instruction at the program counter. On success the
    /// machine advances one step of the run; on failure it is unchanged
    /// and the run as a whole has failed with the output emitted so far.
    pub fn step(&mut self) -> (r: Result<(), RuntimeError>)
        requires
            old(self).inv(),
            old(self).st().pc < old(self).prog_view().len(),
        ensures
            final(self).prog_view() == old(self).prog_view(),
            final(self).input_view() == old(self).input_view(),
            match r {
                Ok(()) => {
                    &&& final(self).inv()
                    &&& final(self).steps() == old(self).steps() + 1
                    &&& step_of(old(self).prog_view(), old(self).input_view(), old(self).st())
                        == Outcome::Running(final(self).st())
                    &&& run_for(
                        old(self).prog_view(),
                        old(self).input_view(),
                        init_state(),
                        final(self).steps(),
                    ) == Outcome::Running(final(self).st())
                },
                Err(e) => {
                    &&& *final(self) == *old(self)
                    &&& step_of(old(self).prog_view(), old(self).input_view(), old(self).st())
                        == Outcome::Failed(e, old(self).st().out)
                    &&& run_for(
                        old(self).prog_view(),
                        old(self).input_view(),
                        init_state(),
                        old(self).steps() + 1,
                    ) == Outcome::Failed(e, old(self).st().out)
                },
            },
    {
        proof {
            lemma_run_for_snoc(self.prog@, self.input@, init_state(), self.steps@);
        }
        let ghost prev = *self;
        // reading the length as a usize puts the bound the program counter
        // increments below rely on into scope
        let plen = self.prog.instrs().len();
        let ins = self.prog.instrs()[self.pc];
        match ins {
            Instr::Add(x) => {
                let v = self.tape[self.ptr];
                let w = ((((v as u16) + (x as u16)) % 256) as u8);
                self.tape.set(self.ptr, w);
                self.pc = self.pc + 1;
            },
            Instr::Ptr(x) => {
                if x >= 0 {
                    match self.ptr.checked_add(x as usize) {
                        Some(p) => {
                            self.ptr = p;
                        },
                        None => {
                            return Err(RuntimeError::PointerOverflow);
                        },
                    }
                } else {
                    let mag: usize = if x == isize::MIN {
                        (isize::MAX as usize) + 1
                    } else {
                        (-x) as usize
                    };
                    proof {
                        assert(mag == -(x as int));
                    }
                    match self.ptr.checked_sub(mag) {
                        Some(p) => {
                            self.ptr = p;
                        },
                        None => {
                            return Err(RuntimeError::PointerUnderflow);
                        },
                    }
                }
                grow(&mut self.tape, self.ptr);
                self.pc = self.pc + 1;
            },
            Instr::LoopBegin(t) => {
                proof {
                    assert(crate::translate::bracket_matched_at(prev.prog@, prev.pc as int));
                }
                if self.tape[self.ptr] == 0 {
                    self.pc = t;
                }
                self.pc = self.pc + 1;
            },
            Instr::LoopEnd(t) => {
                proof {
                    assert(crate::translate::bracket_matched_at(prev.prog@, prev.pc as int));
                }
                if self.tape[self.ptr] != 0 {
                    self.pc = t;
                }
                self.pc = self.pc + 1;
            },
            Instr::Out => {
                let c = (self.tape[self.ptr] as char);
                push_char(&mut self.out, c);
                self.pc = self.pc + 1;
            },
            Instr::In => {
                let b: u8 = if self.inpos < self.input.len() {
                    let b = self.input[self.inpos];
                    self.inpos = self.inpos + 1;
                    b
                } else {
                    0
                };
                self.tape.set(self.ptr, b);
                self.pc = self.pc + 1;
            },
        }
        proof {
            self.steps@ = prev.steps@ + 1;
            assert(step_of(prev.prog@, prev.input@, prev.st()) == Outcome::Running(self.st()));
        }
        Ok(())
    }

    /// Runs until the program completes, a run-time error stops it, or
    /// `fuel` further instructions have been performed. `Ok(true)` means
    /// the run completed the whole instruction sequence and its output is
    /// final; `Ok(false)` means the fuel ran out first; on an error the
    /// machine keeps the state and output it had when the failing
    /// instruction was reached.
    pub fn run_steps(&mut self, fuel: u64) -> (r: Result<bool, RuntimeError>)
        requires
            old(self).inv(),
        ensures
            final(self).inv(),
            final(self).prog_view() == old(self).prog_view(),
            final(self).input_view() == old(self).input_view(),
            match r {
                Ok(done) => {
                    &&& done == (final(self).st().pc >= final(self).prog_view().len())
                    &&& done ==> run_for(
                        final(self).prog_view(),
                        final(self).input_view(),
                        init_state(),
                        final(self).steps() + 1,
                    ) == Outcome::Halted(final(self).st().out)
                    &&& !done ==> final(self).steps() == old(self).steps() + fuel
                },
                Err(e) => run_for(
                    final(self).prog_view(),
                    final(self).input_view(),
                    init_state(),
                    final(self).steps() + 1,
                ) == Outcome::Failed(e, final(self).st().out),
            },
    {
        let mut k: u64 = 0;
        while k < fuel
            invariant
                k <= fuel,
                self.inv(),
                self.prog_view() == old(self).prog_view(),
                self.input_view() == old(self).input_view(),
                self.steps() == old(self).steps() + k,
            decreases fuel - k,
        {
            if self.halted() {
                proof {
                    lemma_halted(self.prog@, self.input@, self.st(), self.steps@);
                }
                return Ok(true);
            }
            match self.step() {
                Ok(()) => (),
                Err(e) => {
                    return Err(e);
                },
            }
            k = k + 1;
        }
        let done = self.halted();
        proof {
            if done {
                lemma_halted(self.prog@, self.input@, self.st(), self.steps@);
            }
        }
        Ok(done)
    }
}

} // verus!
