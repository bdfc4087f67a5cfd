//! The execution engine: tape, data pointer, instruction pointer and loop
//! return stack, advanced one instruction at a time.
//!
//! Brackets are matched lazily: a loop-close with no recorded loop-open is
//! reported when it is reached, and a loop-open without its close only when
//! it is entered on a zero cell, after any output already produced. Reads
//! and writes are left to the caller, which performs what `Machine::step`
//! asks for; end of input during a read is treated as a failure.
use vstd::prelude::*;
use crate::brackets::{closes_at, is_match, skip_loop, LOOP_CLOSE, LOOP_OPEN};
use crate::error::Problem;
use vstd::slice::{slice_subrange, slice_to_vec};
use vstd::arithmetic::div_mod::{lemma_mod_add_multiples_vanish, lemma_mod_self_0, lemma_small_mod};

verus! {

/// Moves the data pointer one cell right.
pub const MOVE_RIGHT: u8 = 0x3e;

/// Moves the data pointer one cell left.
pub const MOVE_LEFT: u8 = 0x3c;

/// Adds one to the current cell.
pub const INCREMENT: u8 = 0x2b;

/// Subtracts one from the current cell.
pub const DECREMENT: u8 = 0x2d;

/// Writes the current cell to the output.
pub const WRITE: u8 = 0x2e;

/// Reads one input byte into the current cell.
pub const READ: u8 = 0x2c;

/// Number of tape cells used when no other size is chosen.
pub const DEFAULT_TAPE_LEN: usize = 4096;

/// Mathematical state of the engine.
pub struct MachineView {
    pub program: Seq<u8>,
    pub ip: int,
    pub ptr: int,
    pub tape: Seq<u8>,
    pub stack: Seq<usize>,
}

impl MachineView {
    /// The data pointer indexes a cell, the instruction pointer lies within
    /// the program or at its end, and every return address is an instruction.
    pub open spec fn wf(self) -> bool {
        &&& 0 <= self.ip <= self.program.len()
        &&& 0 < self.tape.len()
        &&& 0 <= self.ptr < self.tape.len()
        &&& forall|k: int| 0 <= k < self.stack.len() ==> #[trigger] self.stack[k] < self.program.len()
    }

    pub open spec fn halted(self) -> bool {
        self.ip >= self.program.len()
    }

    pub open spec fn cell(self) -> u8 {
        self.tape[self.ptr]
    }

    pub open spec fn instruction(self) -> u8 {
        self.program[self.ip]
    }

    /// The program from the instruction pointer on.
    pub open spec fn rest(self) -> Seq<u8> {
        self.program.subrange(self.ip, self.program.len() as int)
    }
}

/// State before the first instruction: zeroed tape of `memsize` cells, both
/// pointers at zero, no return addresses.
pub open spec fn initial(program: Seq<u8>, memsize: nat) -> MachineView {
    MachineView {
        program,
        ip: 0,
        ptr: 0,
        tape: Seq::new(memsize, |i: int| 0u8),
        stack: Seq::empty(),
    }
}

/// What a step asks of the surroundings.
#[derive(Clone, Copy, Debug, PartialEq, Eq, Structural)]
pub enum Action {
    /// The step was internal; run the next one.
    Continue,
    /// The byte must be written to the output.
    Output(u8),
    /// A byte must be read and handed to `provide_input`.
    Input,
    /// The instruction pointer has reached the end of the program.
    Halt,
}

/// Offset of the loop-close matching the loop-open at the start of `t`.
pub open spec fn match_offset(t: Seq<u8>) -> int {
    choose|i: int| is_match(t, i)
}

/// One step of the dispatch loop: the new state and what it asks for, or the
/// error with the state left as it was. A read leaves the state as it is
/// until the byte is supplied (see `after_input`).
pub open spec fn step_spec(m: MachineView) -> (MachineView, Result<Action, Problem>) {
    if m.halted() {
        (m, Ok(Action::Halt))
    } else {
        let c = m.instruction();
        let next = MachineView { ip: m.ip + 1, ..m };
        if c == MOVE_RIGHT {
            (MachineView { ptr: (m.ptr + 1) % (m.tape.len() as int), ..next }, Ok(Action::Continue))
        } else if c == MOVE_LEFT {
            (MachineView { ptr: (m.ptr - 1) % (m.tape.len() as int), ..next }, Ok(Action::Continue))
        } else if c == INCREMENT {
            (
                MachineView { tape: m.tape.update(m.ptr, ((m.cell() + 1) % 256) as u8), ..next },
                Ok(Action::Continue),
            )
        } else if c == DECREMENT {
            (
                MachineView { tape: m.tape.update(m.ptr, ((m.cell() - 1) % 256) as u8), ..next },
                Ok(Action::Continue),
            )
        } else if c == WRITE {
            (next, Ok(Action::Output(m.cell())))
        } else if c == READ {
            (m, Ok(Action::Input))
        } else if c == LOOP_OPEN {
            if m.cell() == 0 {
                if exists|i: int| is_match(m.rest(), i) {
                    (MachineView { ip: m.ip + match_offset(m.rest()) + 1, ..m }, Ok(Action::Continue))
                } else {
                    (m, Err(Problem::UnclosedLoop))
                }
            } else {
                (MachineView { stack: m.stack.push(m.ip as usize), ..next }, Ok(Action::Continue))
            }
        } else if c == LOOP_CLOSE {
            if m.stack.len() == 0 {
                (m, Err(Problem::UnmatchedLoopClose))
            } else {
                (
                    MachineView { ip: m.stack.last() as int, stack: m.stack.drop_last(), ..m },
                    Ok(Action::Continue),
                )
            }
        } else {
            (next, Ok(Action::Continue))
        }
    }
}

/// The read at the instruction pointer completed with `byte`.
pub open spec fn after_input(m: MachineView, byte: u8) -> MachineView {
    MachineView { ip: m.ip + 1, tape: m.tape.update(m.ptr, byte), ..m }
}

/// The engine's state, exclusively owned by whoever drives it.
pub struct Machine {
    program: Vec<u8>,
    tape: Vec<u8>,
    ptr: usize,
    ip: usize,
    loop_stack: Vec<usize>,
}

impl View for Machine {
    type V = MachineView;

    closed spec fn view(&self) -> MachineView {
        MachineView {
            program: self.program@,
            ip: self.ip as int,
            ptr: self.ptr as int,
            tape: self.tape@,
            stack: self.loop_stack@,
        }
    }
}

proof fn lemma_match_unique(t: Seq<u8>, i: int, j: int)
    requires
        is_match(t, i),
        is_match(t, j),
    ensures
        i == j,
{
    if i < j {
        assert(!closes_at(t, i));
    } else if j < i {
        assert(!closes_at(t, j));
    }
}

impl Machine {
    pub open spec fn wf(&self) -> bool {
        self@.wf()
    }

    /// A machine about to run `program` on a zeroed tape of `memsize` cells.
    pub fn new(program: &[u8], memsize: usize) -> (r: Machine)
        requires
            memsize > 0,
        ensures
            r.wf(),
            r@ == initial(program@, memsize as nat),
    {
        let mut tape: Vec<u8> = Vec::new();
        let mut k: usize = 0;
        while k < memsize
            invariant
                k <= memsize,
                tape@ == Seq::new(k as nat, |i: int| 0u8),
            decreases memsize - k,
        {
            tape.push(0);
            k = k + 1;
            assert(tape@ =~= Seq::new(k as nat, |i: int| 0u8));
        }
        let r = Machine {
            program: slice_to_vec(program),
            tape,
            ptr: 0,
            ip: 0,
            loop_stack: Vec::new(),
        };
        assert(r@.stack =~= Seq::empty());
        r
    }

    /// Index of the next instruction.
    pub fn instruction_pointer(&self) -> (r: usize)
        ensures
            r as int == self@.ip,
    {
        self.ip
    }

    /// Index of the current cell.
    pub fn data_pointer(&self) -> (r: usize)
        ensures
            r as int == self@.ptr,
    {
        self.ptr
    }

    /// Value of the current cell.
    pub fn current_cell(&self) -> (r: u8)
        requires
            self.wf(),
        ensures
            r == self@.cell(),
    {
        self.tape[self.ptr]
    }

    /// Whether the whole program has run.
    pub fn is_halted(&self) -> (r: bool)
        ensures
            r == self@.halted(),
    {
        self.ip >= self.program.len()
    }

    /// Executes the instruction at the instruction pointer.
    pub fn step(&mut self) -> (r: Result<Action, Problem>)
        requires
            old(self).wf(),
        ensures
            final(self).wf(),
            (final(self)@, r) == step_spec(old(self)@),
    {
        if self.ip >= self.program.len() {
            return Ok(Action::Halt);
        }
        let c = self.program[self.ip];
        if c == MOVE_RIGHT {
            let n = self.tape.len();
            self.ptr = if self.ptr + 1 == n { 0 } else { self.ptr + 1 };
            proof {
                if self.ptr == 0 {
                    lemma_mod_self_0(n as int);
                } else {
                    lemma_small_mod(self.ptr as nat, n as nat);
                }
            }
        } else if c == MOVE_LEFT {
            self.ptr = if self.ptr == 0 { self.tape.len() - 1 } else { self.ptr - 1 };
            proof {
                lemma_small_mod(self.ptr as nat, self.tape@.len());
                if old(self).ptr == 0 {
                    lemma_mod_add_multiples_vanish(-1, self.tape@.len() as int);
                }
            }
        } else if c == INCREMENT {
            let v = self.tape[self.ptr];
            self.tape.set(self.ptr, if v == 255 { 0 } else { v + 1 });
        } else if c == DECREMENT {
            let v = self.tape[self.ptr];
            self.tape.set(self.ptr, if v == 0 { 255 } else { v - 1 });
        } else if c == WRITE {
            let v = self.tape[self.ptr];
            self.ip = self.ip + 1;
            assert(self@.stack == old(self)@.stack);
            return Ok(Action::Output(v));
        } else if c == READ {
            return Ok(Action::Input);
        } else if c == LOOP_OPEN {
            if self.tape[self.ptr] == 0 {
                let ghost rest = self@.rest();
                match skip_loop(slice_subrange(self.program.as_slice(), self.ip, self.program.len())) {
                    Ok(k) => {
                        proof {
                            lemma_match_unique(rest, k as int, match_offset(rest));
                        }
                        self.ip = self.ip + k + 1;
                        return Ok(Action::Continue);
                    },
                    Err(e) => {
                        return Err(e);
                    },
                }
            } else {
                self.loop_stack.push(self.ip);
            }
        } else if c == LOOP_CLOSE {
            match self.loop_stack.pop() {
                Some(back) => {
                    self.ip = back;
                    return Ok(Action::Continue);
                },
                None => {
                    return Err(Problem::UnmatchedLoopClose);
                },
            }
        }
        self.ip = self.ip + 1;
        assert(self@.program == old(self)@.program);
        Ok(Action::Continue)
    }

    /// Completes the read at the instruction pointer: stores `byte` in the
    /// current cell and moves on.
    pub fn provide_input(&mut self, byte: u8)
        requires
            old(self).wf(),
            !old(self)@.halted(),
            old(self)@.instruction() == READ,
        ensures
            final(self).wf(),
            final(self)@ == after_input(old(self)@, byte),
    {
        let n = self.program.len();
        self.tape.set(self.ptr, byte);
        self.ip = self.ip + 1;
        assert(self@.stack == old(self)@.stack);
    }
}

} // verus!
