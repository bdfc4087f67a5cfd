//! Running a program to completion against an input held in memory.
use vstd::prelude::*;
use crate::error::Problem;
use crate::machine::{after_input, initial, step_spec, Action, Machine, MachineView};

verus! {

/// How a run ended.
#[derive(Clone, Copy, Debug, PartialEq, Eq, Structural)]
pub enum Status {
    /// The instruction pointer reached the end of the program.
    Finished,
    /// An instruction failed; nothing after it ran.
    Failed(Problem),
    /// A read found the input exhausted; nothing after it ran.
    EndOfInput,
    /// The step budget ran out first.
    StepLimit,
}

/// Result of running from `m` on `input` for at most `fuel` steps: the final
/// state, the bytes written, and how the run ended.
pub open spec fn run_spec(m: MachineView, input: Seq<u8>, fuel: nat) -> (
    MachineView,
    Seq<u8>,
    Status,
)
    decreases fuel,
{
    if m.halted() {
        (m, Seq::empty(), Status::Finished)
    } else if fuel == 0 {
        (m, Seq::empty(), Status::StepLimit)
    } else {
        let (next, r) = step_spec(m);
        match r {
            Err(e) => (next, Seq::empty(), Status::Failed(e)),
            Ok(Action::Output(b)) => {
                let t = run_spec(next, input, (fuel - 1) as nat);
                (t.0, seq![b] + t.1, t.2)
            },
            Ok(Action::Input) => {
                if input.len() == 0 {
                    (m, Seq::empty(), Status::EndOfInput)
                } else {
                    run_spec(after_input(m, input[0]), input.drop_first(), (fuel - 1) as nat)
                }
            },
            Ok(_) => run_spec(next, input, (fuel - 1) as nat),
        }
    }
}

/// The bytes a run wrote and how it ended.
#[derive(Debug)]
pub struct Run {
    pub output: Vec<u8>,
    pub status: Status,
}

/// Runs `program` on a zeroed tape of `memsize` cells, reading from `input`
/// and executing at most `max_steps` instructions.
pub fn run(program: &[u8], memsize: usize, input: &[u8], max_steps: usize) -> (r: Run)
    requires
        memsize > 0,
    ensures
        r.output@ == run_spec(initial(program@, memsize as nat), input@, max_steps as nat).1,
        r.status == run_spec(initial(program@, memsize as nat), input@, max_steps as nat).2,
{
    let ghost whole = run_spec(initial(program@, memsize as nat), input@, max_steps as nat);
    let mut m = Machine::new(program, memsize);
    let mut output: Vec<u8> = Vec::new();
    let mut pos: usize = 0;
    let mut fuel: usize = max_steps;
    assert(input@.subrange(0, input@.len() as int) =~= input@);
    assert(output@ + whole.1 =~= whole.1);
    loop
        invariant
            whole == run_spec(initial(program@, memsize as nat), input@, max_steps as nat),
            m.wf(),
            pos <= input@.len(),
            output@ + run_spec(m@, input@.subrange(pos as int, input@.len() as int), fuel as nat).1
                == whole.1,
            run_spec(m@, input@.subrange(pos as int, input@.len() as int), fuel as nat).2
                == whole.2,
        decreases fuel,
    {
        let ghost rest = input@.subrange(pos as int, input@.len() as int);
        if m.is_halted() {
            assert(output@ + Seq::<u8>::empty() =~= output@);
            return Run { output, status: Status::Finished };
        }
        if fuel == 0 {
            assert(output@ + Seq::<u8>::empty() =~= output@);
            return Run { output, status: Status::StepLimit };
        }
        let ghost before = m@;
        match m.step() {
            Err(e) => {
                assert(output@ + Seq::<u8>::empty() =~= output@);
                return Run { output, status: Status::Failed(e) };
            },
            Ok(Action::Output(b)) => {
                let ghost prev = output@;
                output.push(b);
                assert(prev + run_spec(before, rest, fuel as nat).1 =~= output@ + run_spec(
                    m@,
                    rest,
                    (fuel - 1) as nat,
                ).1);
            },
            Ok(Action::Input) => {
                if pos == input.len() {
                    assert(output@ + Seq::<u8>::empty() =~= output@);
                    return Run { output, status: Status::EndOfInput };
                }
                m.provide_input(input[pos]);
                assert(rest.drop_first() =~= input@.subrange(pos + 1, input@.len() as int));
                pos = pos + 1;
            },
            Ok(_) => {},
        }
        fuel = fuel - 1;
    }
}

} // verus!
