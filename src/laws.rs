//! Properties of whole runs, proved from the step semantics.
use vstd::prelude::*;
use vstd::arithmetic::div_mod::{
    lemma_add_mod_noop_right, lemma_mod_add_multiples_vanish, lemma_mod_self_0, lemma_small_mod,
};
use crate::brackets::{has_match, LOOP_CLOSE, LOOP_OPEN};
use crate::error::Problem;
use crate::machine::{
    after_input, initial, step_spec, MachineView, INCREMENT, MOVE_LEFT, MOVE_RIGHT, READ, WRITE,
};
use crate::run::{run_spec, Status};

verus! {

/// `n` increments followed by one write.
pub open spec fn increments_then_write(n: nat) -> Seq<u8> {
    Seq::new(n, |i: int| INCREMENT).push(WRITE)
}

proof fn lemma_increments_from(m: MachineView, n: nat, input: Seq<u8>, fuel: nat)
    requires
        m.wf(),
        m.program == increments_then_write(n),
        m.ip <= n,
        fuel > n - m.ip,
    ensures
        run_spec(m, input, fuel).1 == seq![((m.cell() + (n - m.ip)) % 256) as u8],
        run_spec(m, input, fuel).2 == Status::Finished,
    decreases n - m.ip,
{
    let next = run_spec(m, input, fuel);
    if m.ip < n {
        let m2 = MachineView {
            ip: m.ip + 1,
            tape: m.tape.update(m.ptr, ((m.cell() + 1) % 256) as u8),
            ..m
        };
        lemma_increments_from(m2, n, input, (fuel - 1) as nat);
        lemma_add_mod_noop_right(n - m.ip - 1, m.cell() + 1, 256);
        assert(m2.cell() + (n - m2.ip) == (n - m.ip - 1) + ((m.cell() + 1) % 256));
    } else {
        let m2 = MachineView { ip: m.ip + 1, ..m };
        assert(run_spec(m2, input, (fuel - 1) as nat).1 == Seq::<u8>::empty());
        lemma_small_mod(m.cell() as nat, 256);
        assert(seq![m.cell()] + Seq::<u8>::empty() =~= seq![m.cell()]);
    }
}

/// A program of `n` increments followed by a write finishes and outputs
/// exactly one byte, `n` mod 256.
pub proof fn lemma_increments_then_write(n: nat, memsize: nat, input: Seq<u8>, fuel: nat)
    requires
        memsize > 0,
        fuel > n,
    ensures
        run_spec(initial(increments_then_write(n), memsize), input, fuel).1 == seq![
            (n % 256) as u8,
        ],
        run_spec(initial(increments_then_write(n), memsize), input, fuel).2 == Status::Finished,
{
    let m = initial(increments_then_write(n), memsize);
    assert(m.cell() == 0);
    lemma_increments_from(m, n, input, fuel);
}

/// Net number of cells that the moves of `p` shift the data pointer right.
pub open spec fn displacement(p: Seq<u8>) -> int
    decreases p.len(),
{
    if p.len() == 0 {
        0
    } else {
        (if p[0] == MOVE_RIGHT {
            1int
        } else if p[0] == MOVE_LEFT {
            -1int
        } else {
            0int
        }) + displacement(p.drop_first())
    }
}

/// Every byte of `p` is a pointer move.
pub open spec fn only_moves(p: Seq<u8>) -> bool {
    forall|i: int| 0 <= i < p.len() ==> #[trigger] p[i] == MOVE_RIGHT || p[i] == MOVE_LEFT
}

proof fn lemma_moves_from(m: MachineView, input: Seq<u8>, fuel: nat)
    requires
        m.wf(),
        only_moves(m.program),
        fuel >= m.program.len() - m.ip,
    ensures
        run_spec(m, input, fuel).2 == Status::Finished,
        run_spec(m, input, fuel).0.ptr == (m.ptr + displacement(m.rest())) % (
        m.tape.len() as int),
    decreases m.program.len() - m.ip,
{
    let len = m.tape.len() as int;
    if m.halted() {
        assert(m.rest().len() == 0);
        lemma_small_mod(m.ptr as nat, len as nat);
    } else {
        let d: int = if m.instruction() == MOVE_RIGHT { 1 } else { -1 };
        let m2 = MachineView { ip: m.ip + 1, ptr: (m.ptr + d) % len, ..m };
        assert(m.instruction() == MOVE_RIGHT || m.instruction() == MOVE_LEFT);
        lemma_moves_from(m2, input, (fuel - 1) as nat);
        assert(m2.rest() =~= m.rest().drop_first());
        lemma_add_mod_noop_right(displacement(m2.rest()), m.ptr + d, len);
        assert(m2.ptr + displacement(m2.rest()) == displacement(m2.rest()) + ((m.ptr + d) % len));
        assert(m.ptr + displacement(m.rest()) == displacement(m2.rest()) + (m.ptr + d));
    }
}

/// Running a program made only of pointer moves leaves the data pointer at
/// its net displacement modulo the tape length.
pub proof fn lemma_moves_displacement(program: Seq<u8>, memsize: nat, input: Seq<u8>, fuel: nat)
    requires
        memsize > 0,
        only_moves(program),
        fuel >= program.len(),
    ensures
        run_spec(initial(program, memsize), input, fuel).2 == Status::Finished,
        run_spec(initial(program, memsize), input, fuel).0.ptr == displacement(program) % (
        memsize as int),
{
    let m = initial(program, memsize);
    assert(m.rest() =~= program);
    lemma_moves_from(m, input, fuel);
}

/// Moving left from the first cell lands on the last one; moving right from
/// the last cell lands on the first.
pub proof fn lemma_pointer_wraps(m: MachineView)
    requires
        m.wf(),
        !m.halted(),
    ensures
        m.instruction() == MOVE_LEFT && m.ptr == 0 ==> step_spec(m).0.ptr
            == m.tape.len() - 1,
        m.instruction() == MOVE_RIGHT && m.ptr == m.tape.len() - 1
            ==> step_spec(m).0.ptr == 0,
{
    let len = m.tape.len() as int;
    if m.instruction() == MOVE_LEFT && m.ptr == 0 {
        lemma_mod_add_multiples_vanish(-1, len);
        lemma_small_mod((len - 1) as nat, len as nat);
    }
    if m.instruction() == MOVE_RIGHT && m.ptr == len - 1 {
        lemma_mod_self_0(len);
    }
}

/// The program `,.` copies one input byte to the output unchanged.
pub proof fn lemma_read_write_copies(b: u8, rest: Seq<u8>, memsize: nat, fuel: nat)
    requires
        memsize > 0,
        fuel >= 2,
    ensures
        run_spec(initial(seq![READ, WRITE], memsize), seq![b] + rest, fuel).1 == seq![b],
        run_spec(initial(seq![READ, WRITE], memsize), seq![b] + rest, fuel).2 == Status::Finished,
{
    let m = initial(seq![READ, WRITE], memsize);
    let input = seq![b] + rest;
    let m1 = after_input(m, b);
    assert(input[0] == b);
    assert(input.drop_first() =~= rest);
    let m2 = MachineView { ip: 2, ..m1 };
    assert(m1.cell() == b);
    assert(run_spec(m2, rest, (fuel - 2) as nat).1 == Seq::<u8>::empty());
    assert(run_spec(m1, rest, (fuel - 1) as nat).1 =~= seq![b]);
}

/// A loop-close reached with no recorded loop-open aborts the run at once:
/// nothing more is written and the state is left as it was.
pub proof fn lemma_unmatched_close_aborts(m: MachineView, input: Seq<u8>, fuel: nat)
    requires
        m.wf(),
        !m.halted(),
        m.instruction() == LOOP_CLOSE,
        m.stack.len() == 0,
        fuel > 0,
    ensures
        run_spec(m, input, fuel) == (m, Seq::<u8>::empty(), Status::Failed(
            Problem::UnmatchedLoopClose,
        )),
{
}

/// A loop-open entered on a zero cell with no matching close after it
/// aborts the run at once.
pub proof fn lemma_unclosed_loop_aborts(m: MachineView, input: Seq<u8>, fuel: nat)
    requires
        m.wf(),
        !m.halted(),
        m.instruction() == LOOP_OPEN,
        m.cell() == 0,
        !has_match(m.rest()),
        fuel > 0,
    ensures
        run_spec(m, input, fuel) == (m, Seq::<u8>::empty(), Status::Failed(
            Problem::UnclosedLoop,
        )),
{
}

/// Number of reads in `p`.
pub open spec fn reads_in(p: Seq<u8>) -> nat
    decreases p.len(),
{
    if p.len() == 0 {
        0
    } else {
        (if p[0] == READ { 1nat } else { 0nat }) + reads_in(p.drop_first())
    }
}

/// `p` holds neither loop-opens nor loop-closes.
pub open spec fn bracket_free(p: Seq<u8>) -> bool {
    forall|i: int| 0 <= i < p.len() ==> #[trigger] p[i] != LOOP_OPEN && p[i] != LOOP_CLOSE
}

proof fn lemma_stray_close_from(
    m: MachineView,
    prefix: Seq<u8>,
    suffix: Seq<u8>,
    input: Seq<u8>,
    fuel: nat,
)
    requires
        m.wf(),
        m.program == prefix.push(LOOP_CLOSE) + suffix,
        bracket_free(prefix),
        m.ip <= prefix.len(),
        m.stack.len() == 0,
        input.len() >= reads_in(prefix.subrange(m.ip, prefix.len() as int)),
        fuel > prefix.len() - m.ip,
    ensures
        run_spec(m, input, fuel).2 == Status::Failed(Problem::UnmatchedLoopClose),
    decreases prefix.len() - m.ip,
{
    if m.ip == prefix.len() {
        assert(m.instruction() == LOOP_CLOSE);
    } else {
        let c = m.instruction();
        let rest = prefix.subrange(m.ip, prefix.len() as int);
        assert(c == prefix[m.ip]);
        assert(rest[0] == c);
        assert(rest.drop_first() =~= prefix.subrange(m.ip + 1, prefix.len() as int));
        if c == READ {
            let m2 = after_input(m, input[0]);
            lemma_stray_close_from(m2, prefix, suffix, input.drop_first(), (fuel - 1) as nat);
        } else {
            let m2 = step_spec(m).0;
            lemma_stray_close_from(m2, prefix, suffix, input, (fuel - 1) as nat);
        }
    }
}

/// A program whose first bracket is a loop-close fails with the
/// unmatched-loop-close error once execution reaches it (given input for
/// the reads before it and enough steps).
pub proof fn lemma_stray_close_fails(
    prefix: Seq<u8>,
    suffix: Seq<u8>,
    memsize: nat,
    input: Seq<u8>,
    fuel: nat,
)
    requires
        memsize > 0,
        bracket_free(prefix),
        input.len() >= reads_in(prefix),
        fuel > prefix.len(),
    ensures
        run_spec(initial(prefix.push(LOOP_CLOSE) + suffix, memsize), input, fuel).2
            == Status::Failed(Problem::UnmatchedLoopClose),
{
    assert(prefix.subrange(0, prefix.len() as int) =~= prefix);
    lemma_stray_close_from(initial(prefix.push(LOOP_CLOSE) + suffix, memsize), prefix, suffix, input, fuel);
}

} // verus!
