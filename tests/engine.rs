use bf_engine::brackets::skip_loop;
use bf_engine::error::Problem;
use bf_engine::machine::{Action, Machine, DEFAULT_TAPE_LEN};
use bf_engine::run::{run, Status};
use bf_engine::sanitize::cleanup_program;

fn run_text(program: &str, input: &[u8]) -> (Vec<u8>, Status) {
    let r = run(program.as_bytes(), DEFAULT_TAPE_LEN, input, 100_000);
    (r.output, r.status)
}

#[test]
fn skip_loop_finds_nested_match() {
    assert_eq!(skip_loop(b"[[]]]"), Ok(3));
    assert_eq!(skip_loop(b"[]"), Ok(1));
    assert_eq!(skip_loop(b"[+>-]+"), Ok(4));
}

#[test]
fn skip_loop_reports_unclosed_loop() {
    assert_eq!(skip_loop(b"[[]"), Err(Problem::UnclosedLoop));
    assert_eq!(skip_loop(b"["), Err(Problem::UnclosedLoop));
}

#[test]
fn cleanup_removes_non_instructions() {
    assert_eq!(cleanup_program("a+b-c[.],<>x\n"), "+-[.],<>");
    assert_eq!(cleanup_program("hello world"), "");
    assert_eq!(cleanup_program(""), "");
}

#[test]
fn cleanup_is_idempotent() {
    let once = cleanup_program("++ comment [>++<-] more > .");
    assert_eq!(once, "++[>++<-]>.");
    assert_eq!(cleanup_program(&once), once);
}

#[test]
fn noise_does_not_change_execution() {
    let clean = cleanup_program("++[>++<-]>.");
    let noisy = cleanup_program("+ x + [ > y + + < - ] z > . end");
    assert_eq!(clean, noisy);
    assert_eq!(run_text(&noisy, &[]), (vec![4], Status::Finished));
}

#[test]
fn increments_then_write_outputs_count_mod_256() {
    for n in [0usize, 1, 7, 255, 256, 300, 513] {
        let program = format!("{}.", "+".repeat(n));
        assert_eq!(run_text(&program, &[]), (vec![(n % 256) as u8], Status::Finished));
    }
}

#[test]
fn decrement_wraps_below_zero() {
    assert_eq!(run_text("-.", &[]), (vec![255], Status::Finished));
}

#[test]
fn pointer_follows_net_displacement() {
    let mut m = Machine::new(b">>><>", 8);
    while !m.is_halted() {
        assert_eq!(m.step(), Ok(Action::Continue));
    }
    assert_eq!(m.data_pointer(), 3);
}

#[test]
fn pointer_wraps_at_both_ends() {
    let mut m = Machine::new(b"<>", 16);
    assert_eq!(m.step(), Ok(Action::Continue));
    assert_eq!(m.data_pointer(), 15);
    assert_eq!(m.step(), Ok(Action::Continue));
    assert_eq!(m.data_pointer(), 0);
    assert_eq!(m.step(), Ok(Action::Halt));

    let right = ">".repeat(DEFAULT_TAPE_LEN);
    let mut m = Machine::new(right.as_bytes(), DEFAULT_TAPE_LEN);
    while !m.is_halted() {
        assert_eq!(m.step(), Ok(Action::Continue));
    }
    assert_eq!(m.data_pointer(), 0);
}

#[test]
fn read_then_write_copies_every_byte() {
    for b in 0..=255u8 {
        assert_eq!(run_text(",.", &[b, 9]), (vec![b], Status::Finished));
    }
}

#[test]
fn simple_loop_outputs_four() {
    assert_eq!(run_text("++[>++<-]>.", &[]), (vec![4], Status::Finished));
}

#[test]
fn nested_loop_outputs_eight() {
    assert_eq!(run_text("++[>++[>++<-]<-]>>.", &[]), (vec![8], Status::Finished));
}

#[test]
fn stray_close_fails_and_stops() {
    assert_eq!(
        run_text("]", &[]),
        (vec![], Status::Failed(Problem::UnmatchedLoopClose))
    );
    assert_eq!(
        run_text("+.].", &[]),
        (vec![1], Status::Failed(Problem::UnmatchedLoopClose))
    );
}

#[test]
fn unclosed_loop_fails_only_when_skipped() {
    assert_eq!(run_text("[", &[]), (vec![], Status::Failed(Problem::UnclosedLoop)));
    assert_eq!(run_text(".[+", &[]), (vec![0], Status::Failed(Problem::UnclosedLoop)));
    assert_eq!(run_text("+[", &[]), (vec![], Status::Finished));
}

#[test]
fn read_on_empty_input_ends_run() {
    assert_eq!(run_text(".,.", &[]), (vec![0], Status::EndOfInput));
}

#[test]
fn endless_loop_hits_step_limit() {
    let r = run(b"+[]", 4, &[], 50);
    assert_eq!(r.status, Status::StepLimit);
    assert!(r.output.is_empty());
}

#[test]
fn machine_asks_for_input_and_output() {
    let mut m = Machine::new(b",+.", 4);
    assert_eq!(m.step(), Ok(Action::Input));
    assert_eq!(m.instruction_pointer(), 0);
    m.provide_input(b'A');
    assert_eq!(m.current_cell(), b'A');
    assert_eq!(m.step(), Ok(Action::Continue));
    assert_eq!(m.step(), Ok(Action::Output(b'B')));
    assert!(m.is_halted());
    assert_eq!(m.step(), Ok(Action::Halt));
}

#[test]
fn error_messages() {
    assert_eq!(Problem::UnmatchedLoopClose.message(), "Undeclared loop");
    assert_eq!(Problem::UnclosedLoop.message(), "Unclosed loop!");
}
