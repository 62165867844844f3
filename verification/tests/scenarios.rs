use brainfuck::{Fault, Interpreter, Status};

#[test]
fn three_increments_then_output() {
    let mut interpreter = Interpreter::new();
    let report = interpreter.run("+++.", &[], 100);
    assert_eq!(report.status, Status::Finished);
    assert_eq!(report.output, vec![3u8]);
    assert_eq!(report.lines_read, 0);
    assert_eq!(interpreter.tape().peek(0), 3);
    assert_eq!(interpreter.pointer(), 0);
}

#[test]
fn copy_loop_moves_the_value() {
    let mut interpreter = Interpreter::new();
    let report = interpreter.run("++[>+<-]", &[], 1000);
    assert_eq!(report.status, Status::Finished);
    assert_eq!(interpreter.tape().peek(0), 0);
    assert_eq!(interpreter.tape().peek(1), 2);
    assert_eq!(interpreter.pointer(), 0);
    assert!(report.output.is_empty());
}

#[test]
fn closing_bracket_without_loop_is_malformed() {
    let mut interpreter = Interpreter::new();
    let report = interpreter.run("]", &[], 100);
    assert_eq!(report.status, Status::Failed(Fault::MalformedLoop));
    assert_eq!(interpreter.tape().len(), 0);
}

#[test]
fn closing_bracket_without_loop_is_malformed_with_nonzero_guard() {
    let mut interpreter = Interpreter::new();
    let report = interpreter.run("+]", &[], 100);
    assert_eq!(report.status, Status::Failed(Fault::MalformedLoop));
    assert_eq!(interpreter.tape().peek(0), 1);
}

#[test]
fn unmatched_opening_bracket_is_malformed() {
    let mut interpreter = Interpreter::new();
    let report = interpreter.run("[+>", &[], 100);
    assert_eq!(report.status, Status::Failed(Fault::MalformedLoop));
    assert_eq!(interpreter.tape().len(), 0);
    assert_eq!(interpreter.pointer(), 0);
}

#[test]
fn unmatched_opening_bracket_at_the_very_end_is_malformed() {
    let mut interpreter = Interpreter::new();
    let report = interpreter.run("+-[", &[], 100);
    assert_eq!(report.status, Status::Failed(Fault::MalformedLoop));
}

#[test]
fn unmatched_opening_bracket_entered_with_nonzero_guard_just_runs_on() {
    let mut interpreter = Interpreter::new();
    let report = interpreter.run("+[>+", &[], 100);
    assert_eq!(report.status, Status::Finished);
    assert_eq!(interpreter.tape().peek(1), 1);
}

#[test]
fn hello_world() {
    let program = "++++++++[>++++[>++>+++>+++>+<<<<-]>+>+>->>+[<]<-]>>.>---.+++++++..+++.>>.<-.<.+++.------.--------.>>+.>++.";
    let mut interpreter = Interpreter::new();
    let report = interpreter.run(program, &[], 100_000);
    assert_eq!(report.status, Status::Finished);
    assert_eq!(report.output, b"Hello World!\n".to_vec());
}

#[test]
fn failure_keeps_what_was_done_before_it() {
    let mut interpreter = Interpreter::new();
    let report = interpreter.run("++>+++.<.]+", &[], 100);
    assert_eq!(report.status, Status::Failed(Fault::MalformedLoop));
    assert_eq!(report.output, vec![3u8, 2u8]);
    assert_eq!(interpreter.tape().peek(0), 2);
    assert_eq!(interpreter.tape().peek(1), 3);
    assert_eq!(interpreter.pointer(), 0);
}

#[test]
fn state_is_kept_from_one_program_to_the_next() {
    let mut interpreter = Interpreter::new();
    let first = interpreter.run("+++>++", &[], 100);
    assert_eq!(first.status, Status::Finished);
    assert_eq!(interpreter.pointer(), 1);
    let second = interpreter.run(".<.", &[], 100);
    assert_eq!(second.status, Status::Finished);
    assert_eq!(second.output, vec![2u8, 3u8]);
    assert_eq!(interpreter.pointer(), 0);
}

#[test]
fn a_failed_program_does_not_spoil_the_next() {
    let mut interpreter = Interpreter::new();
    let failed = interpreter.run("++++]", &[], 100);
    assert_eq!(failed.status, Status::Failed(Fault::MalformedLoop));
    let next = interpreter.run("+.", &[], 100);
    assert_eq!(next.status, Status::Finished);
    assert_eq!(next.output, vec![5u8]);
}

#[test]
fn an_endless_loop_runs_out_of_steps() {
    let mut interpreter = Interpreter::new();
    let report = interpreter.run("+[]", &[], 1000);
    assert_eq!(report.status, Status::OutOfSteps);
    assert_eq!(interpreter.tape().peek(0), 1);
}

#[test]
fn the_step_limit_counts_instructions() {
    let mut interpreter = Interpreter::new();
    let report = interpreter.run("+++++", &[], 3);
    assert_eq!(report.status, Status::OutOfSteps);
    assert_eq!(interpreter.tape().peek(0), 3);

    let mut exact = Interpreter::new();
    let report = exact.run("+++++", &[], 5);
    assert_eq!(report.status, Status::Finished);
    assert_eq!(exact.tape().peek(0), 5);
}

#[test]
fn the_empty_program_finishes_without_a_step() {
    let mut interpreter = Interpreter::new();
    let report = interpreter.run("", &[], 0);
    assert_eq!(report.status, Status::Finished);
    assert!(report.output.is_empty());
    assert_eq!(interpreter.tape().len(), 0);
}

#[test]
fn other_characters_are_skipped() {
    let mut interpreter = Interpreter::new();
    let report = interpreter.run("add one: + and\ntwo more ++ then print .", &[], 1000);
    assert_eq!(report.status, Status::Finished);
    assert_eq!(report.output, vec![3u8]);
}

#[test]
fn characters_outside_ascii_count_as_one_instruction_each() {
    let mut interpreter = Interpreter::new();
    let report = interpreter.run("é+ü", &[], 3);
    assert_eq!(report.status, Status::Finished);
    assert_eq!(interpreter.tape().peek(0), 1);
}

#[test]
fn default_is_a_fresh_interpreter() {
    let interpreter = Interpreter::default();
    assert_eq!(interpreter.pointer(), 0);
    assert_eq!(interpreter.tape().len(), 0);
}
