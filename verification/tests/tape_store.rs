use brainfuck::Tape;

#[test]
fn a_new_tape_is_empty() {
    let tape = Tape::new();
    assert_eq!(tape.len(), 0);
    assert_eq!(tape.peek(0), 0);
    assert_eq!(tape.peek(1000), 0);
    assert_eq!(tape.peek(usize::MAX), 0);
}

#[test]
fn peek_never_extends() {
    let tape = Tape::new();
    let _ = tape.peek(5);
    assert_eq!(tape.len(), 0);
}

#[test]
fn read_extends_up_to_the_position() {
    let mut tape = Tape::new();
    assert_eq!(tape.read(4), 0);
    assert_eq!(tape.len(), 5);
    assert_eq!(tape.read(2), 0);
    assert_eq!(tape.len(), 5);
}

#[test]
fn write_extends_with_zero_cells() {
    let mut tape = Tape::new();
    tape.write(3, 7);
    assert_eq!(tape.len(), 4);
    assert_eq!(tape.peek(0), 0);
    assert_eq!(tape.peek(1), 0);
    assert_eq!(tape.peek(2), 0);
    assert_eq!(tape.peek(3), 7);
    assert_eq!(tape.peek(4), 0);
}

#[test]
fn write_inside_the_tape_keeps_its_length_and_the_other_cells() {
    let mut tape = Tape::new();
    tape.write(2, 9);
    tape.write(0, 1);
    tape.write(2, 200);
    assert_eq!(tape.len(), 3);
    assert_eq!(tape.peek(0), 1);
    assert_eq!(tape.peek(1), 0);
    assert_eq!(tape.peek(2), 200);
    assert_eq!(tape.read(2), 200);
}

#[test]
fn extend_to_is_idempotent_and_never_shrinks() {
    let mut tape = Tape::new();
    tape.extend_to(9);
    assert_eq!(tape.len(), 10);
    tape.extend_to(9);
    assert_eq!(tape.len(), 10);
    tape.extend_to(0);
    assert_eq!(tape.len(), 10);
    tape.extend_to(10);
    assert_eq!(tape.len(), 11);
}
