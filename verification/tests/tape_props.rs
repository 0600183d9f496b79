use brainfuck::{Engine, Interpreter, Tape};

#[test]
fn matched_moves_return_the_cursor() {
    // A program of `>`/`<` pairs with matching counts leaves the cursor
    // where it started, wraparound included.
    let mut t = Tape::new(3, vec![0; 16]);
    t.add_ptr(5);
    t.add_ptr(-5);
    assert_eq!(t.pointer, 3);
    t.add_ptr(-7);
    t.add_ptr(7);
    assert_eq!(t.pointer, 3);
    // The same through a whole program: the engine's cursor ends at 0, so
    // cell 0 is the one the final `+` touches.
    let mut e = Engine::new(0, vec![0; 16]);
    assert!(e.eval("3>2<2>3<+.", "").is_ok());
    assert_eq!(e.tape.buffer[0], 1);
}

#[test]
fn incrementing_256_times_wraps_around() {
    let mut t = Tape::new(0, vec![7, 9]);
    for _ in 0..256 {
        t.add_val(1);
    }
    assert_eq!(t.get_char(), 7);
    for _ in 0..256 {
        t.add_val(-1);
    }
    assert_eq!(t.get_char(), 7);
}

#[test]
fn zero_guarded_empty_loop_changes_nothing() {
    let mut e = Engine::new(0, vec![0; 8]);
    let result = e.eval("[]", "");
    assert_eq!(result, Ok(String::new()));
    assert_eq!(e.tape.pointer, 0);
    assert_eq!(e.tape.buffer, vec![0; 8]);
}

#[test]
fn snapshot_trims_at_the_first_gap() {
    let t = Tape::new(2, vec![0, 3, 5, 0, 7]);
    let s = t.snapshot();
    assert_eq!(s.pointer, 2);
    assert_eq!(s.cells, vec![0, 3, 5]);

    let all_zero = Tape::new(0, vec![0, 0, 0]);
    assert_eq!(all_zero.snapshot().cells, Vec::<u8>::new());

    let no_gap = Tape::new(0, vec![1, 2]);
    assert_eq!(no_gap.snapshot().cells, vec![1, 2]);
}

#[test]
fn dump_instruction_records_a_snapshot() {
    let mut i = Interpreter::new(0, vec![0; 8]);
    assert!(i.eval("+?+?").is_ok());
    let dumps = i.dumps();
    assert_eq!(dumps.len(), 2);
    assert_eq!(dumps[0].pointer, 0);
    assert_eq!(dumps[0].cells, vec![1]);
    assert_eq!(dumps[1].cells, vec![2]);
    // The dump channel is separate from program output.
    assert_eq!(i.stdout(), b"");
}
