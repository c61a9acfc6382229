use brainfetch::{BrainFetchInterpreter, RunStatus};

const STEPS: u64 = 1_000_000;

#[test]
fn test_interpreter1() {
    let program = "++++++[>++++++++<-]>.";
    let mut interpreter = BrainFetchInterpreter::new(program).unwrap();
    let r = interpreter.run(&[], STEPS);
    assert!(matches!(r.status, RunStatus::Halted));
    assert_eq!(r.output, "0");
    // the loop leaves the data pointer on a cell holding '0' (48)
    assert_eq!(interpreter.data_pointer(), 1);
    assert_eq!(interpreter.read_cell(1), 48);
}

#[test]
fn test_input1() {
    let input_data = "Hello";
    let mut interpreter = BrainFetchInterpreter::new(",[.,]").unwrap();
    let r = interpreter.run(input_data.as_bytes(), STEPS);
    // echo until the input runs out, then fail on the next `,`
    assert_eq!(r.output, "Hello");
    assert_eq!(r.consumed, 5);
    assert!(matches!(r.status, RunStatus::InputExhausted));
}

#[test]
fn test_plus_minus_are_inverse() {
    // `+` then `-` restores the cell: nothing is left and the output is NUL
    let mut interpreter = BrainFetchInterpreter::new("+-.").unwrap();
    let r = interpreter.run(&[], STEPS);
    assert!(matches!(r.status, RunStatus::Halted));
    assert_eq!(r.output, "\u{0}");
    assert_eq!(interpreter.read_cell(0), 0);
}

#[test]
fn test_cell_arithmetic_wraps_modulo_256() {
    // 300 increments leave 300 mod 256 = 44 (a comma) in the cell
    let mut program = "+".repeat(300);
    program.push('.');
    let mut interpreter = BrainFetchInterpreter::new(&program).unwrap();
    let r = interpreter.run(&[], STEPS);
    assert!(matches!(r.status, RunStatus::Halted));
    assert_eq!(r.output, ",");
    assert_eq!(interpreter.read_cell(0), 44);

    // a decrement on a fresh cell wraps the other way: 0 - 1 = 255
    let mut interpreter = BrainFetchInterpreter::new("-").unwrap();
    let r = interpreter.run(&[], STEPS);
    assert!(matches!(r.status, RunStatus::Halted));
    assert_eq!(interpreter.read_cell(0), 255);
}

#[test]
fn test_unwritten_cells_read_zero() {
    let interpreter = BrainFetchInterpreter::new("").unwrap();
    assert_eq!(interpreter.read_cell(0), 0);
    assert_eq!(interpreter.read_cell(123_456_789), 0);
    assert_eq!(interpreter.read_cell(-987_654_321), 0);
}

#[test]
fn test_hash_resets_data_pointer() {
    let mut interpreter = BrainFetchInterpreter::new(">>>>>#").unwrap();
    let r = interpreter.run(&[], STEPS);
    assert!(matches!(r.status, RunStatus::Halted));
    assert_eq!(interpreter.data_pointer(), 0);

    // also from the negative side
    let mut interpreter = BrainFetchInterpreter::new("<<<#").unwrap();
    let r = interpreter.run(&[], STEPS);
    assert!(matches!(r.status, RunStatus::Halted));
    assert_eq!(interpreter.data_pointer(), 0);
}

#[test]
fn test_indirect_jumps_move_by_cell_value() {
    // cell 0 holds 3; `*` moves the pointer forward by 3
    let mut interpreter = BrainFetchInterpreter::new("+++*").unwrap();
    interpreter.run(&[], STEPS);
    assert_eq!(interpreter.data_pointer(), 3);

    // cell 0 holds 3; `|` moves the pointer backward by 3
    let mut interpreter = BrainFetchInterpreter::new("+++|").unwrap();
    interpreter.run(&[], STEPS);
    assert_eq!(interpreter.data_pointer(), -3);
}

#[test]
fn test_indirect_jumps_on_zero_cell_are_noops() {
    let mut interpreter = BrainFetchInterpreter::new("*|").unwrap();
    let r = interpreter.run(&[], STEPS);
    assert!(matches!(r.status, RunStatus::Halted));
    assert_eq!(interpreter.data_pointer(), 0);
}

#[test]
fn test_unknown_opcodes_are_noops() {
    let mut interpreter = BrainFetchInterpreter::new("+ hello world +.").unwrap();
    let r = interpreter.run(&[], STEPS);
    assert!(matches!(r.status, RunStatus::Halted));
    assert_eq!(r.output, "\u{2}");
}

#[test]
fn test_step_limit_suspends_and_resumes() {
    // `+[]` spins forever: the budget runs out, and a resumed run
    // continues from the same state
    let mut interpreter = BrainFetchInterpreter::new("+[]").unwrap();
    let r = interpreter.run(&[], 1000);
    assert!(matches!(r.status, RunStatus::StepLimit));
    assert_eq!(r.output, "");
    let r = interpreter.run(&[], 1000);
    assert!(matches!(r.status, RunStatus::StepLimit));
    assert_eq!(interpreter.read_cell(0), 1);
}

#[test]
fn test_input_exhaustion_resumes_when_fed() {
    // `,` with nothing to read fails; feeding one byte and resuming
    // re-executes the same `,`
    let mut interpreter = BrainFetchInterpreter::new(",.").unwrap();
    let r = interpreter.run(&[], STEPS);
    assert!(matches!(r.status, RunStatus::InputExhausted));
    assert_eq!(r.consumed, 0);
    assert_eq!(r.output, "");
    let r = interpreter.run(&[65], STEPS);
    assert!(matches!(r.status, RunStatus::Halted));
    assert_eq!(r.consumed, 1);
    assert_eq!(r.output, "A");
}
