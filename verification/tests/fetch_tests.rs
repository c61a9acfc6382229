use brainfetch::{string_to_brainfuck, BrainFetchInterpreter, RunStatus};

const STEPS: u64 = 1_000_000;

#[test]
fn test_fetch_with_empty_url_is_abandoned() {
    // a fresh tape decodes an empty URL at the pointer: no request is
    // issued, memory stays untouched, execution continues to the end
    let mut interpreter = BrainFetchInterpreter::new("@+.").unwrap();
    let r = interpreter.run(&[], STEPS);
    assert!(matches!(r.status, RunStatus::Halted));
    assert_eq!(r.output, "\u{1}");
    assert_eq!(interpreter.read_cell(1), 0);
    assert_eq!(interpreter.read_cell(-1), 0);
}

#[test]
fn test_fetch_decodes_url_and_headers_from_memory() {
    // memory: "u" NUL <skipped> "k" NUL "v" NUL, then `#` returns to the
    // origin and `@` decodes the request
    let mut program = string_to_brainfuck("u");
    program.push_str(">>");
    program.push_str(&string_to_brainfuck("k"));
    program.push('>');
    program.push_str(&string_to_brainfuck("v"));
    program.push_str("#@");
    let mut interpreter = BrainFetchInterpreter::new(&program).unwrap();
    let r = interpreter.run(&[], STEPS);
    match r.status {
        RunStatus::FetchPending { url, headers } => {
            assert_eq!(url, "u");
            assert_eq!(headers, vec![("k".to_string(), "v".to_string())]);
        }
        _ => panic!("expected a pending fetch"),
    }
}

#[test]
fn test_header_list_ends_at_empty_key() {
    // a cell that reads zero right where the first header key would
    // begin ends the list: "ab" NUL <skipped> and nothing else
    let mut program = string_to_brainfuck("ab");
    program.push_str("#@");
    let mut interpreter = BrainFetchInterpreter::new(&program).unwrap();
    let r = interpreter.run(&[], STEPS);
    match r.status {
        RunStatus::FetchPending { url, headers } => {
            assert_eq!(url, "ab");
            assert!(headers.is_empty());
        }
        _ => panic!("expected a pending fetch"),
    }
}

#[test]
fn test_response_body_is_stored_at_current_pointer() {
    // after the pending fetch the data pointer is at the origin; a body
    // of "OK" is stored as exactly `O`, `K`, 0 from there
    let mut program = string_to_brainfuck("u");
    program.push_str("#@");
    let mut interpreter = BrainFetchInterpreter::new(&program).unwrap();
    let r = interpreter.run(&[], STEPS);
    assert!(matches!(r.status, RunStatus::FetchPending { .. }));
    assert_eq!(interpreter.data_pointer(), 0);
    interpreter.store_string_in_memory("OK".to_string());
    assert_eq!(interpreter.read_cell(0), b'O');
    assert_eq!(interpreter.read_cell(1), b'K');
    assert_eq!(interpreter.read_cell(2), 0);
    // the run resumes after the `@` and halts
    let r = interpreter.run(&[], STEPS);
    assert!(matches!(r.status, RunStatus::Halted));
}

#[test]
fn test_string_to_brainfuck_expands_characters() {
    assert_eq!(string_to_brainfuck("A"), format!("{}>", "+".repeat(65)));
    assert_eq!(string_to_brainfuck(""), "");
    assert_eq!(
        string_to_brainfuck("Hi"),
        format!("{}>{}>", "+".repeat(72), "+".repeat(105))
    );
}

#[test]
fn test_string_to_brainfuck_runs_to_lay_out_bytes() {
    let mut program = string_to_brainfuck("Hi");
    program.push_str("#.>.");
    let mut interpreter = BrainFetchInterpreter::new(&program).unwrap();
    let r = interpreter.run(&[], STEPS);
    assert!(matches!(r.status, RunStatus::Halted));
    assert_eq!(r.output, "Hi");
    assert_eq!(interpreter.read_cell(0), b'H');
    assert_eq!(interpreter.read_cell(1), b'i');
    assert_eq!(interpreter.read_cell(2), 0);
}

#[test]
fn test_read_string_from_memory_reads_back_stored_bytes() {
    let mut interpreter = BrainFetchInterpreter::new("").unwrap();
    interpreter.store_string_in_memory("hello".to_string());
    let (s, end) = interpreter.read_string_from_memory(0);
    assert_eq!(s, "hello");
    assert_eq!(end, 5);
    // reading from the middle, and from an unwritten region
    let (s, end) = interpreter.read_string_from_memory(2);
    assert_eq!(s, "llo");
    assert_eq!(end, 5);
    let (s, end) = interpreter.read_string_from_memory(100);
    assert_eq!(s, "");
    assert_eq!(end, 100);
}

#[test]
fn test_read_headers_from_memory_reads_alternating_pairs() {
    // lay out "a" NUL "1" NUL "b" NUL "2" from the origin: one unwritten
    // (zero) cell after each string terminates it
    let mut program = String::new();
    for part in ["a", "1", "b", "2"] {
        program.push_str(&string_to_brainfuck(part));
        program.push('>');
    }
    let mut interpreter = BrainFetchInterpreter::new(&program).unwrap();
    let r = interpreter.run(&[], 1_000_000);
    assert!(matches!(r.status, RunStatus::Halted));
    let headers = interpreter.read_headers_from_memory(0);
    assert_eq!(
        headers,
        vec![
            ("a".to_string(), "1".to_string()),
            ("b".to_string(), "2".to_string()),
        ]
    );
}
