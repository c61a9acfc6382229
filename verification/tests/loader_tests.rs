use brainfetch::{BrainFetchInterpreter, LoadError, RunStatus};

#[test]
fn test_jump_table_pairs_matching_brackets() {
    let program: Vec<char> = "[[][]]".chars().collect();
    let table = BrainFetchInterpreter::build_bracket_pairs(&program).unwrap();
    assert_eq!(table[&0], 5);
    assert_eq!(table[&5], 0);
    assert_eq!(table[&1], 2);
    assert_eq!(table[&2], 1);
    assert_eq!(table[&3], 4);
    assert_eq!(table[&4], 3);
}

#[test]
fn test_jump_table_is_involution() {
    let program: Vec<char> = "+[>[.-]<[]]ignored[,]".chars().collect();
    let table = BrainFetchInterpreter::build_bracket_pairs(&program).unwrap();
    for (&i, &j) in table.iter() {
        assert_eq!(table[&j], i);
        assert_ne!(i, j);
    }
}

#[test]
fn test_non_brackets_are_kept_positionally() {
    // comment characters count for bracket positions but are inert
    let program: Vec<char> = "ab[cd]e".chars().collect();
    let table = BrainFetchInterpreter::build_bracket_pairs(&program).unwrap();
    assert_eq!(table.len(), 2);
    assert_eq!(table[&2], 5);
    assert_eq!(table[&5], 2);
}

#[test]
fn test_unmatched_closer_fails_loading() {
    assert_eq!(
        BrainFetchInterpreter::new("]").err(),
        Some(LoadError::MalformedProgram)
    );
    assert_eq!(
        BrainFetchInterpreter::new("+[.]]").err(),
        Some(LoadError::MalformedProgram)
    );
}

#[test]
fn test_unmatched_opener_fails_loading() {
    assert_eq!(
        BrainFetchInterpreter::new("[").err(),
        Some(LoadError::MalformedProgram)
    );
    assert_eq!(
        BrainFetchInterpreter::new("[[]").err(),
        Some(LoadError::MalformedProgram)
    );
}

#[test]
fn test_ill_nested_brackets_fail_loading() {
    // balanced counts but not well-nested
    assert_eq!(
        BrainFetchInterpreter::new("][").err(),
        Some(LoadError::MalformedProgram)
    );
}

#[test]
fn test_balanced_programs_load_and_run() {
    let mut interpreter = BrainFetchInterpreter::new("[.,][]").unwrap();
    // every loop body is skipped on a zero cell: no output, no input read
    let r = interpreter.run(&[], 1000);
    assert!(matches!(r.status, RunStatus::Halted));
    assert_eq!(r.output, "");
    assert_eq!(r.consumed, 0);
}
