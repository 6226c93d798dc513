use brainfuck::compile::{self, Instruction};
use brainfuck::interpret::{
    self, cycle, execute, next_instr, read_byte, run, write_byte, State, TAPE_LEN,
};
use brainfuck::machine::Action;

#[test]
fn test_write_a() {
    let mut bytes = Vec::new();
    let prog = "++++++++[>++++++++<-]>+.";

    run(prog, [].as_slice(), &mut bytes).unwrap();
    assert_eq!(String::from_utf8(bytes).unwrap(), "A");
}

#[test]
fn test_read_back() {
    let mut bytes = Vec::new();
    let prog = ",[.,]";
    let input = "Hello, World!".as_bytes();

    run(prog, input, &mut bytes).unwrap();
    let out = String::from_utf8(bytes).unwrap();
    assert_eq!(out, "Hello, World!");
}

#[test]
fn test_hello_world() {
    let mut bytes = Vec::new();
    let prog = "++++++++[>++++[>++>+++>+++>+<<<<-]>+>+>->>+[<]<-]>>.>---.+++++++..+++.>>.<-.<.+++.------.--------.>>+.>++.";

    run(prog, [].as_slice(), &mut bytes).unwrap();
    let out = String::from_utf8(bytes).unwrap();
    assert_eq!(out, "Hello World!\n");
}

#[test]
fn test_cell_oob_left() {
    let mut bytes = Vec::new();
    let prog = "<";

    match run(prog, [].as_slice(), &mut bytes) {
        Err(interpret::Error::CellOutOfBounds) => (),
        _ => panic!("Expected cell out of bounds error"),
    }
}

#[test]
fn test_cell_oob_right() {
    let mut bytes = Vec::new();
    let prog = "+[>+]";

    match run(prog, [].as_slice(), &mut bytes) {
        Err(interpret::Error::CellOutOfBounds) => (),
        _ => panic!("Expected cell out of bounds error"),
    }
}

#[test]
fn tape_has_the_documented_length() {
    assert_eq!(TAPE_LEN, 65536);
}

#[test]
fn empty_program_does_nothing() {
    let mut bytes = vec![1, 2, 3];
    run("", b"ignored", &mut bytes).unwrap();
    assert_eq!(bytes, vec![1, 2, 3]);
}

#[test]
fn output_is_appended() {
    let mut bytes = vec![b'x'];
    run("+++.+.", &[], &mut bytes).unwrap();
    assert_eq!(bytes, vec![b'x', 3, 4]);
}

#[test]
fn increment_wraps_to_zero() {
    let mut bytes = Vec::new();
    let prog = format!("{}.+.", "+".repeat(255));
    run(&prog, &[], &mut bytes).unwrap();
    assert_eq!(bytes, vec![255, 0]);
}

#[test]
fn decrement_wraps_to_255() {
    let mut bytes = Vec::new();
    run("-.-.", &[], &mut bytes).unwrap();
    assert_eq!(bytes, vec![255, 254]);
}

#[test]
fn add_cell_wraps() {
    let mut state = State::new(4);
    state.add_cell(255);
    assert_eq!(*state.cell(), 255);
    state.add_cell(1);
    assert_eq!(*state.cell(), 0);
    state.add_cell(200);
    state.add_cell(100);
    assert_eq!(*state.cell(), 44);
}

#[test]
fn read_past_the_end_stores_zero() {
    let mut bytes = Vec::new();
    run("+++,.", &[], &mut bytes).unwrap();
    assert_eq!(bytes, vec![0]);

    let mut bytes = Vec::new();
    run(",.,.,.", &[7], &mut bytes).unwrap();
    assert_eq!(bytes, vec![7, 0, 0]);
}

#[test]
fn input_bytes_pass_through_unchanged() {
    let input: Vec<u8> = (1..=255).collect();
    let mut bytes = Vec::new();
    run(",[.,]", &input, &mut bytes).unwrap();
    assert_eq!(bytes, input);
}

#[test]
fn zero_cell_skips_the_loop() {
    let mut bytes = Vec::new();
    run("[+.]+.", &[], &mut bytes).unwrap();
    assert_eq!(bytes, vec![1]);
}

#[test]
fn empty_loop_on_zero_cell_falls_through() {
    let mut bytes = Vec::new();
    run("[]+.", &[], &mut bytes).unwrap();
    assert_eq!(bytes, vec![1]);
}

#[test]
fn loop_counts_down() {
    let mut bytes = Vec::new();
    run("+++[.-]", &[], &mut bytes).unwrap();
    assert_eq!(bytes, vec![3, 2, 1]);
}

#[test]
fn last_cell_is_in_bounds() {
    let mut bytes = Vec::new();
    let prog = format!("{}+.", ">".repeat(TAPE_LEN - 1));
    run(&prog, &[], &mut bytes).unwrap();
    assert_eq!(bytes, vec![1]);
}

#[test]
fn one_past_the_last_cell_is_out_of_bounds() {
    let mut bytes = Vec::new();
    let prog = format!("+.{}.", ">".repeat(TAPE_LEN));
    match run(&prog, &[], &mut bytes) {
        Err(interpret::Error::CellOutOfBounds) => (),
        other => panic!("Expected cell out of bounds error, got {:?}", other),
    }
    assert_eq!(bytes, vec![1]);
}

#[test]
fn output_before_a_fault_is_kept() {
    let mut bytes = Vec::new();
    match run("+.+.<.", &[], &mut bytes) {
        Err(interpret::Error::CellOutOfBounds) => (),
        other => panic!("Expected cell out of bounds error, got {:?}", other),
    }
    assert_eq!(bytes, vec![1, 2]);
}

#[test]
fn compile_errors_surface_through_run() {
    let mut bytes = vec![9];
    match run("+.]", &[], &mut bytes) {
        Err(interpret::Error::CompileError(compile::Error::UnmatchedCloseBracket(2))) => (),
        other => panic!("Expected compile error, got {:?}", other),
    }
    assert_eq!(bytes, vec![9]);

    match run("[+.", &[], &mut bytes) {
        Err(interpret::Error::CompileError(compile::Error::UnmatchedOpenBracket(0))) => (),
        other => panic!("Expected compile error, got {:?}", other),
    }
    assert_eq!(bytes, vec![9]);
}

#[test]
fn execute_runs_instructions() {
    let code = vec![
        Instruction::Read,
        Instruction::Add(2),
        Instruction::Write,
        Instruction::MovePtr(1),
        Instruction::Add(255),
        Instruction::Write,
    ];
    let mut bytes = Vec::new();
    execute(&code, &[40], &mut bytes).unwrap();
    assert_eq!(bytes, vec![42, 255]);
}

#[test]
fn execute_halts_on_a_jump_past_the_end() {
    let code = vec![Instruction::LoopStart(100), Instruction::Write];
    let mut bytes = Vec::new();
    execute(&code, &[], &mut bytes).unwrap();
    assert_eq!(bytes, vec![]);
}

#[test]
fn execute_takes_wide_pointer_moves() {
    let last = (TAPE_LEN - 1) as isize;
    let code = vec![
        Instruction::MovePtr(last),
        Instruction::Add(5),
        Instruction::MovePtr(-last),
        Instruction::Write,
        Instruction::MovePtr(last),
        Instruction::Write,
    ];
    let mut bytes = Vec::new();
    execute(&code, &[], &mut bytes).unwrap();
    assert_eq!(bytes, vec![0, 5]);

    for by in [TAPE_LEN as isize, -1, isize::MAX, isize::MIN] {
        let mut bytes = Vec::new();
        match execute(&[Instruction::MovePtr(by)], &[], &mut bytes) {
            Err(interpret::Error::CellOutOfBounds) => (),
            other => panic!("Expected cell out of bounds error, got {:?}", other),
        }
    }
}

#[test]
fn move_ptr_stays_on_the_tape() {
    let mut state = State::new(3);
    assert!(matches!(state.move_ptr(-1), Err(interpret::Error::CellOutOfBounds)));
    *state.cell() = 10;
    assert!(state.move_ptr(2).is_ok());
    *state.cell() = 30;
    assert!(matches!(state.move_ptr(1), Err(interpret::Error::CellOutOfBounds)));
    assert_eq!(*state.cell(), 30);
    assert!(state.move_ptr(-2).is_ok());
    assert_eq!(*state.cell(), 10);
    assert!(matches!(state.move_ptr(isize::MAX), Err(interpret::Error::CellOutOfBounds)));
    assert!(matches!(state.move_ptr(isize::MIN), Err(interpret::Error::CellOutOfBounds)));
    assert_eq!(*state.cell(), 10);
}

#[test]
fn new_state_is_zeroed() {
    let mut state = State::new(5);
    for _ in 0..4 {
        assert_eq!(*state.cell(), 0);
        state.move_ptr(1).unwrap();
    }
    assert_eq!(*state.cell(), 0);
}

#[test]
fn next_instr_fetches_and_advances() {
    let code = vec![Instruction::Add(1), Instruction::Write];
    let mut state = State::new(1);
    assert_eq!(next_instr(&mut state, &code), Some(Instruction::Add(1)));
    assert_eq!(next_instr(&mut state, &code), Some(Instruction::Write));
    assert_eq!(next_instr(&mut state, &code), None);
    assert_eq!(next_instr(&mut state, &code), None);
    state.jmp(1);
    assert_eq!(next_instr(&mut state, &code), Some(Instruction::Write));
    state.jmp(7);
    assert_eq!(next_instr(&mut state, &code), None);
}

#[test]
fn step_asks_for_input_and_output() {
    let code = compile::compile(",+.[-]<").unwrap();
    let mut state = State::new(2);
    assert!(matches!(state.step(&code), Ok(Action::Input)));
    *state.cell() = 1;
    assert!(matches!(state.step(&code), Ok(Action::Proceed)));
    assert!(matches!(state.step(&code), Ok(Action::Output(2))));
    // the loop: entered, two rounds, left
    assert!(matches!(state.step(&code), Ok(Action::Proceed)));
    assert!(matches!(state.step(&code), Ok(Action::Proceed)));
    assert_eq!(*state.cell(), 1);
    assert!(matches!(state.step(&code), Ok(Action::Proceed)));
    assert!(matches!(state.step(&code), Ok(Action::Proceed)));
    assert_eq!(*state.cell(), 0);
    assert!(matches!(state.step(&code), Ok(Action::Proceed)));
    assert!(matches!(state.step(&code), Err(interpret::Error::CellOutOfBounds)));
}

#[test]
fn step_leaves_a_faulting_state_alone() {
    let code = vec![Instruction::Add(9), Instruction::MovePtr(1), Instruction::Write];
    let mut state = State::new(1);
    assert!(matches!(state.step(&code), Ok(Action::Proceed)));
    assert!(matches!(state.step(&code), Err(interpret::Error::CellOutOfBounds)));
    assert!(matches!(state.step(&code), Err(interpret::Error::CellOutOfBounds)));
    assert_eq!(*state.cell(), 9);
    assert_eq!(next_instr(&mut state, &code), Some(Instruction::MovePtr(1)));
}

#[test]
fn cycle_does_the_reading_and_writing() {
    let code = compile::compile(",.,.>").unwrap();
    let input = [b'a'];
    let mut state = State::new(1);
    let mut consumed = 0;
    let mut out = vec![b'-'];
    assert!(matches!(cycle(&mut state, &code, &input, &mut consumed, &mut out), Ok(false)));
    assert_eq!((consumed, *state.cell()), (1, b'a'));
    assert!(matches!(cycle(&mut state, &code, &input, &mut consumed, &mut out), Ok(false)));
    assert_eq!(out, vec![b'-', b'a']);
    assert!(matches!(cycle(&mut state, &code, &input, &mut consumed, &mut out), Ok(false)));
    assert_eq!((consumed, *state.cell()), (1, 0));
    assert!(matches!(cycle(&mut state, &code, &input, &mut consumed, &mut out), Ok(false)));
    assert_eq!(out, vec![b'-', b'a', 0]);
    for _ in 0..2 {
        assert!(matches!(
            cycle(&mut state, &code, &input, &mut consumed, &mut out),
            Err(interpret::Error::CellOutOfBounds)
        ));
    }
    assert_eq!((consumed, out.len()), (1, 3));
}

#[test]
fn cycle_reports_the_end_of_the_code() {
    let code = vec![Instruction::Add(1)];
    let mut state = State::new(1);
    let mut consumed = 0;
    let mut out = Vec::new();
    assert!(matches!(cycle(&mut state, &code, &[], &mut consumed, &mut out), Ok(false)));
    assert!(matches!(cycle(&mut state, &code, &[], &mut consumed, &mut out), Ok(true)));
    assert!(matches!(cycle(&mut state, &code, &[], &mut consumed, &mut out), Ok(true)));
    assert_eq!(*state.cell(), 1);
    assert!(out.is_empty());
}

#[test]
fn cycle_can_bound_a_run_that_never_ends() {
    let code = compile::compile("+[.]").unwrap();
    let mut state = State::new(1);
    let mut consumed = 0;
    let mut out = Vec::new();
    for _ in 0..1001 {
        assert!(matches!(cycle(&mut state, &code, &[], &mut consumed, &mut out), Ok(false)));
    }
    assert_eq!(out, vec![1; 500]);
}

#[test]
fn step_halts_past_the_end() {
    let code = vec![Instruction::Add(3)];
    let mut state = State::new(1);
    assert!(matches!(state.step(&code), Ok(Action::Proceed)));
    assert!(matches!(state.step(&code), Ok(Action::Halt)));
    assert!(matches!(state.step(&code), Ok(Action::Halt)));
    assert_eq!(*state.cell(), 3);
}

#[test]
fn read_byte_walks_the_input() {
    let input = [5u8, 6];
    let mut consumed = 0;
    assert_eq!(read_byte(&input, &mut consumed), 5);
    assert_eq!(consumed, 1);
    assert_eq!(read_byte(&input, &mut consumed), 6);
    assert_eq!(consumed, 2);
    assert_eq!(read_byte(&input, &mut consumed), 0);
    assert_eq!(consumed, 2);
    let mut beyond = 9;
    assert_eq!(read_byte(&input, &mut beyond), 0);
    assert_eq!(beyond, 9);
}

#[test]
fn write_byte_appends() {
    let mut out = vec![1u8];
    write_byte(&mut out, 2);
    write_byte(&mut out, 0);
    assert_eq!(out, vec![1, 2, 0]);
}

#[test]
fn runtime_messages() {
    assert_eq!(interpret::Error::CellOutOfBounds.to_string(), "cell out of bounds");
    assert_eq!(
        interpret::Error::CompileError(compile::Error::UnmatchedOpenBracket(0)).to_string(),
        "compile error: Unmatched '[' at position 0"
    );
    assert_eq!(
        interpret::Error::CompileError(compile::Error::UnmatchedCloseBracket(31)).to_string(),
        "compile error: Unmatched ']' at position 31"
    );
    let io = std::io::Error::new(std::io::ErrorKind::Other, "boom");
    assert_eq!(interpret::Error::IoError(io).to_string(), "IO error: boom");
}

#[test]
fn errors_convert_into_the_runtime_error() {
    let from_compile = interpret::Error::from(compile::Error::UnmatchedCloseBracket(4));
    assert!(matches!(
        from_compile,
        interpret::Error::CompileError(compile::Error::UnmatchedCloseBracket(4))
    ));
    let io = std::io::Error::new(std::io::ErrorKind::UnexpectedEof, "short");
    match interpret::Error::from(io) {
        interpret::Error::IoError(e) => assert_eq!(e.kind(), std::io::ErrorKind::UnexpectedEof),
        other => panic!("Expected an I/O error, got {:?}", other),
    }
}

#[test]
fn commentary_in_any_script_is_skipped() {
    let mut bytes = Vec::new();
    run("caf\u{e9}: +++ \u{4e16}\u{754c} . done", &[], &mut bytes).unwrap();
    assert_eq!(bytes, vec![3]);
}

#[test]
fn nested_loops_multiply() {
    let mut bytes = Vec::new();
    run("+++[>++++[>+++++<-]<-]>>.", &[], &mut bytes).unwrap();
    assert_eq!(bytes, vec![60]);
}
