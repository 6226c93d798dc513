use brainfuck::compile::{compile, Error, Instruction};
use brainfuck::decimal::to_decimal;

#[test]
fn test_compile() {
    let prog = ",+[.,+]";
    let instrs = compile(prog).unwrap();
    let expected = vec![
        Instruction::Read,
        Instruction::Add(1),
        Instruction::LoopStart(7),
        Instruction::Write,
        Instruction::Read,
        Instruction::Add(1),
        Instruction::LoopEnd(3),
    ];

    assert_eq!(instrs, expected);
}

#[test]
fn test_compile_unmatched_open_bracket() {
    let prog = "[";
    match compile(prog) {
        Err(e) if e.to_string() == "Unmatched '[' at position 0" => (),
        _ => panic!("Expected error"),
    }
}

#[test]
fn test_compile_unmatched_close_bracket() {
    let prog = "]";
    match compile(prog) {
        Err(e) if e.to_string() == "Unmatched ']' at position 0" => (),
        _ => panic!("Expected error"),
    }
}

#[test]
fn compile_empty_text() {
    assert_eq!(compile("").unwrap(), vec![]);
}

#[test]
fn compile_each_symbol() {
    assert_eq!(
        compile("><+-.,").unwrap(),
        vec![
            Instruction::MovePtr(1),
            Instruction::MovePtr(-1),
            Instruction::Add(1),
            Instruction::Add(255),
            Instruction::Write,
            Instruction::Read,
        ]
    );
}

#[test]
fn compile_skips_commentary() {
    let plain = compile("+[-]").unwrap();
    let commented = compile("add one + then\n clear [ - ] done\t").unwrap();
    assert_eq!(plain, commented);
    assert_eq!(
        plain,
        vec![
            Instruction::Add(1),
            Instruction::LoopStart(4),
            Instruction::Add(255),
            Instruction::LoopEnd(2),
        ]
    );
}

#[test]
fn compile_text_without_symbols() {
    assert_eq!(compile("nothing to see here").unwrap(), vec![]);
}

#[test]
fn compile_empty_loop() {
    assert_eq!(
        compile("[]").unwrap(),
        vec![Instruction::LoopStart(2), Instruction::LoopEnd(1)]
    );
}

#[test]
fn compile_nested_loops() {
    assert_eq!(
        compile("[[-]>[+]]").unwrap(),
        vec![
            Instruction::LoopStart(9),
            Instruction::LoopStart(4),
            Instruction::Add(255),
            Instruction::LoopEnd(2),
            Instruction::MovePtr(1),
            Instruction::LoopStart(8),
            Instruction::Add(1),
            Instruction::LoopEnd(6),
            Instruction::LoopEnd(1),
        ]
    );
}

#[test]
fn compile_targets_count_instructions_not_characters() {
    assert_eq!(
        compile("a[b-c]d").unwrap(),
        vec![
            Instruction::LoopStart(3),
            Instruction::Add(255),
            Instruction::LoopEnd(1),
        ]
    );
}

#[test]
fn compile_twice_gives_the_same() {
    let prog = "++[>+[-]<-]>.,[.,]";
    assert_eq!(compile(prog), compile(prog));
    let broken = "++[>+[-]<-";
    assert_eq!(compile(broken), compile(broken));
}

#[test]
fn compile_loops_are_mutually_resolved() {
    let prog = "++++++++[>++++[>++>+++>+++>+<<<<-]>+>+>->>+[<]<-]>>.[[][[]]]";
    let code = compile(prog).unwrap();
    let mut loops = 0;
    for (i, instr) in code.iter().enumerate() {
        match *instr {
            Instruction::LoopStart(t) => {
                assert!(i + 1 < t && t <= code.len());
                assert_eq!(code[t - 1], Instruction::LoopEnd(i + 1));
                loops += 1;
            }
            Instruction::LoopEnd(t) => {
                assert!(1 <= t && t <= i);
                assert_eq!(code[t - 1], Instruction::LoopStart(i + 1));
            }
            _ => {}
        }
    }
    assert_eq!(loops, 7);
}

#[test]
fn unmatched_open_reports_the_innermost() {
    assert_eq!(compile("[["), Err(Error::UnmatchedOpenBracket(1)));
    assert_eq!(compile("[+[-]"), Err(Error::UnmatchedOpenBracket(0)));
    assert_eq!(compile("[][+[-"), Err(Error::UnmatchedOpenBracket(4)));
}

#[test]
fn unmatched_close_reports_the_first() {
    assert_eq!(compile("[]]"), Err(Error::UnmatchedCloseBracket(2)));
    assert_eq!(compile("+]+]"), Err(Error::UnmatchedCloseBracket(1)));
}

#[test]
fn unmatched_close_comes_before_unmatched_open() {
    assert_eq!(compile("]["), Err(Error::UnmatchedCloseBracket(0)));
    assert_eq!(compile("[[]]]["), Err(Error::UnmatchedCloseBracket(4)));
}

#[test]
fn positions_count_commentary() {
    assert_eq!(compile("ab ]"), Err(Error::UnmatchedCloseBracket(3)));
    assert_eq!(compile("say [ no more"), Err(Error::UnmatchedOpenBracket(4)));
}

#[test]
fn positions_count_characters_not_bytes() {
    assert_eq!(compile("\u{e9}\u{4e16}]"), Err(Error::UnmatchedCloseBracket(2)));
    assert_eq!(compile("\u{1f600}["), Err(Error::UnmatchedOpenBracket(1)));
}

#[test]
fn messages_spell_out_the_position() {
    assert_eq!(
        Error::UnmatchedOpenBracket(12).to_string(),
        "Unmatched '[' at position 12"
    );
    assert_eq!(
        Error::UnmatchedCloseBracket(105).to_string(),
        "Unmatched ']' at position 105"
    );
    let far = format!("{}]", " ".repeat(1000));
    assert_eq!(
        compile(&far).unwrap_err().to_string(),
        "Unmatched ']' at position 1000"
    );
}

#[test]
fn decimal_numerals() {
    assert_eq!(to_decimal(0), "0");
    assert_eq!(to_decimal(7), "7");
    assert_eq!(to_decimal(10), "10");
    assert_eq!(to_decimal(909), "909");
    assert_eq!(to_decimal(65535), "65535");
    assert_eq!(to_decimal(1234567890), "1234567890");
    assert_eq!(to_decimal(usize::MAX), format!("{}", usize::MAX));
}
