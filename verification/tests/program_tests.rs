use bft::Instruction;
use bft::Program;
use bft::VMError;

#[test]
fn parse_source() {
    let input = ">
<+-.,
[]"
    .to_string();

    // Now create the program
    let p = Program::new("test.bf".to_string(), &input);
    let ins = p.instructions();
    assert_eq!(ins[0], Instruction::IncrementDP(1, 1));
    assert_eq!(ins[1], Instruction::DecrementDP(2, 1));
    assert_eq!(ins[2], Instruction::IncrementByte(2, 2));
    assert_eq!(ins[3], Instruction::DecrementByte(2, 3));
    assert_eq!(ins[4], Instruction::Output(2, 4));
    assert_eq!(ins[5], Instruction::Input(2, 5));
}

#[test]
fn parse_keeps_comments_with_positions() {
    let p = Program::new("test.bf".to_string(), "a+b");
    let ins = p.instructions();
    assert_eq!(ins.len(), 3);
    assert_eq!(ins[0], Instruction::Comment(1, 1, 'a'));
    assert_eq!(ins[1], Instruction::IncrementByte(1, 2));
    assert_eq!(ins[2], Instruction::Comment(1, 3, 'b'));
}

#[test]
fn parse_crlf_breaks_line() {
    let p = Program::new("test.bf".to_string(), "+\r\n-");
    let ins = p.instructions();
    assert_eq!(ins.len(), 2);
    assert_eq!(ins[0], Instruction::IncrementByte(1, 1));
    assert_eq!(ins[1], Instruction::DecrementByte(2, 1));
}

#[test]
fn parse_lone_carriage_return_is_comment() {
    let p = Program::new("test.bf".to_string(), "+\r-");
    let ins = p.instructions();
    assert_eq!(ins.len(), 3);
    assert_eq!(ins[0], Instruction::IncrementByte(1, 1));
    assert_eq!(ins[1], Instruction::Comment(1, 2, '\r'));
    assert_eq!(ins[2], Instruction::DecrementByte(1, 3));
}

#[test]
fn validate_accepts_nested_brackets() {
    let p = Program::new("test.bf".to_string(), "[[]]");
    assert!(p.validate().is_ok());
}

#[test]
fn validate_accepts_empty_program() {
    let p = Program::new("test.bf".to_string(), "");
    assert!(p.validate().is_ok());
}

#[test]
fn validate_rejects_extra_close_bracket() {
    let p = Program::new("test.bf".to_string(), "[]]");
    let err = p.validate().err().unwrap();
    assert_eq!(err, VMError::BracketMismatch { open: false, line: 1, column: 3 });
    assert_eq!(err.message(), "Extra close bracket at line 1 character 3.");
}

#[test]
fn validate_rejects_extra_open_bracket() {
    let p = Program::new("test.bf".to_string(), "[[");
    let err = p.validate().err().unwrap();
    // The innermost unmatched opening bracket is reported.
    assert_eq!(err, VMError::BracketMismatch { open: true, line: 1, column: 2 });
    assert_eq!(err.message(), "Extra open bracket at line 1 character 2.");
}

#[test]
fn validate_reports_position_across_lines() {
    let p = Program::new("test.bf".to_string(), "+\n ]");
    let err = p.validate().err().unwrap();
    assert_eq!(err, VMError::BracketMismatch { open: false, line: 2, column: 2 });
    assert_eq!(err.message(), "Extra close bracket at line 2 character 2.");
}

#[test]
fn code_text_drops_comments() {
    let p = Program::new("test.bf".to_string(), "> hi <\n[+-.,]");
    assert_eq!(p.code_text(), "><[+-.,]");
}

#[test]
fn source_file_hands_back_the_name() {
    let p = Program::new("test.bf".to_string(), "+");
    assert_eq!(p.source_file(), "test.bf");
}
