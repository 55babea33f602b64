use bft::InputStream;
use bft::OutputStream;
use bft::Program;
use bft::VMError;
use bft::VirtualMachine;

fn run_source(source: &str, input_bytes: Vec<u8>) -> (VirtualMachine, OutputStream, Result<bool, VMError>) {
    let program = Program::new("test.bf".to_string(), source);
    program.validate().expect("program must be balanced");
    let mut vm = VirtualMachine::new(0, false, program);
    let mut input = InputStream::new(input_bytes);
    let mut output = OutputStream::new();
    let r = vm.interpret(&mut input, &mut output, 1_000_000);
    (vm, output, r)
}

#[test]
fn two_increments_output_two() {
    // Source "++." puts 2 in the first cell and writes it out, whatever the
    // input holds.
    let (_, output, r) = run_source("++.", vec![9, 9, 9]);
    assert_eq!(r, Ok(true));
    assert_eq!(output.bytes, vec![2]);

    let (_, output, r) = run_source("++.", Vec::new());
    assert_eq!(r, Ok(true));
    assert_eq!(output.bytes, vec![2]);
}

#[test]
fn echo_one_byte() {
    // Source ",." copies one input byte to the output.
    let (_, output, r) = run_source(",.", vec![65]);
    assert_eq!(r, Ok(true));
    assert_eq!(output.bytes, vec![65]);
}

#[test]
fn loop_clears_the_cell() {
    // Source "+[-]" terminates and leaves the cell under the head at zero.
    let (vm, output, r) = run_source("+[-]", Vec::new());
    assert_eq!(r, Ok(true));
    assert_eq!(vm.head, 0);
    assert_eq!(vm.get_cells()[0], 0);
    assert!(output.bytes.is_empty());
}

#[test]
fn loop_start_with_zero_cell_skips_the_loop() {
    // The cell under the head is zero, so the whole loop body is skipped:
    // nothing is written and the tape stays zero.
    let (vm, output, r) = run_source("[+.]", Vec::new());
    assert_eq!(r, Ok(true));
    assert!(output.bytes.is_empty());
    assert_eq!(vm.get_cells()[0], 0);
}

#[test]
fn comments_do_not_execute() {
    let (vm, output, r) = run_source("say + and + again", Vec::new());
    assert_eq!(r, Ok(true));
    assert_eq!(vm.get_cells()[0], 2);
    assert!(output.bytes.is_empty());
}

#[test]
fn reinvoking_interpret_is_rejected() {
    // A machine that completed once refuses to run again, with the tape
    // left exactly as the first run left it.
    let program = Program::new("test.bf".to_string(), "++.");
    program.validate().expect("program must be balanced");
    let mut vm = VirtualMachine::new(3, false, program);
    let mut input = InputStream::new(Vec::new());
    let mut output = OutputStream::new();
    assert_eq!(vm.interpret(&mut input, &mut output, 1_000_000), Ok(true));
    let cells_after_first_run = vm.get_cells().to_vec();

    let r = vm.interpret(&mut input, &mut output, 1_000_000);
    assert_eq!(r, Err(VMError::AlreadyExecuted));
    assert_eq!(
        r.err().unwrap().message(),
        "The machine has already executed its program."
    );
    assert_eq!(vm.get_cells(), &cells_after_first_run[..]);
    assert_eq!(output.bytes, vec![2]);
}

#[test]
fn input_instruction_on_empty_source_fails() {
    let (vm, output, r) = run_source(",.", Vec::new());
    assert_eq!(r, Err(VMError::ReadError));
    assert!(output.bytes.is_empty());
    assert_eq!(vm.get_cells()[0], 0);
}

#[test]
fn move_past_fixed_tape_end_fails() {
    let program = Program::new("test.bf".to_string(), ">>>");
    program.validate().expect("program must be balanced");
    let mut vm = VirtualMachine::new(3, false, program);
    let mut input = InputStream::new(Vec::new());
    let mut output = OutputStream::new();
    let r = vm.interpret(&mut input, &mut output, 1_000_000);
    assert_eq!(r, Err(VMError::TapeBounds { at_start: false }));
    // The failing instruction mutated nothing: the head stands where the
    // last successful move left it.
    assert_eq!(vm.head, 2);
}

#[test]
fn extensible_tape_grows_during_a_run() {
    let program = Program::new("test.bf".to_string(), ">>>+.");
    program.validate().expect("program must be balanced");
    let mut vm = VirtualMachine::new(1, true, program);
    let mut input = InputStream::new(Vec::new());
    let mut output = OutputStream::new();
    let r = vm.interpret(&mut input, &mut output, 1_000_000);
    assert_eq!(r, Ok(true));
    assert_eq!(vm.get_cells().len(), 4);
    assert_eq!(output.bytes, vec![1]);
}

#[test]
fn exhausted_budget_can_be_resumed() {
    let program = Program::new("test.bf".to_string(), "+++");
    program.validate().expect("program must be balanced");
    let mut vm = VirtualMachine::new(1, false, program);
    let mut input = InputStream::new(Vec::new());
    let mut output = OutputStream::new();
    assert_eq!(vm.interpret(&mut input, &mut output, 1), Ok(false));
    assert_eq!(vm.get_cells()[0], 1);
    assert_eq!(vm.interpret(&mut input, &mut output, 1_000_000), Ok(true));
    assert_eq!(vm.get_cells()[0], 3);
}

#[test]
fn wrapping_shows_through_execution() {
    // Decrementing a fresh cell wraps to 255; one more increment wraps back.
    let (vm, _, r) = run_source("-", Vec::new());
    assert_eq!(r, Ok(true));
    assert_eq!(vm.get_cells()[0], 255);

    let (vm, _, r) = run_source("-+", Vec::new());
    assert_eq!(r, Ok(true));
    assert_eq!(vm.get_cells()[0], 0);
}

#[test]
fn nested_loops_terminate() {
    // "++[>++[-]<-]" clears both counters through a nested loop.
    let (vm, _, r) = run_source("++[>++[-]<-]", Vec::new());
    assert_eq!(r, Ok(true));
    assert_eq!(vm.get_cells()[0], 0);
    assert_eq!(vm.get_cells()[1], 0);
}
