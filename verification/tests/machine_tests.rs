use bft::CellKind;
use bft::InputStream;
use bft::OutputStream;
use bft::Program;
use bft::VMError;
use bft::VirtualMachine;

fn empty_program() -> Program {
    Program::new("test.bf".to_string(), "")
}

#[test]
fn take_input_do_output() {
    let mut vm = VirtualMachine::new(3, false, empty_program());

    let values: Vec<u8> = vec![42, 2, 1];
    let mut buff = InputStream::new(values);
    let res = vm.input(&mut buff);
    assert_eq!(res.ok(), Some(1));

    {
        let cells = vm.get_cells();
        assert_eq!(cells[0], 42);
    }

    let mut out_buffer = OutputStream::new();
    let res = vm.output(&mut out_buffer);
    assert_eq!(res.ok(), Some(2));
    let o = out_buffer.bytes[0];
    assert_eq!(o, 42);
}

#[test]
fn check_valid_left_right_move() {
    let mut vm = VirtualMachine::new(3, false, empty_program());
    let _ = vm.move_head_right();
    let _ = vm.move_head_right();
    let _ = vm.move_head_left();
    let _ = vm.move_head_left();
}

#[test]
fn check_invalid_right_move() {
    let mut vm = VirtualMachine::new(3, false, empty_program());
    let _ = vm.move_head_right();
    let _ = vm.move_head_right();
    let _ = vm.move_head_right();
    let res = vm.move_head_right().err().unwrap();
    assert_eq!(res.message(), "Already at the end of the tape.");
}

#[test]
fn check_invalid_left_move() {
    let mut vm = VirtualMachine::new(3, false, empty_program());
    let res = vm.move_head_left().err().unwrap();
    assert_eq!(res.message(), "Already at the beginning of the tape.");
}

#[test]
fn do_u8_increment_big() {
    let mut num = 255 as u8;
    num.wrapping_increment();
    assert_eq!(num, 0);
}

#[test]
fn do_u8_increment_small() {
    let mut num = 253 as u8;
    num.wrapping_increment();
    assert_eq!(num, 254);
}

#[test]
fn do_u8_derement_big() {
    let mut num = 0 as u8;
    num.wrapping_decrement();
    assert_eq!(num, 255);
}

#[test]
fn do_u8_decrement_small() {
    let mut num = 253 as u8;
    num.wrapping_decrement();
    assert_eq!(num, 252);
}

#[test]
fn head_movement_is_bounds_checked() {
    // A non-extensible 3-cell tape: the head walks right until the last
    // index, one more step fails, and a left move from index 0 fails too.
    let mut vm = VirtualMachine::new(3, false, empty_program());
    assert!(vm.move_head_right().is_ok());
    assert!(vm.move_head_right().is_ok());
    assert_eq!(vm.head, 2);
    let res = vm.move_head_right();
    assert_eq!(res, Err(VMError::TapeBounds { at_start: false }));
    assert_eq!(vm.head, 2);

    let mut vm = VirtualMachine::new(3, false, empty_program());
    let res = vm.move_head_left();
    assert_eq!(res, Err(VMError::TapeBounds { at_start: true }));
    assert_eq!(vm.head, 0);
}

#[test]
fn growable_tape_gains_a_cell() {
    assert!(VirtualMachine::new(1, true, empty_program()).can_grow());
    assert!(!VirtualMachine::new(1, false, empty_program()).can_grow());

    let mut vm = VirtualMachine::new(1, true, empty_program());
    assert!(vm.move_head_right().is_ok());
    assert_eq!(vm.head, 1);
    assert_eq!(vm.get_cells().len(), 2);
    assert_eq!(vm.get_cells()[1], 0);
}

#[test]
fn default_capacity_is_30000() {
    let vm = VirtualMachine::new(0, false, empty_program());
    assert_eq!(vm.get_cells().len(), 30000);
    assert!(vm.get_cells().iter().all(|&b| b == 0));
}

#[test]
fn input_on_exhausted_source_fails() {
    let mut vm = VirtualMachine::new(3, false, empty_program());
    let mut buff = InputStream::new(Vec::new());
    let res = vm.input(&mut buff);
    assert_eq!(res, Err(VMError::ReadError));
    assert_eq!(res.err().unwrap().message(), "Ran out of input.");
    assert_eq!(vm.get_cells(), &[0, 0, 0]);
}
