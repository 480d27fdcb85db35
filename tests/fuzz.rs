use radius::fuzz::{corpus_file_name, is_branch_type, FuzzTracker};
use radius::memory::Memory;
use radius::processor::Processor;
use radius::registers::{Register, Registers};
use radius::state::State;
use radius::value::Value;

fn state() -> State {
    let regs = Registers {
        entries: vec![Register { name: b"r0".to_vec(), root: 0, offset: 0, width: 64 }],
        values: vec![Value::Concrete(0, 0)],
        pc: 0,
        sn: 0,
    };
    State::new(regs, Memory::new(false), false)
}

fn r0_after(esil: &str) -> u64 {
    let p = Processor::new(false, false, false, false, false, false);
    let mut s = state();
    p.parse_expression(&mut s, esil.as_bytes()).unwrap();
    match s.registers.get_value(0) {
        Value::Concrete(c, _) => c,
        Value::Symbolic(_, _) => panic!("symbolic"),
    }
}

#[test]
fn corpus_names_are_zero_padded() {
    assert_eq!(corpus_file_name(b"in", 0), b"in0000".to_vec());
    assert_eq!(corpus_file_name(b"in", 7), b"in0007".to_vec());
    assert_eq!(corpus_file_name(b"in", 1234), b"in1234".to_vec());
    assert_eq!(corpus_file_name(b"x", 123456), b"x123456".to_vec());
}

#[test]
fn branch_kinds() {
    assert!(is_branch_type(1));
    assert!(is_branch_type(4));
    assert!(is_branch_type(0x81));
    assert!(!is_branch_type(3));
    assert!(!is_branch_type(5));
}

#[test]
fn tracker_dedupes_solutions() {
    let mut t = FuzzTracker::new(2);
    assert!(t.visit(0x10));
    assert!(!t.visit(0x10));
    assert!(t.visit(0x20));
    assert_eq!(t.record(0, vec![0x41, 0, 0, 0]), Some(0));
    assert_eq!(t.record(0, vec![0x41, 0, 0, 0]), None);
    assert_eq!(t.record(1, vec![0x41, 0, 0, 0]), None);
    assert_eq!(t.record(0, vec![0x41, 0, 0, 0x10]), Some(1));
    assert_eq!(t.record(1, vec![0x42]), Some(0));
    assert_eq!(t.counts, vec![2, 1]);
    assert!(FuzzTracker::requeue(true, 3, 3));
    assert!(!FuzzTracker::requeue(true, 4, 3));
    assert!(!FuzzTracker::requeue(false, 0, 3));
}

#[test]
fn shifts_and_rotations() {
    assert_eq!(r0_after("4,0x8000000000000000,>>>>,r0,="), 0xf800000000000000);
    assert_eq!(r0_after("4,0x4000000000000000,>>>>,r0,="), 0x0400000000000000);
    assert_eq!(r0_after("70,0x8000000000000000,>>>>,r0,="), u64::MAX);
    assert_eq!(r0_after("8,0x1122334455667788,<<<,r0,="), 0x2233445566778811);
    assert_eq!(r0_after("8,0x1122334455667788,>>>,r0,="), 0x8811223344556677);
    assert_eq!(r0_after("64,0x1122334455667788,>>>,r0,="), 0x1122334455667788);
    assert_eq!(r0_after("3,0x10,r0,=,r0,>>=,r0,r0,="), 2);
}
