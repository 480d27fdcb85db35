use radius::memory::{Memory, Segment, PERM_EXEC, PERM_READ};
use radius::operations::Operations;
use radius::processor::{CallConv, Instruction, InstructionStatus, Processor, Word};
use radius::registers::{Register, Registers};
use radius::state::{EsilError, ExecMode, State, StateStatus, StackItem};
use radius::value::{conditional, evaluate, BinOp, Term, UnOp, Value};
use std::collections::HashMap;

const R0: usize = 0;
const R1: usize = 1;
const PC: usize = 2;
const SN: usize = 3;
const ZF: usize = 4;
const AL: usize = 5;

fn reg(name: &str, root: usize, offset: u64, width: u64) -> Register {
    Register { name: name.as_bytes().to_vec(), root, offset, width }
}

fn registers() -> Registers {
    Registers {
        entries: vec![
            reg("r0", 0, 0, 64),
            reg("r1", 1, 0, 64),
            reg("pc", 2, 0, 64),
            reg("sn", 3, 0, 64),
            reg("zf", 4, 0, 1),
            reg("al", 0, 0, 8),
        ],
        values: (0..5).map(|_| Value::Concrete(0, 0)).collect(),
        pc: PC,
        sn: SN,
    }
}

fn new_state() -> State {
    State::new(registers(), Memory::new(false), false)
}

fn processor() -> Processor {
    Processor::new(false, false, false, true, false, false)
}

fn instr(offset: u64, size: u64, esil: &str, type_num: i64, jump: u64, fail: u64) -> Instruction {
    Instruction {
        offset,
        size,
        jump,
        fail,
        type_num,
        esil: esil.as_bytes().to_vec(),
        disasm: Vec::new(),
        bytes: vec![0x90; size as usize],
    }
}

fn word(v: &Value) -> u64 {
    match v {
        Value::Concrete(c, _) => *c,
        Value::Symbolic(_, _) => panic!("symbolic value {:?}", v),
    }
}

fn reg_word(s: &State, index: usize) -> u64 {
    word(&s.registers.get_value(index))
}

fn env(pairs: &[(u64, u64)]) -> HashMap<u64, u64> {
    pairs.iter().cloned().collect()
}

fn value_under(v: &Value, e: &HashMap<u64, u64>) -> u64 {
    match v {
        Value::Concrete(c, _) => *c,
        Value::Symbolic(t, _) => evaluate(t, e),
    }
}

fn run_esil(p: &Processor, s: &mut State, esil: &str) -> Result<(), EsilError> {
    p.parse_expression(s, esil.as_bytes())
}

#[test]
fn literal_forms() {
    let p = processor();
    let lit = |w: &str| match p.get_literal(w.as_bytes()) {
        Some(Word::Literal(Value::Concrete(v, 0))) => Some(v),
        Some(other) => panic!("unexpected {:?}", other),
        None => None,
    };
    assert_eq!(lit("12"), Some(12));
    assert_eq!(lit("0x10"), Some(16));
    assert_eq!(lit("0xDEADbeef"), Some(0xdeadbeef));
    assert_eq!(lit("-1"), Some(u64::MAX));
    assert_eq!(lit("-9223372036854775808"), Some(0x8000_0000_0000_0000));
    assert_eq!(lit("18446744073709551615"), Some(u64::MAX));
    assert_eq!(lit("18446744073709551616"), None);
    assert_eq!(lit("0x"), None);
    assert_eq!(lit("0xzz"), None);
    assert_eq!(lit("-"), None);
    assert_eq!(lit("rax"), None);
    assert_eq!(lit("+5"), Some(5));
    assert_eq!(lit("0x+10"), Some(16));
    assert_eq!(lit("+"), None);
    assert_eq!(lit("-+5"), None);
}

#[test]
fn staged_targets_drop_only_zeros() {
    let p = processor();
    let mut s = new_state();
    let i = instr(0, 4, "", 0, 0, 8);
    p.execute(&mut s, &i, &InstructionStatus::Plain, &[]).unwrap();
    assert_eq!(s.esil.pcs, vec![8]);
    let i = instr(0, 4, "", 0, 0x10, 8);
    p.execute(&mut s, &i, &InstructionStatus::Plain, &[]).unwrap();
    assert_eq!(s.esil.pcs, vec![0x10, 8]);
    let i = instr(0, 4, "", 0, 0, 0);
    p.execute(&mut s, &i, &InstructionStatus::Plain, &[]).unwrap();
    assert!(s.esil.pcs.is_empty());
}

#[test]
fn operator_table() {
    let p = processor();
    let op = |w: &str| match p.get_operator(w.as_bytes()) {
        Some(Word::Operator(o)) => Some(o),
        Some(other) => panic!("unexpected {:?}", other),
        None => None,
    };
    assert_eq!(op("+"), Some(Operations::Add));
    assert_eq!(op("=="), Some(Operations::Compare));
    assert_eq!(op(":="), Some(Operations::WeakEqual));
    assert_eq!(op("?{"), Some(Operations::If));
    assert_eq!(op("}{"), Some(Operations::Else));
    assert_eq!(op("}"), Some(Operations::EndIf));
    assert_eq!(op("[4]"), Some(Operations::Peek(4)));
    assert_eq!(op("=[8]"), Some(Operations::Poke(8)));
    assert_eq!(op("$z"), Some(Operations::Zero));
    assert_eq!(op("GOTO"), Some(Operations::GoTo));
    assert_eq!(op("BREAK"), Some(Operations::Break));
    assert_eq!(op("[3]"), None);
    assert_eq!(op("+="), None);
}

#[test]
fn tokenize_expands_fused_forms() {
    let p = processor();
    let mut s = new_state();
    let toks = p.tokenize(&mut s, b"1,r0,+=");
    assert_eq!(toks.len(), 5);
    assert!(matches!(toks[0], Word::Literal(Value::Concrete(1, 0))));
    assert!(matches!(toks[1], Word::Register(R0)));
    assert!(matches!(toks[2], Word::Operator(Operations::Add)));
    assert!(matches!(toks[3], Word::Register(R0)));
    assert!(matches!(toks[4], Word::Operator(Operations::Equal)));

    let toks = p.tokenize(&mut s, b"1,r1,+=[4]");
    assert_eq!(toks.len(), 7);
    assert!(matches!(toks[2], Word::Operator(Operations::AddressStore)));
    assert!(matches!(toks[3], Word::Operator(Operations::Peek(4))));
    assert!(matches!(toks[4], Word::Operator(Operations::Add)));
    assert!(matches!(toks[5], Word::Operator(Operations::AddressRestore)));
    assert!(matches!(toks[6], Word::Operator(Operations::Poke(4))));

    let toks = p.tokenize(&mut s, b"bogus,,al");
    assert_eq!(toks.len(), 3);
    assert!(matches!(&toks[0], Word::Unknown(t) if t.as_slice() == b"bogus"));
    assert!(matches!(&toks[1], Word::Unknown(t) if t.is_empty()));
    assert!(matches!(toks[2], Word::Register(AL)));
}

#[test]
fn arithmetic_and_subregisters() {
    let p = processor();
    let mut s = new_state();
    run_esil(&p, &mut s, "5,r0,=,3,r0,+=").unwrap();
    assert_eq!(reg_word(&s, R0), 8);
    run_esil(&p, &mut s, "0x1234,r0,=,0xff,al,=").unwrap();
    assert_eq!(reg_word(&s, R0), 0x12ff);
    assert_eq!(reg_word(&s, AL), 0xff);
    run_esil(&p, &mut s, "3,10,-,r1,=").unwrap();
    assert_eq!(reg_word(&s, R1), 7);
    run_esil(&p, &mut s, "0,7,/,r1,=").unwrap();
    assert_eq!(reg_word(&s, R1), u64::MAX);
    run_esil(&p, &mut s, "3,1,<<,r1,=").unwrap();
    assert_eq!(reg_word(&s, R1), 8);
    run_esil(&p, &mut s, "10,3,<,r1,=").unwrap();
    assert_eq!(reg_word(&s, R1), 1);
}

#[test]
fn memory_read_modify_write() {
    let p = processor();
    let mut s = new_state();
    run_esil(&p, &mut s, "0x11223344,0x100,=[4],5,0x100,+=[4],0x100,[4],r0,=").unwrap();
    assert_eq!(reg_word(&s, R0), 0x11223349);
    assert_eq!(word(&s.memory.read_byte(0x100)), 0x49);
    assert_eq!(word(&s.memory.read_byte(0x103)), 0x11);
}

#[test]
fn flags_after_compare() {
    let p = processor();
    let mut s = new_state();
    run_esil(&p, &mut s, "4,4,==,$z,zf,:=").unwrap();
    assert_eq!(reg_word(&s, ZF), 1);
    run_esil(&p, &mut s, "4,5,==,$z,zf,:=").unwrap();
    assert_eq!(reg_word(&s, ZF), 0);
    run_esil(&p, &mut s, "0xff,r0,=,$p,r1,=").unwrap();
    assert_eq!(reg_word(&s, R1), 1);
    run_esil(&p, &mut s, "0x7,r0,=,$p,r1,=").unwrap();
    assert_eq!(reg_word(&s, R1), 0);
}

#[test]
fn concrete_conditionals_and_goto() {
    let p = processor();
    let mut s = new_state();
    run_esil(&p, &mut s, "1,?{,7,r0,=,}{,9,r0,=,}").unwrap();
    assert_eq!(reg_word(&s, R0), 7);
    run_esil(&p, &mut s, "0,?{,7,r0,=,}{,9,r0,=,}").unwrap();
    assert_eq!(reg_word(&s, R0), 9);
    assert_eq!(s.esil.mode, ExecMode::Uncon);
    // count r1 up to 3 with a backward jump
    run_esil(&p, &mut s, "0,r1,=,1,r1,+=,3,r1,<,?{,3,GOTO,}").unwrap();
    assert_eq!(reg_word(&s, R1), 3);
    run_esil(&p, &mut s, "1,r0,=,BREAK,2,r0,=").unwrap();
    assert_eq!(reg_word(&s, R0), 1);
}

#[test]
fn evaluation_errors() {
    let p = processor();
    let mut s = new_state();
    assert_eq!(run_esil(&p, &mut s, "+"), Err(EsilError::StackUnderflow));
    assert_eq!(run_esil(&p, &mut s, "1,2,="), Err(EsilError::NotARegister));
    assert_eq!(run_esil(&p, &mut s, "0xffffffffffffffff,[8]"), Err(EsilError::AddressOverflow));
    assert_eq!(run_esil(&p, &mut s, "0,GOTO"), Err(EsilError::BadJump));
    let mut t = new_state();
    t.registers.set_value(R1, Value::Symbolic(Term::Sym(0, 64), 0));
    assert_eq!(run_esil(&p, &mut t, "r1,[1]"), Err(EsilError::SymbolicAddress));
    let mut u = new_state();
    u.registers.set_value(R1, Value::Symbolic(Term::Sym(0, 64), 0));
    assert_eq!(run_esil(&p, &mut u, "r1,?{,0,GOTO,}"), Err(EsilError::SymbolicControl));
}

#[test]
fn unknown_word_pushes_zero() {
    let p = processor();
    let mut s = new_state();
    run_esil(&p, &mut s, "5,r0,=,what,r0,=").unwrap();
    assert_eq!(reg_word(&s, R0), 0);
}

#[test]
fn symbolic_if_else_builds_ite() {
    let p = processor();
    let mut s = new_state();
    s.registers.set_value(R1, Value::Symbolic(Term::Sym(0, 8), 0));
    run_esil(&p, &mut s, "10,r1,<,?{,1,}{,2,},r0,=").unwrap();
    let r0 = s.registers.get_value(R0);
    assert!(!r0.is_concrete());
    assert_eq!(value_under(&r0, &env(&[(0, 5)])), 1);
    assert_eq!(value_under(&r0, &env(&[(0, 50)])), 2);
    assert_eq!(s.esil.mode, ExecMode::Uncon);
    assert!(s.condition.is_none());
}

#[test]
fn symbolic_branch_stores_are_conditional() {
    let p = processor();
    let mut s = new_state();
    s.registers.set_value(R1, Value::Symbolic(Term::Sym(0, 8), 0));
    run_esil(&p, &mut s, "7,r0,=,10,r1,<,?{,1,r0,=,0x55,0x40,=[1],}").unwrap();
    let r0 = s.registers.get_value(R0);
    assert_eq!(value_under(&r0, &env(&[(0, 5)])), 1);
    assert_eq!(value_under(&r0, &env(&[(0, 50)])), 7);
    let b = s.memory.read_byte(0x40);
    assert_eq!(value_under(&b, &env(&[(0, 5)])), 0x55);
    assert_eq!(value_under(&b, &env(&[(0, 50)])), 0);
}

#[test]
fn endif_stack_height_is_the_shorter_branch() {
    let mut s = new_state();
    s.stack.push(StackItem::StackValue(Value::Concrete(9, 0)));
    s.stack.push(StackItem::StackValue(Value::Symbolic(Term::Sym(0, 1), 0)));
    s.esil_if().unwrap();
    assert_eq!(s.esil.mode, ExecMode::If);
    assert_eq!(s.esil.temp1.len(), 1);
    s.stack.push(StackItem::StackValue(Value::Concrete(1, 0)));
    s.stack.push(StackItem::StackValue(Value::Concrete(2, 0)));
    s.esil_else();
    assert_eq!(s.stack.len(), 1);
    s.stack.push(StackItem::StackValue(Value::Concrete(3, 0)));
    s.esil_endif();
    // branches left 3 and 2 items: the two topmost pairs remain
    assert_eq!(s.stack.len(), 2);
    assert_eq!(s.esil.mode, ExecMode::Uncon);
    let top = match s.stack.pop().unwrap() {
        StackItem::StackValue(v) => v,
        StackItem::StackRegister(_) => panic!("register"),
    };
    assert_eq!(value_under(&top, &env(&[(0, 1)])), 2);
    assert_eq!(value_under(&top, &env(&[(0, 0)])), 3);
}

#[test]
fn pack_unpack_round_trip() {
    let m = Memory::new(false);
    let bytes: Vec<Value> = [0x9fu64, 0xef, 0xdc, 0xab].iter().map(|b| Value::Concrete(*b, 0)).collect();
    let packed = m.pack(&bytes);
    assert_eq!(word(&packed), 0xabdcef9f);
    let back = m.unpack(&packed, 4);
    let words: Vec<u64> = back.iter().map(word).collect();
    assert_eq!(words, vec![0x9f, 0xef, 0xdc, 0xab]);
}

#[test]
fn conditional_with_constant_condition() {
    let a = Value::Concrete(1, 0);
    let b = Value::Symbolic(Term::Sym(3, 64), 0);
    assert_eq!(word(&conditional(&Value::Concrete(1, 0), &a, &b)), 1);
    assert!(!conditional(&Value::Concrete(0, 0), &a, &b).is_concrete());
    let c = conditional(&Value::Symbolic(Term::Sym(1, 1), 0), &a, &b);
    assert_eq!(value_under(&c, &env(&[(1, 1), (3, 8)])), 1);
    assert_eq!(value_under(&c, &env(&[(1, 0), (3, 8)])), 8);
}

#[test]
fn term_evaluation() {
    let t = Term::Binary(
        BinOp::Add,
        Box::new(Term::Sym(0, 8)),
        Box::new(Term::Unary(UnOp::Not, Box::new(Term::Const(0)))),
    );
    assert_eq!(evaluate(&t, &env(&[(0, 0x1ff)])), 0xfe);
}

#[test]
fn fetch_caches_and_stays_put() {
    let mut p = processor();
    let mut s = new_state();
    assert!(p.needs_decode(&s, 0));
    p.fetch_instruction(&mut s, 0, vec![instr(0, 4, "1,r0,=", 0, 0, 0), instr(4, 2, "2,r0,=", 0, 0, 0)]);
    assert!(!p.needs_decode(&s, 0));
    assert!(!p.needs_decode(&s, 4));
    assert_eq!(p.instructions[&4].tokens.len(), 3);
    // a second fetch at a cached address changes nothing
    p.fetch_instruction(&mut s, 0, vec![instr(0, 4, "9,r0,=", 0, 0, 0)]);
    assert!(matches!(p.instructions[&0].tokens[0], Word::Literal(Value::Concrete(1, 0))));
}

#[test]
fn status_priority() {
    let mut p = processor();
    p.breakpoints.insert(8, true);
    p.avoidpoints.insert(8, true);
    p.avoidpoints.insert(12, true);
    p.sims.insert(12, Vec::new());
    p.hooks.insert(16, Vec::new());
    p.breakpoints.insert(16, true);
    assert_eq!(p.status_at(8), InstructionStatus::Break);
    assert_eq!(p.status_at(12), InstructionStatus::Avoid);
    assert_eq!(p.status_at(16), InstructionStatus::Hook);
    assert_eq!(p.status_at(20), InstructionStatus::Plain);
}

#[test]
fn self_modified_code_is_decoded_again() {
    let mut p = Processor::new(true, false, false, true, false, false);
    let mut s = new_state();
    s.memory.write_byte(0, Value::Concrete(0x90, 0));
    let mut a = instr(0, 1, "1,r0,=", 0, 0, 0);
    a.bytes = vec![0x90];
    p.fetch_instruction(&mut s, 0, vec![a]);
    assert!(!p.needs_decode(&s, 0));
    let out = p.step(s, Vec::new());
    let mut s = out.into_iter().next().unwrap();
    assert_eq!(reg_word(&s, R0), 1);
    s.memory.write_byte(0, Value::Concrete(0xcc, 0));
    s.registers.set_pc(Value::Concrete(0, 0));
    assert!(p.needs_decode(&s, 0));
    let mut b = instr(0, 1, "2,r0,=", 0, 0, 0);
    b.bytes = vec![0xcc];
    let out = p.step(s, vec![b]);
    assert_eq!(reg_word(&out[0], R0), 2);
}

#[test]
fn missing_instruction_deactivates() {
    let mut p = processor();
    let mut s = new_state();
    assert_eq!(p.execute_instruction(&mut s, 0, Vec::new()), Err(EsilError::NoInstruction));
    let out = p.step(new_state(), Vec::new());
    assert_eq!(out.len(), 1);
    assert_eq!(out[0].status, StateStatus::Inactive);
}

#[test]
fn optimizer_drops_dead_flag_stores() {
    let mut p = Processor::new(false, true, false, true, false, false);
    let mut s = new_state();
    p.fetch_instruction(
        &mut s,
        0,
        vec![
            instr(0, 4, "1,r0,+=,$z,zf,:=,NOP", 0, 0, 0),
            instr(4, 4, "2,r0,+=,$z,zf,:=", 0, 0, 0),
        ],
    );
    // the zero flag of the first is overwritten unread by the second
    assert_eq!(p.instructions[&0].tokens.len(), 5);
    assert_eq!(p.instructions[&4].tokens.len(), 8);
    p.fetch_instruction(&mut s, 0x10, vec![instr(0x10, 4, "1,r0,+=,$z,zf,:=", 0, 0, 0), instr(0x14, 4, "zf,r1,=,0,zf,:=", 0, 0, 0)]);
    // here the second reads it first
    assert_eq!(p.instructions[&0x10].tokens.len(), 8);
}

#[test]
fn fanout_constrains_symbolic_pc() {
    let mut s = new_state();
    let pc = Value::Symbolic(Term::Sym(0, 64), 0);
    s.registers.set_pc(pc.duplicate());
    let out = Processor::fanout(s, &pc, &vec![0x10, 0x20]);
    assert_eq!(out.len(), 2);
    for (st, want) in out.iter().zip([0x10u64, 0x20]) {
        assert_eq!(reg_word(st, PC), want);
        assert_eq!(st.assertions.len(), 1);
        assert_eq!(evaluate(&st.assertions[0], &env(&[(0, want)])), 1);
        assert_eq!(evaluate(&st.assertions[0], &env(&[(0, want + 1)])), 0);
    }
}

#[test]
fn call_and_return_track_backtrace() {
    let mut p = processor();
    p.ret_tokens = p.tokenize(&mut new_state(), b"0x4,pc,=");
    let mut s = new_state();
    p.fetch_instruction(&mut s, 0, vec![instr(0, 4, "0x100,pc,=", 3, 0x100, 0)]);
    p.fetch_instruction(&mut s, 0x100, vec![instr(0x100, 1, "0x4,pc,=", 5, 0, 0)]);
    let s = p.step(s, Vec::new()).pop().unwrap();
    assert_eq!(s.backtrace, vec![4]);
    assert_eq!(reg_word(&s, PC), 0x100);
    let s = p.step(s, Vec::new()).pop().unwrap();
    assert!(s.backtrace.is_empty());
    assert_eq!(reg_word(&s, PC), 4);
    assert_eq!(s.status, StateStatus::Active);
}

#[test]
fn return_with_empty_backtrace_stops() {
    let mut p = processor();
    let mut s = new_state();
    p.fetch_instruction(&mut s, 0, vec![instr(0, 1, "0x999,pc,=", 5, 0, 0)]);
    let out = p.step(s, Vec::new());
    assert_eq!(out[0].status, StateStatus::Break);
    assert_eq!(reg_word(&out[0], PC), 0);

    p.breakpoints.insert(0x50, true);
    let out = p.step(new_state(), Vec::new());
    assert_eq!(out[0].status, StateStatus::Inactive);
}

#[test]
fn sim_replaces_call() {
    let mut p = processor();
    p.ret_tokens = p.tokenize(&mut new_state(), b"0x4,pc,=");
    p.cc = CallConv { args: vec![R1], ret: R0 };
    let sim = p.tokenize(&mut new_state(), b"4");
    p.sims.insert(0x500, sim);
    let mut s = new_state();
    for i in 0..10u64 {
        s.memory.write_byte(0x2000 + i, Value::Symbolic(Term::Sym(i, 8), 0));
    }
    s.registers.set_value(R1, Value::Concrete(0x2000, 0));
    p.fetch_instruction(&mut s, 0, vec![instr(0, 4, "0x500,pc,=", 3, 0x500, 0)]);
    p.fetch_instruction(&mut s, 0x500, vec![instr(0x500, 1, "", 0, 0, 0)]);
    assert_eq!(p.instructions[&0x500].status, InstructionStatus::Sim);
    let s = p.step(s, Vec::new()).pop().unwrap();
    assert_eq!(s.backtrace.len(), 1);
    let s = p.step(s, Vec::new()).pop().unwrap();
    assert_eq!(reg_word(&s, R0), 4);
    assert!(s.backtrace.is_empty());
    assert_eq!(reg_word(&s, PC), 4);
    assert_eq!(s.memory.addresses().len(), 10);
}

#[test]
fn hook_can_skip_instruction() {
    let mut p = processor();
    let skip = p.tokenize(&mut new_state(), b"3,r1,=,0");
    p.hooks.insert(0, vec![skip]);
    let mut s = new_state();
    p.fetch_instruction(&mut s, 0, vec![instr(0, 4, "1,r0,=", 0, 0, 0)]);
    let s = p.step(s, Vec::new()).pop().unwrap();
    assert_eq!(reg_word(&s, R1), 3);
    assert_eq!(reg_word(&s, R0), 0);
    assert_eq!(reg_word(&s, PC), 4);
}

#[test]
fn syscall_runs_handler() {
    let mut p = processor();
    p.syscall_cc = CallConv { args: vec![R1], ret: R0 };
    let h = p.tokenize(&mut new_state(), b"1,+");
    p.syscalls.insert(60, h);
    let mut s = new_state();
    run_esil(&p, &mut s, "60,sn,=,41,r1,=,$").unwrap();
    assert_eq!(reg_word(&s, R0), 42);
}

#[test]
fn exec_permission_in_crash_mode() {
    let mut p = processor();
    let mut s = State::new(registers(), Memory::new(true), true);
    s.memory.segments.push(Segment { start: 0x1000, end: 0x2000, perms: PERM_READ | PERM_EXEC });
    p.fetch_instruction(&mut s, 0, vec![instr(0, 4, "1,r0,=", 0, 0, 0)]);
    let out = p.step(s, Vec::new());
    assert_eq!(out[0].status, StateStatus::Inactive);
    assert_eq!(reg_word(&out[0], R0), 0);
}

/// A 4-byte symbol at 0x1000 is xored with 0xdeadbeef and compared with
/// 0x41424344; the unequal branch is avoided.
#[test]
fn xor_equality_gate() {
    let mut p = processor();
    p.avoidpoints.insert(0x200, true);
    p.breakpoints.insert(0x8, true);
    let mut s = new_state();
    s.memory.write_value(0x1000, &Value::Symbolic(Term::Sym(0, 32), 0), 4);
    p.fetch_instruction(
        &mut s,
        0,
        vec![instr(0, 8, "0xdeadbeef,0x1000,[4],^,0x41424344,==,$z,zf,:=,zf,!,?{,0x200,pc,=,}", 1, 0x200, 0x8)],
    );
    p.fetch_instruction(&mut s, 0x8, vec![instr(0x8, 1, "", 0, 0, 0)]);
    p.fetch_instruction(&mut s, 0x200, vec![instr(0x200, 1, "", 0, 0, 0)]);
    let out = p.run(s, false, 100);
    assert_eq!(out.len(), 1);
    let end = &out[0];
    assert_eq!(end.status, StateStatus::Break);
    assert_eq!(reg_word(end, PC), 0x8);
    let solution: u64 = 0xdeadbeef ^ 0x41424344;
    assert_eq!((solution as u32).to_be_bytes(), [0x9f, 0xef, 0xfd, 0xab]);
    for a in &end.assertions {
        assert_eq!(evaluate(a, &env(&[(0, solution)])), 1);
    }
    assert!(end.assertions.iter().any(|a| evaluate(a, &env(&[(0, solution ^ 1)])) == 0));
}

/// A symbolic byte picks one of two stores; the paths meet at a merge point.
#[test]
fn branch_merge() {
    let mut p = processor();
    p.mergepoints.insert(0x20, true);
    p.breakpoints.insert(0x24, true);
    let mut s = new_state();
    s.registers.set_value(R1, Value::Symbolic(Term::Sym(0, 8), 0));
    p.fetch_instruction(&mut s, 0, vec![instr(0, 4, "10,r1,<,?{,0x10,pc,=,}", 1, 0x10, 0x4)]);
    p.fetch_instruction(&mut s, 4, vec![instr(4, 4, "2,r0,=,0x20,pc,=", 0, 0, 0)]);
    p.fetch_instruction(&mut s, 0x10, vec![instr(0x10, 4, "1,r0,=,0x20,pc,=", 0, 0, 0)]);
    p.fetch_instruction(&mut s, 0x20, vec![instr(0x20, 4, "", 0, 0, 0)]);
    p.fetch_instruction(&mut s, 0x24, vec![instr(0x24, 4, "", 0, 0, 0)]);
    let out = p.run(s, false, 100);
    assert_eq!(out.len(), 1);
    let end = &out[0];
    assert_eq!(end.status, StateStatus::Break);
    let r0 = end.registers.get_value(R0);
    assert_eq!(value_under(&r0, &env(&[(0, 5)])), 1);
    assert_eq!(value_under(&r0, &env(&[(0, 50)])), 2);
    assert!(p.merges.is_empty());
}

#[test]
fn run_hands_back_undecoded_state() {
    let mut p = processor();
    let s = new_state();
    let out = p.run(s, false, 10);
    assert_eq!(out.len(), 1);
    assert_eq!(out[0].status, StateStatus::Active);
    assert!(p.needs_decode(&out[0], 0));
}
