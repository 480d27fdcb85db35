use radius::fuzz::{is_branch_type, FuzzTracker};
use radius::memory::Memory;
use radius::processor::{Instruction, Processor};
use radius::registers::{Register, Registers};
use radius::state::{State, StateStatus};
use radius::value::{evaluate, Term, Value};
use std::collections::{HashMap, VecDeque};

/// The first candidate value of the single symbol that meets every path
/// constraint, standing in for a solver over a small search space.
fn solve(assertions: &[Term], candidates: &[u64]) -> Option<u64> {
    candidates.iter().cloned().find(|v| {
        let env: HashMap<u64, u64> = [(0u64, *v)].into_iter().collect();
        assertions.iter().all(|a| evaluate(a, &env) != 0)
    })
}

fn state_with_symbol(bits: u64) -> State {
    let regs = Registers {
        entries: vec![
            Register { name: b"r0".to_vec(), root: 0, offset: 0, width: 64 },
            Register { name: b"pc".to_vec(), root: 1, offset: 0, width: 64 },
            Register { name: b"zf".to_vec(), root: 2, offset: 0, width: 1 },
        ],
        values: (0..3).map(|_| Value::Concrete(0, 0)).collect(),
        pc: 1,
        sn: 0,
    };
    let mut s = State::new(regs, Memory::new(false), false);
    s.memory.write_value(0x1000, &Value::Symbolic(Term::Sym(0, bits), 0), bits / 8);
    s
}

fn instr(offset: u64, size: u64, esil: &str, type_num: i64, jump: u64, fail: u64) -> Instruction {
    Instruction {
        offset,
        size,
        jump,
        fail,
        type_num,
        esil: esil.as_bytes().to_vec(),
        disasm: Vec::new(),
        bytes: vec![0; size as usize],
    }
}

/// Branches on in[0] == 0x41 and in[3] <= 0x10 yield distinct inputs.
#[test]
fn fuzz_corpus() {
    let mut p = Processor::new(false, false, false, true, false, false);
    let mut s = state_with_symbol(64);
    let code = vec![
        instr(0x0, 8, "0x41,0x1000,[1],==,$z,zf,:=,zf,?{,0x10,pc,=,}", 1, 0x10, 0x8),
        instr(0x8, 8, "0x30,pc,=", 0, 0, 0),
        instr(0x10, 8, "0x10,0x1003,[1],<=,?{,0x20,pc,=,}", 1, 0x20, 0x18),
        instr(0x18, 8, "0x30,pc,=", 0, 0, 0),
        instr(0x20, 8, "1,r0,+=,3,r0,<,?{,0x20,pc,=,}", 1, 0x20, 0x28),
        instr(0x28, 8, "0x30,pc,=", 0, 0, 0),
        instr(0x30, 1, "", 5, 0, 0),
    ];
    for i in code {
        let at = i.offset;
        p.fetch_instruction(&mut s, at, vec![i]);
    }
    let mut candidates: Vec<u64> = Vec::new();
    for b0 in [0u64, 0x41] {
        for b3 in [0u64, 0x10, 0x11, 0xff] {
            candidates.push(b0 | (b3 << 24));
        }
    }
    let mut tracker = FuzzTracker::new(1);
    let mut states: VecDeque<State> = VecDeque::new();
    states.push_back(s);
    let mut rounds = 0;
    while let Some(s) = states.pop_front() {
        rounds += 1;
        assert!(rounds < 1000);
        let queued = states.len() + 1;
        let pc = s.registers.get_pc().as_u64().unwrap();
        let type_num = p.instructions[&pc].instruction.type_num;
        for n in p.step(s, Vec::new()) {
            let active = n.status == StateStatus::Active;
            let at = n.registers.get_pc().as_u64().unwrap_or(0);
            if !tracker.visit(at) {
                if FuzzTracker::requeue(active, queued, 16) {
                    states.push_back(n);
                }
                continue;
            }
            if is_branch_type(type_num) {
                if let Some(v) = solve(&n.assertions, &candidates) {
                    tracker.record(0, v.to_le_bytes().to_vec());
                }
            }
            if active {
                states.push_front(n);
            }
        }
    }
    assert!(tracker.solutions.len() >= 2);
    assert!(tracker.solutions.iter().any(|b| b[0] == 0x41 && b[3] <= 0x10));
    assert!(tracker.solutions.iter().any(|b| b[0] != 0x41));
}
