use vstd::prelude::*;
use std::collections::HashMap;
use crate::operations::Operations;
use crate::state::State;
use crate::value::Value;

verus! {

broadcast use vstd::std_specs::hash::group_hash_axioms;

/// Instructions decoded at once on a cache miss.
pub const INSTR_NUM: u64 = 64;
/// Instruction kinds, as the low bits of `type_num`.
pub const CJMP_TYPE: i64 = 1;
pub const CALL_TYPE: i64 = 3;
pub const CCALL_TYPE: i64 = 4;
pub const RETN_TYPE: i64 = 5;

/// A token of an instruction's expression.
#[derive(Debug)]
pub enum Word {
    Literal(Value),
    Register(usize),
    Operator(Operations),
    Unknown(Vec<u8>),
}

/// How a decoded instruction is executed.
#[derive(Debug, Clone, Copy, PartialEq, Eq, Structural)]
pub enum InstructionStatus {
    Plain,
    Hook,
    Sim,
    Merge,
    Avoid,
    Break,
}

/// An instruction as the disassembler describes it.
#[derive(Debug)]
pub struct Instruction {
    pub offset: u64,
    pub size: u64,
    pub jump: u64,
    pub fail: u64,
    pub type_num: i64,
    pub esil: Vec<u8>,
    pub disasm: Vec<u8>,
    pub bytes: Vec<u8>,
}

/// A cached instruction with its tokens and status.
#[derive(Debug)]
pub struct InstructionEntry {
    pub instruction: Instruction,
    pub tokens: Vec<Word>,
    pub status: InstructionStatus,
}

/// A calling convention: the registers that hold the arguments and the one
/// that receives the result.
pub struct CallConv {
    pub args: Vec<usize>,
    pub ret: usize,
}

/// A state parked at a merge point.
pub struct MergeSlot {
    pub pc: u64,
    pub state: State,
}

/// The instruction cache, the registries of hooks, simulations and
/// breakpoints, and the pending merges.
pub struct Processor {
    pub instructions: HashMap<u64, InstructionEntry>,
    /// expressions run before the instruction at an address; one that
    /// leaves a concrete zero on top of the stack skips the instruction
    pub hooks: HashMap<u64, Vec<Vec<Word>>>,
    /// expressions run in place of the function at an address, with its
    /// arguments on the stack; the top of the stack is its result
    pub sims: HashMap<u64, Vec<Word>>,
    pub traps: HashMap<u64, Vec<Word>>,
    pub syscalls: HashMap<u64, Vec<Word>>,
    pub breakpoints: HashMap<u64, bool>,
    pub mergepoints: HashMap<u64, bool>,
    pub avoidpoints: HashMap<u64, bool>,
    pub merges: Vec<MergeSlot>,
    pub cc: CallConv,
    pub syscall_cc: CallConv,
    /// the expression of a return instruction
    pub ret_tokens: Vec<Word>,
    pub selfmodify: bool,
    pub optimized: bool,
    pub debug: bool,
    pub lazy: bool,
    pub force: bool,
    pub topological: bool,
    /// scheduler iterations taken so far
    pub steps: u64,
}

/// A token as seen by contracts, with the text of an unknown token as a
/// sequence.
pub enum WordView {
    Literal(Value),
    Register(usize),
    Operator(Operations),
    Unknown(Seq<u8>),
}

pub open spec fn wview(w: Word) -> WordView {
    match w {
        Word::Literal(v) => WordView::Literal(v),
        Word::Register(i) => WordView::Register(i),
        Word::Operator(op) => WordView::Operator(op),
        Word::Unknown(s) => WordView::Unknown(s@),
    }
}

pub open spec fn words_view(ws: Seq<Word>) -> Seq<WordView> {
    ws.map_values(|w: Word| wview(w))
}

impl Word {
    pub fn duplicate(&self) -> (r: Word)
        ensures
            wview(r) == wview(*self),
    {
        match self {
            Word::Literal(v) => Word::Literal(v.duplicate()),
            Word::Register(i) => Word::Register(*i),
            Word::Operator(op) => Word::Operator(*op),
            Word::Unknown(s) => Word::Unknown(crate::registers::copy_bytes(s)),
        }
    }
}

impl Processor {
    /// A processor with empty cache and registries.
    pub fn new(selfmodify: bool, optimized: bool, debug: bool, lazy: bool, force: bool, topological: bool) -> (r: Self)
        ensures
            r.instructions@ == Map::<u64, InstructionEntry>::empty(),
            r.hooks@ == Map::<u64, Vec<Vec<Word>>>::empty(),
            r.sims@ == Map::<u64, Vec<Word>>::empty(),
            r.traps@ == Map::<u64, Vec<Word>>::empty(),
            r.syscalls@ == Map::<u64, Vec<Word>>::empty(),
            r.breakpoints@ == Map::<u64, bool>::empty(),
            r.mergepoints@ == Map::<u64, bool>::empty(),
            r.avoidpoints@ == Map::<u64, bool>::empty(),
            r.merges@.len() == 0,
            r.ret_tokens@.len() == 0,
            r.selfmodify == selfmodify,
            r.optimized == optimized,
            r.debug == debug,
            r.lazy == lazy,
            r.force == force,
            r.topological == topological,
            r.steps == 0,
    {
        Processor {
            instructions: HashMap::new(),
            hooks: HashMap::new(),
            sims: HashMap::new(),
            traps: HashMap::new(),
            syscalls: HashMap::new(),
            breakpoints: HashMap::new(),
            mergepoints: HashMap::new(),
            avoidpoints: HashMap::new(),
            merges: Vec::new(),
            cc: CallConv { args: Vec::new(), ret: 0 },
            syscall_cc: CallConv { args: Vec::new(), ret: 0 },
            ret_tokens: Vec::new(),
            selfmodify,
            optimized,
            debug,
            lazy,
            force,
            topological,
            steps: 0,
        }
    }
}

} // verus!
