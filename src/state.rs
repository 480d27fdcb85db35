use vstd::prelude::*;
use crate::filesystem::FileSystem;
use crate::memory::Memory;
use crate::registers::Registers;
use crate::value::{Term, Value};

verus! {

/// How the evaluator treats the tokens it meets.
#[derive(Debug, Clone, Copy, PartialEq, Eq, Structural)]
pub enum ExecMode {
    /// no conditional is open
    Uncon,
    /// inside the taken branch of a concrete conditional
    Exec,
    /// inside the skipped branch of a concrete conditional
    NoExec,
    /// inside the first branch of a symbolic conditional
    If,
    /// inside the second branch of a symbolic conditional
    Else,
}

#[derive(Debug, Clone, Copy, PartialEq, Eq, Structural)]
pub enum StateStatus {
    Active,
    Break,
    Merge,
    PostMerge,
    Inactive,
}

/// An item of the evaluation stack: a value, or a register that is read
/// when popped as a value.
#[derive(Debug)]
pub enum StackItem {
    StackValue(Value),
    StackRegister(usize),
}

/// Errors that stop the evaluation of a token list.
#[derive(Debug, Clone, Copy, PartialEq, Eq, Structural)]
pub enum EsilError {
    /// an operator found fewer items than it pops
    StackUnderflow,
    /// a store found a value where it needs a register
    NotARegister,
    /// a memory access at a symbolic address
    SymbolicAddress,
    /// a memory access that runs past the end of the address space
    AddressOverflow,
    /// a jump or break inside a symbolic conditional
    SymbolicControl,
    /// a jump target past the end of the token list
    BadJump,
    /// no instruction is known at the program counter
    NoInstruction,
}

/// Scratch state of the evaluator.
pub struct EsilState {
    pub mode: ExecMode,
    pub temp1: Vec<StackItem>,
    pub temp2: Vec<StackItem>,
    /// candidate successor addresses staged for the current instruction
    pub pcs: Vec<u64>,
    /// result of the last register store, read by the flag operators
    pub current: Value,
    /// value of the register before the last store
    pub previous: Value,
    /// width in bits of the register last stored
    pub last_width: u64,
    /// address saved by an address store, for a fused read-modify-write
    pub stored_address: Option<Value>,
}

/// One execution path: registers, memory, the return-address stack, the
/// evaluator's scratch, and the path constraints.
pub struct State {
    pub registers: Registers,
    pub memory: Memory,
    pub filesystem: FileSystem,
    pub backtrace: Vec<u64>,
    pub stack: Vec<StackItem>,
    pub esil: EsilState,
    /// condition of the open symbolic conditional
    pub condition: Option<Term>,
    pub status: StateStatus,
    /// path constraints: each term must be non-zero
    pub assertions: Vec<Term>,
    /// whether an access violation deactivates the state
    pub crash: bool,
}

pub open spec fn item_wf(it: StackItem, nregs: nat) -> bool {
    match it {
        StackItem::StackRegister(i) => i < nregs,
        StackItem::StackValue(_) => true,
    }
}

pub open spec fn items_wf(s: Seq<StackItem>, nregs: nat) -> bool {
    forall|i: int| 0 <= i < s.len() ==> item_wf(#[trigger] s[i], nregs)
}

/// The value an item stands for.
pub open spec fn item_value(regs: Registers, it: StackItem) -> Value {
    match it {
        StackItem::StackValue(v) => v,
        StackItem::StackRegister(i) => regs.read_spec(i as int),
    }
}

pub open spec fn is_symbolic_mode(m: ExecMode) -> bool {
    m == ExecMode::If || m == ExecMode::Else
}

impl State {
    pub open spec fn nregs(&self) -> nat {
        self.registers.entries@.len()
    }

    pub open spec fn wf(&self) -> bool {
        &&& self.registers.wf()
        &&& self.memory.wf()
        &&& items_wf(self.stack@, self.nregs())
        &&& items_wf(self.esil.temp1@, self.nregs())
        &&& items_wf(self.esil.temp2@, self.nregs())
        &&& (self.condition is Some <==> is_symbolic_mode(self.esil.mode))
    }

    /// A fresh active state over the given registers and memory.
    pub fn new(registers: Registers, memory: Memory, crash: bool) -> (r: State)
        requires
            registers.wf(),
            memory.wf(),
        ensures
            r.wf(),
            r.registers == registers,
            r.memory == memory,
            r.backtrace@.len() == 0,
            r.stack@.len() == 0,
            r.esil.mode == ExecMode::Uncon,
            r.status == StateStatus::Active,
            r.assertions@.len() == 0,
            r.crash == crash,
    {
        let r = State {
            registers,
            memory,
            filesystem: FileSystem::new(),
            backtrace: Vec::new(),
            stack: Vec::new(),
            esil: EsilState {
                mode: ExecMode::Uncon,
                temp1: Vec::new(),
                temp2: Vec::new(),
                pcs: Vec::new(),
                current: Value::Concrete(0, 0),
                previous: Value::Concrete(0, 0),
                last_width: 64,
                stored_address: None,
            },
            condition: None,
            status: StateStatus::Active,
            assertions: Vec::new(),
            crash,
        };
        r
    }

    /// Pops the top item as a value, reading a register item.
    pub fn pop_value(&mut self) -> (r: Result<Value, EsilError>)
        requires
            old(self).wf(),
        ensures
            final(self).wf(),
            final(self).registers == old(self).registers,
            final(self).memory == old(self).memory,
            final(self).esil == old(self).esil,
            final(self).condition == old(self).condition,
            final(self).status == old(self).status,
            final(self).assertions == old(self).assertions,
            final(self).backtrace == old(self).backtrace,
            final(self).crash == old(self).crash,
            final(self).filesystem == old(self).filesystem,
            old(self).stack@.len() == 0 ==> r == Err::<Value, EsilError>(EsilError::StackUnderflow)
                && final(self).stack@ == old(self).stack@,
            old(self).stack@.len() > 0 ==> r == Ok::<Value, EsilError>(
                item_value(old(self).registers, old(self).stack@.last()),
            ) && final(self).stack@ == old(self).stack@.drop_last(),
    {
        match self.stack.pop() {
            None => Err(EsilError::StackUnderflow),
            Some(StackItem::StackValue(v)) => Ok(v),
            Some(StackItem::StackRegister(i)) => {
                assert(item_wf(old(self).stack@.last(), self.nregs()));
                Ok(self.registers.get_value(i))
            },
        }
    }

    /// Pops the top item, which must be a register.
    pub fn pop_register(&mut self) -> (r: Result<usize, EsilError>)
        requires
            old(self).wf(),
        ensures
            final(self).wf(),
            final(self).registers == old(self).registers,
            final(self).memory == old(self).memory,
            final(self).esil == old(self).esil,
            final(self).condition == old(self).condition,
            final(self).status == old(self).status,
            final(self).assertions == old(self).assertions,
            final(self).backtrace == old(self).backtrace,
            final(self).crash == old(self).crash,
            final(self).filesystem == old(self).filesystem,
            old(self).stack@.len() == 0 ==> r == Err::<usize, EsilError>(EsilError::StackUnderflow),
            old(self).stack@.len() > 0 ==> final(self).stack@ == old(self).stack@.drop_last()
                && match old(self).stack@.last() {
                StackItem::StackRegister(i) => r == Ok::<usize, EsilError>(i),
                StackItem::StackValue(_) => r == Err::<usize, EsilError>(EsilError::NotARegister),
            },
            r is Ok ==> r->Ok_0 < old(self).nregs(),
    {
        match self.stack.pop() {
            None => Err(EsilError::StackUnderflow),
            Some(StackItem::StackValue(_)) => Err(EsilError::NotARegister),
            Some(StackItem::StackRegister(i)) => {
                assert(item_wf(old(self).stack@.last(), self.nregs()));
                Ok(i)
            },
        }
    }

    /// Pops a value that must be concrete: a symbolic one is refused.
    pub fn pop_concrete(&mut self) -> (r: Result<u64, EsilError>)
        requires
            old(self).wf(),
        ensures
            final(self).wf(),
            final(self).registers == old(self).registers,
            final(self).memory == old(self).memory,
            final(self).esil == old(self).esil,
            final(self).condition == old(self).condition,
            final(self).status == old(self).status,
            final(self).assertions == old(self).assertions,
            final(self).backtrace == old(self).backtrace,
            final(self).crash == old(self).crash,
            final(self).filesystem == old(self).filesystem,
            old(self).stack@.len() == 0 ==> r == Err::<u64, EsilError>(EsilError::StackUnderflow),
            old(self).stack@.len() > 0 ==> final(self).stack@ == old(self).stack@.drop_last()
                && match item_value(old(self).registers, old(self).stack@.last()) {
                Value::Concrete(c, _) => r == Ok::<u64, EsilError>(c),
                Value::Symbolic(_, _) => r == Err::<u64, EsilError>(EsilError::SymbolicAddress),
            },
    {
        let v = self.pop_value()?;
        match v {
            Value::Concrete(c, _) => Ok(c),
            Value::Symbolic(_, _) => Err(EsilError::SymbolicAddress),
        }
    }

    /// Pushes a value.
    pub fn push_value(&mut self, v: Value)
        requires
            old(self).wf(),
        ensures
            final(self).wf(),
            final(self).registers == old(self).registers,
            final(self).memory == old(self).memory,
            final(self).esil == old(self).esil,
            final(self).condition == old(self).condition,
            final(self).status == old(self).status,
            final(self).assertions == old(self).assertions,
            final(self).backtrace == old(self).backtrace,
            final(self).crash == old(self).crash,
            final(self).filesystem == old(self).filesystem,
            final(self).stack@ == old(self).stack@.push(StackItem::StackValue(v)),
    {
        self.stack.push(StackItem::StackValue(v));
        proof {
            assert forall|i: int| 0 <= i < self.stack@.len() implies item_wf(#[trigger] self.stack@[i], self.nregs()) by {
                if i < old(self).stack@.len() {
                    assert(self.stack@[i] == old(self).stack@[i]);
                }
            }
        }
    }

    /// An independent copy of the state: the same registers, memory, stacks,
    /// constraints and status.
    pub fn duplicate(&self) -> (r: State)
        requires
            self.wf(),
        ensures
            r.wf(),
            r.registers.same_layout(self.registers),
            r.registers.values@ == self.registers.values@,
            r.memory.mem@ == self.memory.mem@,
            r.memory.segments@ == self.memory.segments@,
            r.memory.check == self.memory.check,
            r.backtrace@ == self.backtrace@,
            r.stack@ == self.stack@,
            r.esil.mode == self.esil.mode,
            r.esil.pcs@ == self.esil.pcs@,
            r.esil.temp1@ == self.esil.temp1@,
            r.esil.temp2@ == self.esil.temp2@,
            r.esil.current == self.esil.current,
            r.esil.previous == self.esil.previous,
            r.esil.last_width == self.esil.last_width,
            r.esil.stored_address == self.esil.stored_address,
            r.filesystem.files@.len() == self.filesystem.files@.len(),
            forall|i: int|
                0 <= i < self.filesystem.files@.len() ==> (#[trigger] r.filesystem.files@[i]).fd
                    == self.filesystem.files@[i].fd && r.filesystem.files@[i].path@ == self.filesystem.files@[i].path@
                    && r.filesystem.files@[i].content@ == self.filesystem.files@[i].content@,
            r.condition == self.condition,
            r.status == self.status,
            r.assertions@ == self.assertions@,
            r.crash == self.crash,
    {
        let condition = match &self.condition {
            Some(t) => Some(t.duplicate()),
            None => None,
        };
        let stored_address = match &self.esil.stored_address {
            Some(v) => Some(v.duplicate()),
            None => None,
        };
        let r = State {
            registers: self.registers.duplicate(),
            memory: self.memory.duplicate(),
            filesystem: self.filesystem.duplicate(),
            backtrace: copy_words(&self.backtrace),
            stack: copy_stack(&self.stack),
            esil: EsilState {
                mode: self.esil.mode,
                temp1: copy_stack(&self.esil.temp1),
                temp2: copy_stack(&self.esil.temp2),
                pcs: copy_words(&self.esil.pcs),
                current: self.esil.current.duplicate(),
                previous: self.esil.previous.duplicate(),
                last_width: self.esil.last_width,
                stored_address,
            },
            condition,
            status: self.status,
            assertions: copy_terms(&self.assertions),
            crash: self.crash,
        };
        proof {
            assert(r.registers.wf()) by {
                assert forall|i: int| 0 <= i < r.registers.entries.len() implies crate::registers::entry_wf(
                    #[trigger] r.registers.entries[i],
                    r.registers.values@.len(),
                ) by {
                    assert(crate::registers::entry_wf(self.registers.entries[i], self.registers.values@.len()));
                }
            }
        }
        r
    }

    /// Adds a path constraint.
    pub fn assert_term(&mut self, t: Term)
        ensures
            final(self).assertions@ == old(self).assertions@.push(t),
            final(self).registers == old(self).registers,
            final(self).memory == old(self).memory,
            final(self).esil == old(self).esil,
            final(self).stack == old(self).stack,
            final(self).condition == old(self).condition,
            final(self).status == old(self).status,
            final(self).backtrace == old(self).backtrace,
            final(self).crash == old(self).crash,
            final(self).filesystem == old(self).filesystem,
    {
        self.assertions.push(t);
    }
}

pub fn copy_words(a: &Vec<u64>) -> (r: Vec<u64>)
    ensures
        r@ == a@,
{
    let mut r: Vec<u64> = Vec::new();
    let mut i: usize = 0;
    while i < a.len()
        invariant
            i <= a.len(),
            r@ == a@.subrange(0, i as int),
        decreases a.len() - i,
    {
        r.push(a[i]);
        i = i + 1;
    }
    assert(r@ =~= a@);
    r
}

pub fn copy_terms(a: &Vec<Term>) -> (r: Vec<Term>)
    ensures
        r@ == a@,
{
    let mut r: Vec<Term> = Vec::new();
    let mut i: usize = 0;
    while i < a.len()
        invariant
            i <= a.len(),
            r@ == a@.subrange(0, i as int),
        decreases a.len() - i,
    {
        r.push(a[i].duplicate());
        i = i + 1;
        assert(r@ =~= a@.subrange(0, i as int));
    }
    assert(r@ =~= a@);
    r
}

pub fn copy_stack(items: &Vec<StackItem>) -> (r: Vec<StackItem>)
    ensures
        r@ == items@,
{
    let mut r: Vec<StackItem> = Vec::new();
    let mut i: usize = 0;
    while i < items.len()
        invariant
            i <= items.len(),
            r@ == items@.subrange(0, i as int),
        decreases items.len() - i,
    {
        let it = match &items[i] {
            StackItem::StackValue(v) => StackItem::StackValue(v.duplicate()),
            StackItem::StackRegister(j) => StackItem::StackRegister(*j),
        };
        r.push(it);
        i = i + 1;
        assert(r@ =~= items@.subrange(0, i as int));
    }
    r
}

} // verus!
