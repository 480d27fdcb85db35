use vstd::prelude::*;
use crate::memory::byte_spec;
use crate::processor::{
    words_view, Instruction, InstructionEntry, InstructionStatus, Processor, CALL_TYPE, RETN_TYPE,
};
use crate::state::{State, StateStatus};
use crate::tokenizer::tokenize_spec;
use crate::value::Value;

verus! {

broadcast use vstd::std_specs::hash::group_hash_axioms;

/// The status an instruction at `pc` gets: hook before breakpoint before
/// merge point before avoid point before simulation.
pub open spec fn status_for(p: Processor, pc: u64) -> InstructionStatus {
    if p.hooks@.contains_key(pc) {
        InstructionStatus::Hook
    } else if p.breakpoints@.contains_key(pc) {
        InstructionStatus::Break
    } else if p.mergepoints@.contains_key(pc) {
        InstructionStatus::Merge
    } else if p.avoidpoints@.contains_key(pc) {
        InstructionStatus::Avoid
    } else if p.sims@.contains_key(pc) {
        InstructionStatus::Sim
    } else {
        InstructionStatus::Plain
    }
}

/// Whether memory from `pc` holds exactly the concrete bytes `bytes`.
pub open spec fn bytes_match(m: Map<u64, Value>, pc: u64, bytes: Seq<u8>) -> bool {
    &&& pc + bytes.len() <= u64::MAX
    &&& forall|i: int|
        0 <= i < bytes.len() ==> match #[trigger] byte_spec(m, (pc + i) as u64) {
            Value::Concrete(w, _) => w == bytes[i] as u64,
            Value::Symbolic(_, _) => false,
        }
}

/// Whether the instruction at `pc` must be decoded again: it is not
/// cached, or self-modifying code is on and memory no longer holds the
/// cached bytes.
pub open spec fn needs_decode_spec(p: Processor, m: Map<u64, Value>, pc: u64) -> bool {
    !p.instructions@.contains_key(pc) || (p.selfmodify && !bytes_match(
        m,
        pc,
        p.instructions@[pc].instruction.bytes@,
    ))
}

/// The state needs work outside the engine: its PC is symbolic, or the
/// instruction there is still to be decoded.
pub open spec fn needs_outside(p: Processor, s: State) -> bool {
    match s.registers.read_spec(s.registers.pc as int) {
        Value::Symbolic(_, _) => true,
        Value::Concrete(pc, _) => needs_decode_spec(p, s.memory.mem@, pc),
    }
}

/// Two processors with the same cache, registries, conventions and modes
/// (the pending merges and the step count may differ).
pub open spec fn same_config(q: Processor, p: Processor) -> bool {
    &&& q.instructions == p.instructions
    &&& q.hooks == p.hooks
    &&& q.sims == p.sims
    &&& q.traps == p.traps
    &&& q.syscalls == p.syscalls
    &&& q.breakpoints == p.breakpoints
    &&& q.mergepoints == p.mergepoints
    &&& q.avoidpoints == p.avoidpoints
    &&& q.cc == p.cc
    &&& q.syscall_cc == p.syscall_cc
    &&& q.ret_tokens == p.ret_tokens
    &&& q.selfmodify == p.selfmodify
    &&& q.optimized == p.optimized
    &&& q.lazy == p.lazy
    &&& q.force == p.force
    &&& q.debug == p.debug
    &&& q.topological == p.topological
}

/// Whether decoding optimizes flag stores away.
pub open spec fn opt_mode(p: Processor) -> bool {
    p.optimized && !p.selfmodify
}

/// The cache `m` holds at `a` the decoded instruction `ins`, with the
/// status the registries of `p` give `a`, and (without optimization) its
/// tokens.
pub open spec fn entry_matches(p: Processor, m: Map<u64, InstructionEntry>, a: u64, ins: Instruction, opt_on: bool, regs: Seq<crate::registers::Register>) -> bool {
    &&& m.contains_key(a)
    &&& m[a].status == status_for(p, a)
    &&& m[a].instruction.offset == ins.offset
    &&& m[a].instruction.size == ins.size
    &&& m[a].instruction.bytes@ == ins.bytes@
    &&& m[a].instruction.jump == ins.jump
    &&& m[a].instruction.fail == ins.fail
    &&& m[a].instruction.type_num == ins.type_num
    &&& m[a].instruction.esil@ == ins.esil@
    &&& m[a].instruction.disasm@ == ins.disasm@
    &&& (!opt_on ==> words_view(m[a].tokens@) == tokenize_spec(ins.esil@, regs))
}

/// A decoded run cached from `pc`: instruction `k` of `instrs` at
/// `addrs[k]`, each address the one before plus its size, stopping early
/// only at a size of zero or the end of the address space; every other
/// cache key is as in `m0`.
pub open spec fn decoded_run(p: Processor, m0: Map<u64, InstructionEntry>, m: Map<u64, InstructionEntry>, pc: u64, instrs: Seq<Instruction>, addrs: Seq<u64>, opt_on: bool, regs: Seq<crate::registers::Register>) -> bool {
    &&& 1 <= addrs.len() <= instrs.len()
    &&& addrs[0] == pc
    &&& forall|k: int| 0 <= k < addrs.len() ==> #[trigger] entry_matches(p, m, addrs[k], instrs[k], opt_on, regs)
    &&& forall|k: int| 0 <= k < addrs.len() - 1 ==> #[trigger] addrs[k + 1] == addrs[k] + instrs[k].size
    &&& (addrs.len() < instrs.len() ==> instrs[addrs.len() - 1].size == 0 || addrs.last() + instrs[addrs.len() - 1].size > u64::MAX)
    &&& forall|a: u64| !addrs.contains(a) ==> (#[trigger] m.contains_key(a) == m0.contains_key(a) && (m0.contains_key(a) ==> m[a] == m0[a]))
}

/// The status an instruction is executed with: a state that just left a
/// merge runs a merge point as a plain instruction.
pub open spec fn entry_status(s: State, status: InstructionStatus) -> InstructionStatus {
    if s.status == StateStatus::PostMerge && status == InstructionStatus::Merge {
        InstructionStatus::Plain
    } else {
        status
    }
}

/// A return with nothing on the backtrace stops the path instead of
/// returning into unknown code.
pub open spec fn returns_into_void(s: State, instr: Instruction, status: InstructionStatus) -> bool {
    instr.type_num == RETN_TYPE && s.backtrace@.len() == 0 && entry_status(s, status) == InstructionStatus::Plain
}

pub open spec fn effective_status(p: Processor, s: State, instr: Instruction, status: InstructionStatus) -> InstructionStatus {
    if returns_into_void(s, instr, status) {
        if p.breakpoints@.is_empty() {
            InstructionStatus::Break
        } else {
            InstructionStatus::Avoid
        }
    } else {
        entry_status(s, status)
    }
}

pub open spec fn pop_spec(bt: Seq<u64>) -> Seq<u64> {
    if bt.len() > 0 {
        bt.drop_last()
    } else {
        bt
    }
}

pub open spec fn fall_through(instr: Instruction) -> u64 {
    vstd::wrapping::u64_specs::wrapping_add(instr.offset, instr.size)
}

/// The backtrace after executing `instr`: a call pushes its return
/// address, a return pops one, and a simulated function pops the address
/// its call pushed.
pub open spec fn backtrace_after(p: Processor, s: State, instr: Instruction, status: InstructionStatus) -> Seq<u64> {
    let bt = s.backtrace@;
    let after_type = if instr.type_num == CALL_TYPE {
        bt.push(fall_through(instr))
    } else if instr.type_num == RETN_TYPE {
        if returns_into_void(s, instr, status) {
            bt
        } else {
            pop_spec(bt)
        }
    } else {
        bt
    };
    if effective_status(p, s, instr, status) == InstructionStatus::Sim {
        pop_spec(after_type)
    } else {
        after_type
    }
}

/// The staged successor candidates: the jump target, then the fail
/// target, leaving out zeros.
pub open spec fn staged_pcs(instr: Instruction) -> Seq<u64> {
    let j: Seq<u64> = if instr.jump == 0 { Seq::empty() } else { seq![instr.jump] };
    if instr.fail == 0 { j } else { j.push(instr.fail) }
}

pub fn pop_backtrace(bt: &mut Vec<u64>)
    ensures
        final(bt)@ == pop_spec(old(bt)@),
{
    if bt.len() > 0 {
        let _ = bt.pop();
    }
}

/// The backtrace's depth moves with the calls and returns executed: one
/// more after a call, one fewer after a return from a call, one fewer when
/// a simulated function returns in place of the function called, and
/// unchanged otherwise; a return with an empty backtrace leaves it empty.
pub proof fn lemma_backtrace_depth(p: Processor, s: State, instr: Instruction, status: InstructionStatus)
    ensures
        ({
            let d = s.backtrace@.len() as int;
            let after = backtrace_after(p, s, instr, status).len() as int;
            let sim = effective_status(p, s, instr, status) == InstructionStatus::Sim;
            &&& (instr.type_num == CALL_TYPE && !sim ==> after == d + 1)
            &&& (instr.type_num == CALL_TYPE && sim ==> after == d)
            &&& (instr.type_num == RETN_TYPE && d > 0 && !sim ==> after == d - 1)
            &&& (instr.type_num == RETN_TYPE && d == 0 ==> after == 0)
            &&& (instr.type_num != CALL_TYPE && instr.type_num != RETN_TYPE && !sim ==> after == d)
            &&& (instr.type_num != CALL_TYPE && instr.type_num != RETN_TYPE && sim && d > 0 ==> after == d - 1)
        }),
{
}

impl Processor {
    /// Whether the instruction at `pc` must be decoded (again) before it is
    /// executed.
    pub fn needs_decode(&self, state: &State, pc: u64) -> (r: bool)
        ensures
            r == needs_decode_spec(*self, state.memory.mem@, pc),
    {
        match self.instructions.get(&pc) {
            None => true,
            Some(entry) => {
                if !self.selfmodify {
                    return false;
                }
                let bytes = &entry.instruction.bytes;
                let n = bytes.len();
                if n as u128 + pc as u128 > u64::MAX as u128 {
                    return true;
                }
                let mut i: usize = 0;
                while i < n
                    invariant
                        n == bytes@.len(),
                        self.selfmodify,
                        self.instructions@.contains_key(pc),
                        bytes@ == self.instructions@[pc].instruction.bytes@,
                        pc + n <= u64::MAX,
                        i <= n,
                        forall|k: int|
                            0 <= k < i ==> match #[trigger] byte_spec(state.memory.mem@, (pc + k) as u64) {
                                Value::Concrete(w, _) => w == bytes@[k] as u64,
                                Value::Symbolic(_, _) => false,
                            },
                    decreases n - i,
                {
                    let b = state.memory.read_byte(pc + i as u64);
                    let same = match b {
                        Value::Concrete(w, _) => w == bytes[i] as u64,
                        Value::Symbolic(_, _) => false,
                    };
                    if !same {
                        proof {
                            let k = i as int;
                            assert(b == byte_spec(state.memory.mem@, (pc + k) as u64));
                            assert(!bytes_match(state.memory.mem@, pc, bytes@));
                            assert(bytes@ == self.instructions@[pc].instruction.bytes@);
                        }
                        return true;
                    }
                    i = i + 1;
                }
                false
            },
        }
    }

    /// The status of an instruction at `pc`, from the registries.
    pub fn status_at(&self, pc: u64) -> (r: InstructionStatus)
        ensures
            r == status_for(*self, pc),
    {
        if self.hooks.contains_key(&pc) {
            InstructionStatus::Hook
        } else if self.breakpoints.contains_key(&pc) {
            InstructionStatus::Break
        } else if self.mergepoints.contains_key(&pc) {
            InstructionStatus::Merge
        } else if self.avoidpoints.contains_key(&pc) {
            InstructionStatus::Avoid
        } else if self.sims.contains_key(&pc) {
            InstructionStatus::Sim
        } else {
            InstructionStatus::Plain
        }
    }

    /// Caches freshly decoded instructions from `pc_val` on, unless the
    /// cached one is still good; `instrs` is what the disassembler gives for
    /// the address (one instruction under self-modifying code, else a run).
    pub fn fetch_instruction(&mut self, state: &mut State, pc_val: u64, instrs: Vec<Instruction>)
        requires
            old(state).wf(),
        ensures
            *final(state) == *old(state),
            final(self).selfmodify == old(self).selfmodify,
            final(self).optimized == old(self).optimized,
            final(self).hooks == old(self).hooks,
            final(self).sims == old(self).sims,
            final(self).traps == old(self).traps,
            final(self).syscalls == old(self).syscalls,
            final(self).breakpoints == old(self).breakpoints,
            final(self).mergepoints == old(self).mergepoints,
            final(self).avoidpoints == old(self).avoidpoints,
            final(self).merges == old(self).merges,
            final(self).cc == old(self).cc,
            final(self).syscall_cc == old(self).syscall_cc,
            final(self).ret_tokens == old(self).ret_tokens,
            final(self).lazy == old(self).lazy,
            final(self).force == old(self).force,
            final(self).debug == old(self).debug,
            final(self).topological == old(self).topological,
            final(self).steps == old(self).steps,
            !needs_decode_spec(*old(self), old(state).memory.mem@, pc_val) ==> final(self).instructions
                == old(self).instructions,
            instrs@.len() > 0 && !old(self).selfmodify ==> !needs_decode_spec(
                *final(self),
                old(state).memory.mem@,
                pc_val,
            ),
            needs_decode_spec(*old(self), old(state).memory.mem@, pc_val) && instrs@.len() > 0 ==> exists|addrs: Seq<u64>|
                #[trigger] decoded_run(
                    *old(self),
                    old(self).instructions@,
                    final(self).instructions@,
                    pc_val,
                    instrs@,
                    addrs,
                    opt_mode(*old(self)),
                    old(state).registers.entries@,
                ),
            needs_decode_spec(*old(self), old(state).memory.mem@, pc_val) && instrs@.len() > 0 ==> ({
                let e = final(self).instructions@[pc_val];
                &&& final(self).instructions@.contains_key(pc_val)
                &&& e.status == status_for(*old(self), pc_val)
                &&& e.instruction.offset == instrs@[0].offset
                &&& e.instruction.size == instrs@[0].size
                &&& e.instruction.bytes@ == instrs@[0].bytes@
                &&& e.instruction.jump == instrs@[0].jump
                &&& e.instruction.fail == instrs@[0].fail
                &&& e.instruction.type_num == instrs@[0].type_num
                &&& e.instruction.esil@ == instrs@[0].esil@
                &&& e.instruction.disasm@ == instrs@[0].disasm@
                &&& (!(old(self).optimized && !old(self).selfmodify) ==> words_view(e.tokens@) == tokenize_spec(
                    instrs@[0].esil@,
                    old(state).registers.entries@,
                ))
            }),
    {
        if !self.needs_decode(state, pc_val) {
            return;
        }
        let opt_on = self.optimized && !self.selfmodify;
        let mut pc_tmp: u64 = pc_val;
        let mut prev: Option<u64> = None;
        let ghost orig = instrs@;
        let ghost instrs_param_view = instrs@;
        let mut instrs = instrs;
        let n = instrs.len();
        let mut i: usize = 0;
        let mut stopped = false;
        let ghost first = if n > 0 { Some(instrs@[0]) } else { None::<Instruction> };
        let ghost mut addrs: Seq<u64> = Seq::empty();
        let ghost regs = old(state).registers.entries@;
        while i < n && !stopped
            invariant
                addrs.len() == i,
                instrs@ == orig.subrange(i as int, n as int),
                i > 0 ==> addrs[0] == pc_val,
                forall|k: int| 0 <= k < i ==> #[trigger] entry_matches(*old(self), self.instructions@, addrs[k], orig[k], opt_on, regs),
                forall|k: int| 0 <= k < i - 1 ==> #[trigger] addrs[k + 1] == addrs[k] + orig[k].size,
                forall|k: int, l: int| 0 <= k < l < i ==> #[trigger] addrs[k] < #[trigger] addrs[l],
                i > 0 && !stopped ==> pc_tmp == addrs[i - 1] + orig[i - 1].size && pc_tmp > addrs[i - 1],
                stopped ==> orig[i - 1].size == 0 || addrs[i - 1] + orig[i - 1].size > u64::MAX,
                regs == old(state).registers.entries@,
                prev is Some ==> addrs.contains(prev->0),
                forall|a: u64| !addrs.contains(a) ==> (#[trigger] self.instructions@.contains_key(a) == old(self).instructions@.contains_key(a)
                    && (old(self).instructions@.contains_key(a) ==> self.instructions@[a] == old(self).instructions@[a])),
                *state == *old(state),
                orig.len() == n,
                first == (if n > 0 { Some(orig[0]) } else { None::<Instruction> }),
                i <= n,
                self.selfmodify == old(self).selfmodify,
                self.optimized == old(self).optimized,
                opt_on == (self.optimized && !self.selfmodify),
                self.hooks == old(self).hooks,
                self.sims == old(self).sims,
                self.traps == old(self).traps,
                self.syscalls == old(self).syscalls,
                self.breakpoints == old(self).breakpoints,
                self.mergepoints == old(self).mergepoints,
                self.avoidpoints == old(self).avoidpoints,
                self.merges == old(self).merges,
                self.cc == old(self).cc,
                self.syscall_cc == old(self).syscall_cc,
                self.ret_tokens == old(self).ret_tokens,
                self.lazy == old(self).lazy,
                self.force == old(self).force,
                self.debug == old(self).debug,
                self.topological == old(self).topological,
                self.steps == old(self).steps,
                i == 0 ==> pc_tmp == pc_val,
                i > 0 ==> ({
                    let e = self.instructions@[pc_val];
                    &&& first is Some
                    &&& self.instructions@.contains_key(pc_val)
                    &&& e.status == status_for(*old(self), pc_val)
                    &&& e.instruction.offset == first->0.offset
                    &&& e.instruction.size == first->0.size
                    &&& e.instruction.bytes@ == first->0.bytes@
                    &&& e.instruction.jump == first->0.jump
                    &&& e.instruction.fail == first->0.fail
                    &&& e.instruction.type_num == first->0.type_num
                    &&& e.instruction.esil@ == first->0.esil@
                    &&& e.instruction.disasm@ == first->0.disasm@
                    &&& (!opt_on ==> words_view(e.tokens@) == tokenize_spec(
                        first->0.esil@,
                        old(state).registers.entries@,
                    ))
                }),
                i > 0 && !stopped ==> pc_tmp > pc_val,
                instrs@.len() == n - i,
                state.wf(),
                stopped ==> i > 0,
                i == 0 ==> (first is Some ==> instrs@[0] == first->0) && (n > 0 <==> first is Some),
                i > 0 ==> first is Some,
            decreases n - i,
        {
            let ghost m_before = self.instructions@;
            proof {
                assert forall|a: u64| !addrs.contains(a) implies (#[trigger] m_before.contains_key(a)
                    == old(self).instructions@.contains_key(a) && (old(self).instructions@.contains_key(a) ==> m_before[a] == old(self).instructions@[a])) by {
                    assert(self.instructions@.contains_key(a) == old(self).instructions@.contains_key(a));
                }
            }
            let ghost prev_before = prev;
            let instr = instrs.remove(0);
            assert(instr == orig[i as int]);
            let size = instr.size;
            let words = self.tokenize(state, instr.esil.as_slice());
            let status = self.status_at(pc_tmp);
            let opt = opt_on && status == InstructionStatus::Plain;
            let entry = InstructionEntry { instruction: instr, tokens: words, status };
            if opt {
                if let Some(prev_pc) = prev {
                    self.optimize(state, prev_pc, &entry);
                }
                prev = Some(pc_tmp);
            }
            let ghost m_mid = self.instructions@;
            proof {
                assert forall|k: int| 0 <= k < i implies #[trigger] entry_matches(*old(self), m_mid, addrs[k], orig[k], opt_on, regs) by {
                    assert(entry_matches(*old(self), m_before, addrs[k], orig[k], opt_on, regs));
                }
                assert forall|a: u64| !addrs.contains(a) implies (#[trigger] m_mid.contains_key(a)
                    == old(self).instructions@.contains_key(a) && (old(self).instructions@.contains_key(a) ==> m_mid[a] == old(self).instructions@[a])) by {
                    assert(m_before.contains_key(a) == old(self).instructions@.contains_key(a));
                }
            }
            self.instructions.insert(pc_tmp, entry);
            proof {
                let a2 = addrs.push(pc_tmp);
                assert(a2[i as int] == pc_tmp);
                assert(a2.contains(pc_tmp));
                assert forall|k: int| 0 <= k < i + 1 implies #[trigger] entry_matches(*old(self), self.instructions@, a2[k], orig[k], opt_on, regs) by {
                    if k < i {
                        assert(a2[k] == addrs[k]);
                        assert(addrs[k] < pc_tmp);
                        assert(entry_matches(*old(self), m_mid, addrs[k], orig[k], opt_on, regs));
                    } else {
                        assert(a2[k] == pc_tmp);
                    }
                }
                assert forall|a: u64| !a2.contains(a) implies (#[trigger] self.instructions@.contains_key(a)
                    == old(self).instructions@.contains_key(a) && (old(self).instructions@.contains_key(a) ==> self.instructions@[a] == old(self).instructions@[a])) by {
                    if addrs.contains(a) {
                        let k = choose|k: int| 0 <= k < addrs.len() && addrs[k] == a;
                        assert(a2[k] == a);
                    }
                    assert(a != pc_tmp);
                }
                if prev is Some {
                    if prev->0 != pc_tmp {
                        assert(prev == prev_before);
                        let k = choose|k: int| 0 <= k < addrs.len() && addrs[k] == prev->0;
                        assert(a2[k] == prev->0);
                    }
                    assert(a2.contains(prev->0));
                }
                assert forall|k: int, l: int| 0 <= k < l < i + 1 implies #[trigger] a2[k] < #[trigger] a2[l] by {
                    if l == i {
                        if k < i - 1 {
                            assert(addrs[k] < addrs[i - 1]);
                        }
                    }
                }
                addrs = a2;
            }
            if size == 0 || pc_tmp > u64::MAX - size {
                stopped = true;
            } else {
                pc_tmp = pc_tmp + size;
            }
            i = i + 1;
        }
        if n > 0 {
            assert(addrs.len() >= 1);
            assert(addrs[0] == pc_val);
            assert(addrs.len() < orig.len() ==> stopped);
            assert(forall|k: int| 0 <= k < addrs.len() ==> #[trigger] entry_matches(*old(self), self.instructions@, addrs[k], orig[k], opt_on, regs));
            assert(decoded_run(*old(self), old(self).instructions@, self.instructions@, pc_val, orig, addrs, opt_on, regs));
            assert(opt_on == opt_mode(*old(self)));
            assert(orig == instrs_param_view);
            assert(decoded_run(*old(self), old(self).instructions@, self.instructions@, pc_val, instrs_param_view, addrs, opt_mode(*old(self)), old(state).registers.entries@));
        }
    }
}

} // verus!
