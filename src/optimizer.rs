use vstd::prelude::*;
use crate::operations::Operations;
use crate::processor::{words_view, wview, Instruction, InstructionEntry, Processor, Word, WordView};
use crate::registers::{copy_bytes, Registers};
use crate::state::State;

verus! {

broadcast use vstd::std_specs::hash::group_hash_axioms;

/// Whether register `a` lies within register `b` (false for an index out
/// of range).
pub open spec fn sub_spec(regs: Registers, a: usize, b: usize) -> bool {
    a < regs.entries@.len() && b < regs.entries@.len() && ({
        let x = regs.entries[a as int];
        let y = regs.entries[b as int];
        x.root == y.root && y.offset <= x.offset && x.offset + x.width <= y.offset + y.width
    })
}

pub open spec fn is_store(w: WordView) -> bool {
    w == WordView::Operator(Operations::WeakEqual) || w == WordView::Operator(Operations::Equal)
}

/// Token `i` names a register that the token after it stores to.
pub open spec fn written_at(ts: Seq<WordView>, i: int) -> bool {
    0 <= i && i + 1 < ts.len() && ts[i] is Register && is_store(ts[i + 1])
}

/// Token `i` names a register that is read.
pub open spec fn read_at(ts: Seq<WordView>, i: int) -> bool {
    0 <= i && i + 1 < ts.len() && ts[i] is Register && !is_store(ts[i + 1])
}

pub open spec fn reg_at(ts: Seq<WordView>, i: int) -> usize {
    match ts[i] {
        WordView::Register(r) => r,
        _ => 0,
    }
}

pub open spec fn reads_reg(regs: Registers, ts: Seq<WordView>, idx: usize) -> bool {
    exists|i: int| #[trigger] read_at(ts, i) && sub_spec(regs, reg_at(ts, i), idx)
}

pub open spec fn writes_reg(regs: Registers, ts: Seq<WordView>, idx: usize) -> bool {
    exists|i: int| #[trigger] written_at(ts, i) && sub_spec(regs, reg_at(ts, i), idx)
}

/// How many tokens a flag store `value, [bits,] flag-op, reg, :=` spans.
pub open spec fn flag_span(w: WordView) -> int {
    match w {
        WordView::Operator(Operations::Zero) | WordView::Operator(Operations::Parity) => 3,
        WordView::Operator(Operations::Carry) | WordView::Operator(Operations::Borrow)
        | WordView::Operator(Operations::Overflow) | WordView::Operator(Operations::S) => 4,
        _ => 0,
    }
}

/// Token `i` of `prev` is a weak store of a flag that `cur` overwrites
/// without reading it first.
pub open spec fn dead_flag(regs: Registers, prev: Seq<WordView>, cur: Seq<WordView>, i: int) -> bool {
    &&& 2 <= i < prev.len()
    &&& prev[i] == WordView::Operator(Operations::WeakEqual)
    &&& prev[i - 1] is Register
    &&& !reads_reg(regs, cur, reg_at(prev, i - 1))
    &&& writes_reg(regs, cur, reg_at(prev, i - 1))
    &&& flag_span(prev[i - 2]) > 0
    &&& i + 1 >= flag_span(prev[i - 2])
}

/// Token `k` of `prev` is dropped: a no-op, or inside a dead flag store.
pub open spec fn dropped(regs: Registers, prev: Seq<WordView>, cur: Seq<WordView>, k: int) -> bool {
    prev[k] == WordView::Operator(Operations::NoOperation) || exists|d: int|
        0 <= d < 4 && #[trigger] dead_flag(regs, prev, cur, k + d) && d < flag_span(prev[k + d - 2])
}

pub open spec fn has_weak_store(ts: Seq<WordView>) -> bool {
    ts.contains(WordView::Operator(Operations::WeakEqual))
}

/// The tokens of `prev` that are kept, in order.
pub open spec fn kept(regs: Registers, prev: Seq<WordView>, cur: Seq<WordView>, n: int) -> Seq<WordView>
    decreases n,
{
    if n <= 0 {
        Seq::empty()
    } else if dropped(regs, prev, cur, n - 1) {
        kept(regs, prev, cur, n - 1)
    } else {
        kept(regs, prev, cur, n - 1).push(prev[n - 1])
    }
}

/// The previous instruction's tokens after optimizing against the current
/// one: unchanged unless both hold a weak store.
pub open spec fn optimize_spec(regs: Registers, prev: Seq<WordView>, cur: Seq<WordView>) -> Seq<WordView> {
    if has_weak_store(prev) && has_weak_store(cur) {
        kept(regs, prev, cur, prev.len() as int)
    } else {
        prev
    }
}

fn contains_weak_store(ts: &Vec<Word>) -> (r: bool)
    ensures
        r == has_weak_store(words_view(ts@)),
{
    let mut i: usize = 0;
    while i < ts.len()
        invariant
            i <= ts.len(),
            forall|j: int| 0 <= j < i ==> words_view(ts@)[j] != WordView::Operator(Operations::WeakEqual),
        decreases ts.len() - i,
    {
        if let Word::Operator(Operations::WeakEqual) = &ts[i] {
            assert(words_view(ts@)[i as int] == WordView::Operator(Operations::WeakEqual));
            return true;
        }
        i = i + 1;
    }
    false
}

fn is_sub_checked(regs: &Registers, a: usize, b: usize) -> (r: bool)
    requires
        regs.wf(),
    ensures
        r == sub_spec(*regs, a, b),
{
    if a < regs.entries.len() && b < regs.entries.len() {
        regs.is_sub(a, b)
    } else {
        false
    }
}

fn store_word(w: &Word) -> (r: bool)
    ensures
        r == is_store(wview(*w)),
{
    match w {
        Word::Operator(Operations::WeakEqual) | Word::Operator(Operations::Equal) => true,
        _ => false,
    }
}

/// Whether `ts` reads (`write == false`) or stores to (`write == true`) a
/// register within `idx`.
fn uses_reg(regs: &Registers, ts: &Vec<Word>, idx: usize, write: bool) -> (r: bool)
    requires
        regs.wf(),
    ensures
        r == if write {
            writes_reg(*regs, words_view(ts@), idx)
        } else {
            reads_reg(*regs, words_view(ts@), idx)
        },
{
    let ghost v = words_view(ts@);
    let n = ts.len();
    let mut i: usize = 0;
    while i < n
        invariant
            regs.wf(),
            n == ts@.len(),
            v == words_view(ts@),
            i <= n,
            forall|j: int|
                0 <= j < i ==> !((if write { written_at(v, j) } else { read_at(v, j) }) && sub_spec(
                    *regs,
                    reg_at(v, j),
                    idx,
                )),
        decreases n - i,
    {
        if i + 1 < n {
            if let Word::Register(r) = &ts[i] {
                let st = store_word(&ts[i + 1]);
                if st == write && is_sub_checked(regs, *r, idx) {
                    assert(v[i as int] == WordView::Register(*r));
                    if write {
                        assert(written_at(v, i as int));
                    } else {
                        assert(read_at(v, i as int));
                    }
                    return true;
                }
            }
        }
        i = i + 1;
    }
    proof {
        if write {
            assert forall|j: int| #[trigger] written_at(v, j) implies !sub_spec(*regs, reg_at(v, j), idx) by {}
        } else {
            assert forall|j: int| #[trigger] read_at(v, j) implies !sub_spec(*regs, reg_at(v, j), idx) by {}
        }
    }
    false
}

fn span_of(w: &Word) -> (r: usize)
    ensures
        r as int == flag_span(wview(*w)),
{
    match w {
        Word::Operator(Operations::Zero) | Word::Operator(Operations::Parity) => 3,
        Word::Operator(Operations::Carry) | Word::Operator(Operations::Borrow)
        | Word::Operator(Operations::Overflow) | Word::Operator(Operations::S) => 4,
        _ => 0,
    }
}

fn is_dead_flag(regs: &Registers, prev: &Vec<Word>, cur: &Vec<Word>, i: usize) -> (r: bool)
    requires
        regs.wf(),
    ensures
        r == dead_flag(*regs, words_view(prev@), words_view(cur@), i as int),
{
    if i < 2 || i >= prev.len() {
        return false;
    }
    match (&prev[i], &prev[i - 1]) {
        (Word::Operator(Operations::WeakEqual), Word::Register(idx)) => {
            let span = span_of(&prev[i - 2]);
            span > 0 && i + 1 >= span && !uses_reg(regs, cur, *idx, false) && uses_reg(regs, cur, *idx, true)
        },
        _ => false,
    }
}

fn is_dropped(regs: &Registers, prev: &Vec<Word>, cur: &Vec<Word>, k: usize) -> (r: bool)
    requires
        regs.wf(),
        k < prev@.len(),
    ensures
        r == dropped(*regs, words_view(prev@), words_view(cur@), k as int),
{
    let ghost pv = words_view(prev@);
    let ghost cv = words_view(cur@);
    if let Word::Operator(Operations::NoOperation) = &prev[k] {
        return true;
    }
    let mut d: usize = 0;
    while d < 4
        invariant
            regs.wf(),
            k < prev@.len(),
            d <= 4,
            pv == words_view(prev@),
            cv == words_view(cur@),
            forall|e: int| 0 <= e < d ==> !(#[trigger] dead_flag(*regs, pv, cv, k + e) && e < flag_span(pv[k + e - 2])),
        decreases 4 - d,
    {
        if d < prev.len() - k && is_dead_flag(regs, prev, cur, k + d) {
            if d < span_of(&prev[k + d - 2]) {
                return true;
            }
        }
        proof {
            if !(d < prev.len() - k) {
                assert(!dead_flag(*regs, pv, cv, k + d));
            }
        }
        d = d + 1;
    }
    false
}

impl Processor {
    /// Drops from the instruction cached at `prev_pc` the no-ops and the
    /// flag stores that the instruction `curr_instr` overwrites unread.
    pub fn optimize(&mut self, state: &mut State, prev_pc: u64, curr_instr: &InstructionEntry)
        requires
            old(state).wf(),
        ensures
            *final(state) == *old(state),
            final(self).instructions@.dom() == old(self).instructions@.dom(),
            !old(self).instructions@.contains_key(prev_pc) || !has_weak_store(
                words_view(old(self).instructions@[prev_pc].tokens@),
            ) || !has_weak_store(words_view(curr_instr.tokens@)) ==> final(self).instructions
                == old(self).instructions,
            forall|a: u64|
                a != prev_pc && old(self).instructions@.contains_key(a) ==> #[trigger] final(self).instructions@[a]
                    == old(self).instructions@[a],
            old(self).instructions@.contains_key(prev_pc) ==> ({
                let o = old(self).instructions@[prev_pc];
                let e = final(self).instructions@[prev_pc];
                &&& e.status == o.status
                &&& e.instruction.offset == o.instruction.offset
                &&& e.instruction.size == o.instruction.size
                &&& e.instruction.jump == o.instruction.jump
                &&& e.instruction.fail == o.instruction.fail
                &&& e.instruction.type_num == o.instruction.type_num
                &&& e.instruction.esil@ == o.instruction.esil@
                &&& e.instruction.disasm@ == o.instruction.disasm@
                &&& e.instruction.bytes@ == o.instruction.bytes@
                &&& words_view(e.tokens@) == optimize_spec(
                    old(state).registers,
                    words_view(o.tokens@),
                    words_view(curr_instr.tokens@),
                )
            }),
            final(self).selfmodify == old(self).selfmodify,
            final(self).optimized == old(self).optimized,
            final(self).hooks == old(self).hooks,
            final(self).sims == old(self).sims,
            final(self).traps == old(self).traps,
            final(self).syscalls == old(self).syscalls,
            final(self).breakpoints == old(self).breakpoints,
            final(self).mergepoints == old(self).mergepoints,
            final(self).avoidpoints == old(self).avoidpoints,
            final(self).merges == old(self).merges,
            final(self).cc == old(self).cc,
            final(self).syscall_cc == old(self).syscall_cc,
            final(self).ret_tokens == old(self).ret_tokens,
            final(self).lazy == old(self).lazy,
            final(self).force == old(self).force,
            final(self).debug == old(self).debug,
            final(self).topological == old(self).topological,
            final(self).steps == old(self).steps,
    {
        let new_entry = match self.instructions.get(&prev_pc) {
            None => return,
            Some(prev_instr) => {
                if !contains_weak_store(&prev_instr.tokens) || !contains_weak_store(&curr_instr.tokens) {
                    return;
                }
                let ghost pv = words_view(prev_instr.tokens@);
                let ghost cv = words_view(curr_instr.tokens@);
                let regs = &state.registers;
                let mut new_tokens: Vec<Word> = Vec::new();
                let mut k: usize = 0;
                while k < prev_instr.tokens.len()
                    invariant
                        regs.wf(),
                        k <= prev_instr.tokens@.len(),
                        pv == words_view(prev_instr.tokens@),
                        cv == words_view(curr_instr.tokens@),
                        words_view(new_tokens@) == kept(*regs, pv, cv, k as int),
                    decreases prev_instr.tokens@.len() - k,
                {
                    if !is_dropped(regs, &prev_instr.tokens, &curr_instr.tokens, k) {
                        let w = prev_instr.tokens[k].duplicate();
                        new_tokens.push(w);
                        assert(words_view(new_tokens@) =~= kept(*regs, pv, cv, k as int).push(pv[k as int]));
                    }
                    k = k + 1;
                }
                let p = &prev_instr.instruction;
                InstructionEntry {
                    instruction: Instruction {
                        offset: p.offset,
                        size: p.size,
                        jump: p.jump,
                        fail: p.fail,
                        type_num: p.type_num,
                        esil: copy_bytes(&p.esil),
                        disasm: copy_bytes(&p.disasm),
                        bytes: copy_bytes(&p.bytes),
                    },
                    tokens: new_tokens,
                    status: prev_instr.status,
                }
            },
        };
        self.instructions.insert(prev_pc, new_entry);
    }
}

} // verus!
