use vstd::prelude::*;
use crate::memory::{byte_spec, Memory};
use crate::processor::{MergeSlot, Processor};
use crate::executor::{step_executed, successors_spec};
use crate::registers::Registers;
use crate::state::{State, StateStatus};
use crate::engine::{needs_outside, same_config};
use crate::value::{
    conditional, conditional_spec, eval, lemma_conditional_sound, value_eval, BinOp, Term, Value,
};

verus! {

broadcast use vstd::std_specs::hash::group_hash_axioms;

/// The conjunction of a path's constraints (true for none).
pub open spec fn and_all_spec(ts: Seq<Term>) -> Term
    decreases ts.len(),
{
    if ts.len() == 0 {
        Term::Const(1)
    } else {
        Term::Binary(BinOp::LogicAnd, Box::new(and_all_spec(ts.drop_last())), Box::new(ts.last()))
    }
}

/// The concrete PC of a state, if it has one.
pub open spec fn pc_of(s: State) -> Option<u64> {
    match s.registers.read_spec(s.registers.pc as int) {
        Value::Concrete(c, _) => Some(c),
        Value::Symbolic(_, _) => None,
    }
}

/// Index of the slot parked at `pc`, from `i` on.
pub open spec fn slot_index(ms: Seq<MergeSlot>, pc: u64, i: nat) -> Option<nat>
    decreases ms.len() - i,
{
    if i >= ms.len() {
        None
    } else if ms[i as int].pc == pc {
        Some(i)
    } else {
        slot_index(ms, pc, i + 1)
    }
}

/// A state that combines `parked` with `state`, which came by another path:
/// each register and byte is an if-then-else on `state`'s path constraints,
/// and the constraints are those of either path.
pub open spec fn merged_from(parked: State, state: State, t: State) -> bool {
    let a = Value::Symbolic(and_all_spec(state.assertions@), 0);
    &&& t.wf()
    &&& t.registers.same_layout(parked.registers)
    &&& t.registers.values@.len() == parked.registers.values@.len()
    &&& forall|i: int|
        0 <= i < t.registers.values@.len() ==> #[trigger] t.registers.values@[i] == if i
            < state.registers.values@.len() {
            conditional_spec(a, state.registers.values@[i], parked.registers.values@[i])
        } else {
            parked.registers.values@[i]
        }
    &&& forall|addr: u64|
        #[trigger] t.memory.mem@.contains_key(addr) <==> (parked.memory.mem@.contains_key(addr)
            || state.memory.mem@.contains_key(addr))
    &&& forall|addr: u64|
        #[trigger] t.memory.mem@.contains_key(addr) ==> t.memory.mem@[addr] == conditional_spec(
            a,
            byte_spec(state.memory.mem@, addr),
            byte_spec(parked.memory.mem@, addr),
        )
    &&& t.assertions@ == seq![
        Term::Binary(
            BinOp::LogicOr,
            Box::new(and_all_spec(parked.assertions@)),
            Box::new(and_all_spec(state.assertions@)),
        ),
    ]
    &&& t.backtrace@ == parked.backtrace@
    &&& t.status == parked.status
}

/// A merged state agrees with the state that arrived last wherever that
/// state's path constraints hold, and with the parked one elsewhere: for
/// every assignment, each register of the merge denotes what it denotes in
/// the state selected by the constraints.
pub proof fn lemma_merge_selects(parked: State, state: State, t: State, env: Map<u64, u64>, i: int)
    requires
        merged_from(parked, state, t),
        0 <= i < t.registers.values@.len(),
        i < state.registers.values@.len(),
    ensures
        value_eval(t.registers.values@[i], env) == if eval(and_all_spec(state.assertions@), env) != 0 {
            value_eval(state.registers.values@[i], env)
        } else {
            value_eval(parked.registers.values@[i], env)
        },
{
    let a = Value::Symbolic(and_all_spec(state.assertions@), 0);
    assert(t.registers.values@[i] == conditional_spec(a, state.registers.values@[i], parked.registers.values@[i]));
    lemma_conditional_sound(a, state.registers.values@[i], parked.registers.values@[i], env);
}

proof fn lemma_slot_absent(ms: Seq<MergeSlot>, pc: u64, i: nat)
    requires
        slot_index(ms, pc, i) is None,
    ensures
        forall|k: int| i <= k < ms.len() ==> (#[trigger] ms[k]).pc != pc,
    decreases ms.len() - i,
{
    if i < ms.len() {
        lemma_slot_absent(ms, pc, i + 1);
    }
}

/// What merging `state` does to the parked slots `ms`: a state without a
/// concrete PC is dropped; the first at its PC is parked at the end; a
/// second is merged into the slot parked there.
pub open spec fn merge_post(ms: Seq<MergeSlot>, state: State, ms2: Seq<MergeSlot>) -> bool {
    &&& (pc_of(state) is None ==> ms2 == ms)
    &&& (pc_of(state) is Some && slot_index(ms, pc_of(state)->0, 0) is None ==> ms2 == ms.push(ms2.last())
        && ms2.last().pc == pc_of(state)->0 && ms2.last().state == state)
    &&& (pc_of(state) is Some && slot_index(ms, pc_of(state)->0, 0) is Some ==> ({
        let k = slot_index(ms, pc_of(state)->0, 0)->0 as int;
        &&& ms2 == ms.update(k, ms2[k])
        &&& ms2[k].pc == pc_of(state)->0
        &&& merged_from(ms[k].state, state, ms2[k].state)
    }))
}

/// `b` is `a` with the status `st`.
pub open spec fn with_status(a: State, b: State, st: StateStatus) -> bool {
    &&& b.registers == a.registers
    &&& b.memory == a.memory
    &&& b.filesystem == a.filesystem
    &&& b.backtrace == a.backtrace
    &&& b.stack == a.stack
    &&& b.esil == a.esil
    &&& b.condition == a.condition
    &&& b.assertions == a.assertions
    &&& b.crash == a.crash
    &&& b.status == st
}

pub open spec fn is_running(s: State) -> bool {
    s.status == StateStatus::Active || s.status == StateStatus::PostMerge
}

/// The state one scheduler turn works on: the head of the worklist `wl`,
/// or, when it is empty, the last parked merge (as just merged); with the
/// worklist and the parked slots that remain.
pub open spec fn taken(wl: Seq<State>, ms: Seq<MergeSlot>, cur: State, wl1: Seq<State>, ms1: Seq<MergeSlot>) -> bool {
    if wl.len() > 0 {
        cur == wl[0] && wl1 == wl.drop_first() && ms1 == ms
    } else {
        ms.len() > 0 && with_status(ms.last().state, cur, StateStatus::PostMerge) && wl1 == wl && ms1 == ms.drop_last()
    }
}

/// A scheduler turn that goes on, from worklist `wl` and slots `ms` to
/// `wl2` and `ms2`: a running state is stepped and its successors queued at
/// the back; a state at a merge point is merged; any other is dropped.
pub open spec fn sched_step(p: Processor, wl: Seq<State>, ms: Seq<MergeSlot>, wl2: Seq<State>, ms2: Seq<MergeSlot>) -> bool {
    exists|cur: State, wl1: Seq<State>, ms1: Seq<MergeSlot>|
        #[trigger] taken(wl, ms, cur, wl1, ms1) && {
            ||| (is_running(cur) && !needs_outside(p, cur) && ms2 == ms1 && exists|
                q1: Processor,
                q2: Processor,
                mid: State,
                succ: Seq<State>,
            |
                #![trigger step_executed(q1, cur, mid), successors_spec(q2, mid, succ)]
                same_config(q1, p) && same_config(q2, p) && step_executed(q1, cur, mid) && successors_spec(
                    q2,
                    mid,
                    succ,
                ) && wl2 == wl1 + succ)
            ||| (cur.status == StateStatus::Merge && wl2 == wl1 && merge_post(ms1, cur, ms2))
            ||| (!is_running(cur) && cur.status != StateStatus::Merge && cur.status != StateStatus::Break && wl2
                == wl1 && ms2 == ms1)
        }
}

/// A scheduler turn that ends the run with `r`, leaving the slots `msf`:
/// nothing is left; a running state needs decoding or the solver and is
/// handed back in front of the rest; or a state reached a breakpoint and
/// is returned alone.
pub open spec fn sched_stop(p: Processor, wl: Seq<State>, ms: Seq<MergeSlot>, r: Seq<State>, msf: Seq<MergeSlot>) -> bool {
    ||| (wl.len() == 0 && ms.len() == 0 && r.len() == 0 && msf == ms)
    ||| exists|cur: State, wl1: Seq<State>, ms1: Seq<MergeSlot>|
        #[trigger] taken(wl, ms, cur, wl1, ms1) && msf == ms1 && ((is_running(cur) && needs_outside(p, cur) && r
            == seq![cur] + wl1) || (cur.status == StateStatus::Break && r == seq![cur]))
}

pub open spec fn sched_ok(p: Processor, wls: Seq<Seq<State>>, mss: Seq<Seq<MergeSlot>>, k: int) -> bool {
    sched_step(p, wls[k], mss[k], wls[k + 1], mss[k + 1])
}

/// `wls` and `mss` record the worklist and parked slots before each turn.
pub open spec fn sched_trace(p: Processor, wls: Seq<Seq<State>>, mss: Seq<Seq<MergeSlot>>) -> bool {
    &&& wls.len() == mss.len()
    &&& wls.len() >= 1
    &&& forall|k: int| 0 <= k < wls.len() - 1 ==> #[trigger] sched_ok(p, wls, mss, k)
}

/// A run from `state` went through the turns `wls`/`mss` (each taken
/// while the loop went on) and ended with `r` and the slots `msf`.
pub open spec fn run_post(p: Processor, state: State, split: bool, max_steps: u64, wls: Seq<Seq<State>>, mss: Seq<Seq<MergeSlot>>, r: Seq<State>, msf: Seq<MergeSlot>) -> bool {
    &&& sched_trace(p, wls, mss)
    &&& wls[0] == seq![state]
    &&& mss[0] == p.merges@
    &&& forall|k: int| 0 <= k < wls.len() - 1 ==> !split || (#[trigger] wls[k]).len() == 1
    &&& sched_end(p, split, max_steps, wls, mss, r, msf)
}

/// How a run that went through the turns `wls`/`mss` ended with `r` and the
/// slots `msf`: a turn stopped it, or the budget of `max_steps` turns (or,
/// with `split`, a worklist of other than one state) ended it with the
/// worklist as it stands; an empty worklist with parked merges then gives
/// back the last of them.
pub open spec fn sched_end(p: Processor, split: bool, max_steps: u64, wls: Seq<Seq<State>>, mss: Seq<Seq<MergeSlot>>, r: Seq<State>, msf: Seq<MergeSlot>) -> bool {
    let wl = wls.last();
    let ms = mss.last();
    ||| (wls.len() <= max_steps && (!split || wl.len() == 1) && sched_stop(p, wl, ms, r, msf))
    ||| ((wls.len() == max_steps + 1 || (split && wl.len() != 1)) && !(!split && wl.len() == 0 && ms.len() > 0)
        && r == wl && msf == ms)
    ||| (!split && wls.len() == max_steps + 1 && wl.len() == 0 && ms.len() > 0 && r.len() == 1 && with_status(
        ms.last().state,
        r[0],
        StateStatus::PostMerge,
    ) && msf == ms.drop_last())
}

proof fn lemma_sched_extend(p: Processor, wls: Seq<Seq<State>>, mss: Seq<Seq<MergeSlot>>, wl2: Seq<State>, ms2: Seq<MergeSlot>)
    requires
        sched_trace(p, wls, mss),
        sched_step(p, wls.last(), mss.last(), wl2, ms2),
    ensures
        sched_trace(p, wls.push(wl2), mss.push(ms2)),
{
    let w = wls.push(wl2);
    let m = mss.push(ms2);
    assert forall|k: int| 0 <= k < w.len() - 1 implies #[trigger] sched_ok(p, w, m, k) by {
        if k < wls.len() - 1 {
            assert(sched_ok(p, wls, mss, k));
            assert(w[k] == wls[k] && w[k + 1] == wls[k + 1] && m[k] == mss[k] && m[k + 1] == mss[k + 1]);
        } else {
            assert(w[k] == wls.last() && w[k + 1] == wl2 && m[k] == mss.last() && m[k + 1] == ms2);
        }
    }
}

pub fn and_all(ts: &Vec<Term>) -> (r: Term)
    ensures
        r == and_all_spec(ts@),
{
    let mut acc = Term::Const(1);
    let mut i: usize = 0;
    while i < ts.len()
        invariant
            i <= ts@.len(),
            acc == and_all_spec(ts@.subrange(0, i as int)),
        decreases ts@.len() - i,
    {
        acc = Term::Binary(BinOp::LogicAnd, Box::new(acc), Box::new(ts[i].duplicate()));
        proof {
            assert(ts@.subrange(0, i + 1).drop_last() =~= ts@.subrange(0, i as int));
        }
        i = i + 1;
    }
    assert(ts@.subrange(0, i as int) =~= ts@);
    acc
}

fn merge_memory(parked: &Memory, state: &Memory, a: &Value) -> (r: Memory)
    requires
        parked.wf(),
        state.wf(),
    ensures
        r.wf(),
        r.segments@ == parked.segments@,
        r.check == parked.check,
        forall|addr: u64|
            #[trigger] r.mem@.contains_key(addr) <==> (parked.mem@.contains_key(addr) || state.mem@.contains_key(
                addr,
            )),
        forall|addr: u64|
            #[trigger] r.mem@.contains_key(addr) ==> r.mem@[addr] == conditional_spec(
                *a,
                byte_spec(state.mem@, addr),
                byte_spec(parked.mem@, addr),
            ),
{
    let copy = parked.duplicate();
    let mut r = Memory::new(parked.check);
    r.segments = copy.segments;
    let first = parked.addresses();
    let second = state.addresses();
    let mut all = crate::state::copy_words(&first);
    let mut rest = crate::state::copy_words(&second);
    all.append(&mut rest);
    assert(all@ =~= first@ + second@);
    let mut i: usize = 0;
    while i < all.len()
        invariant
            all@ == first@ + second@,
            r.wf(),
            r.segments@ == parked.segments@,
            r.check == parked.check,
            i <= first@.len() + second@.len(),
            forall|addr: u64| parked.mem@.contains_key(addr) <==> first@.contains(addr),
            forall|addr: u64| state.mem@.contains_key(addr) <==> second@.contains(addr),
            forall|addr: u64|
                #[trigger] r.mem@.contains_key(addr) <==> exists|k: int|
                    0 <= k < i && (first@ + second@)[k] == addr,
            forall|addr: u64|
                #[trigger] r.mem@.contains_key(addr) ==> r.mem@[addr] == conditional_spec(
                    *a,
                    byte_spec(state.mem@, addr),
                    byte_spec(parked.mem@, addr),
                ),
        decreases first@.len() + second@.len() - i,
    {
        let addr = all[i];
        let v = conditional(a, &state.read_byte(addr), &parked.read_byte(addr));
        r.write_byte(addr, v);
        proof {
            assert forall|b: u64| #[trigger] r.mem@.contains_key(b) implies exists|k: int|
                0 <= k < i + 1 && (first@ + second@)[k] == b by {
                if b == addr {
                    assert((first@ + second@)[i as int] == b);
                }
            }
        }
        i = i + 1;
    }
    proof {
        assert forall|addr: u64| #[trigger] r.mem@.contains_key(addr) <==> (parked.mem@.contains_key(addr)
            || state.mem@.contains_key(addr)) by {
            if parked.mem@.contains_key(addr) {
                assert(first@.contains(addr));
                let k = choose|k: int| 0 <= k < first@.len() && first@[k] == addr;
                assert((first@ + second@)[k] == addr);
            }
            if state.mem@.contains_key(addr) {
                assert(second@.contains(addr));
                let k = choose|k: int| 0 <= k < second@.len() && second@[k] == addr;
                assert((first@ + second@)[first@.len() + k] == addr);
            }
            if r.mem@.contains_key(addr) {
                let k = choose|k: int| 0 <= k < i && (first@ + second@)[k] == addr;
                if k < first@.len() {
                    assert(first@[k] == addr);
                    assert(first@.contains(addr));
                } else {
                    assert(second@[k - first@.len()] == addr);
                    assert(second@.contains(addr));
                }
            }
        }
    }
    r
}

fn merge_registers(parked: &Registers, state: &Registers, a: &Value) -> (r: Registers)
    requires
        parked.wf(),
    ensures
        r.wf(),
        r.same_layout(*parked),
        r.values@.len() == parked.values@.len(),
        forall|i: int|
            0 <= i < r.values@.len() ==> #[trigger] r.values@[i] == if i < state.values@.len() {
                conditional_spec(*a, state.values@[i], parked.values@[i])
            } else {
                parked.values@[i]
            },
{
    let mut r = parked.duplicate();
    let mut values: Vec<Value> = Vec::new();
    let mut i: usize = 0;
    while i < parked.values.len()
        invariant
            i <= parked.values@.len(),
            values@.len() == i,
            forall|j: int|
                0 <= j < i ==> #[trigger] values@[j] == if j < state.values@.len() {
                    conditional_spec(*a, state.values@[j], parked.values@[j])
                } else {
                    parked.values@[j]
                },
        decreases parked.values@.len() - i,
    {
        let v = if i < state.values.len() {
            conditional(a, &state.values[i], &parked.values[i])
        } else {
            parked.values[i].duplicate()
        };
        values.push(v);
        i = i + 1;
    }
    r.values = values;
    proof {
        assert forall|k: int| 0 <= k < r.entries.len() implies crate::registers::entry_wf(
            #[trigger] r.entries[k],
            r.values@.len(),
        ) by {
            assert(crate::registers::entry_wf(parked.entries[k], parked.values@.len()));
        }
    }
    r
}

impl Processor {
    pub open spec fn merges_wf(&self) -> bool {
        &&& forall|i: int| 0 <= i < self.merges@.len() ==> (#[trigger] self.merges@[i]).state.wf()
        &&& forall|i: int, j: int|
            0 <= i < j < self.merges@.len() ==> (#[trigger] self.merges@[i]).pc != (#[trigger] self.merges@[j]).pc
    }

    /// Parks `state` at its PC, or merges it into the state parked there.
    pub fn merge(&mut self, state: State)
        requires
            old(self).merges_wf(),
            state.wf(),
        ensures
            final(self).merges_wf(),
            final(self).instructions == old(self).instructions,
            final(self).breakpoints == old(self).breakpoints,
            final(self).steps == old(self).steps,
            merge_post(old(self).merges@, state, final(self).merges@),
            same_config(*final(self), *old(self)),
            final(self).steps == old(self).steps,
    {
        let pc = match state.registers.get_pc().as_u64() {
            Some(pc) => pc,
            None => return,
        };
        let mut k: usize = 0;
        while k < self.merges.len() && self.merges[k].pc != pc
            invariant
                k <= self.merges@.len(),
                slot_index(self.merges@, pc, 0) == slot_index(self.merges@, pc, k as nat),
            decreases self.merges@.len() - k,
        {
            k = k + 1;
        }
        if k == self.merges.len() {
            proof {
                lemma_slot_absent(self.merges@, pc, 0);
            }
            self.merges.push(MergeSlot { pc, state });
            proof {
                assert forall|i: int| 0 <= i < self.merges@.len() implies (#[trigger] self.merges@[i]).state.wf() by {
                    if i < old(self).merges@.len() {
                        assert(self.merges@[i] == old(self).merges@[i]);
                    }
                }
                assert forall|i: int, j: int| 0 <= i < j < self.merges@.len() implies (#[trigger] self.merges@[i]).pc
                    != (#[trigger] self.merges@[j]).pc by {
                    if j < old(self).merges@.len() {
                        assert(self.merges@[i] == old(self).merges@[i] && self.merges@[j] == old(self).merges@[j]);
                    } else {
                        assert(self.merges@[i] == old(self).merges@[i]);
                    }
                }
                assert(self.merges@ =~= old(self).merges@.push(self.merges@.last()));
            }
            return;
        }
        assert(old(self).merges@[k as int].state.wf());
        let slot = self.merges.remove(k);
        let parked = slot.state;
        let assertion = and_all(&state.assertions);
        let asserted = Value::Symbolic(assertion.duplicate(), 0);
        let registers = merge_registers(&parked.registers, &state.registers, &asserted);
        let memory = merge_memory(&parked.memory, &state.memory, &asserted);
        let current = and_all(&parked.assertions);
        let mut assertions: Vec<Term> = Vec::new();
        assertions.push(Term::Binary(BinOp::LogicOr, Box::new(current), Box::new(assertion)));
        let mut merged = parked;
        merged.registers = registers;
        merged.memory = memory;
        merged.assertions = assertions;
        self.merges.insert(k, MergeSlot { pc, state: merged });
        proof {
            assert(self.merges@ =~= old(self).merges@.update(k as int, self.merges@[k as int]));
            assert forall|i: int, j: int| 0 <= i < j < self.merges@.len() implies (#[trigger] self.merges@[i]).pc
                != (#[trigger] self.merges@[j]).pc by {
                assert(old(self).merges@[i].pc != old(self).merges@[j].pc);
            }
            assert forall|i: int| 0 <= i < self.merges@.len() implies (#[trigger] self.merges@[i]).state.wf() by {
                if i < k {
                    assert(self.merges@[i] == old(self).merges@[i]);
                } else if i > k {
                    assert(self.merges@[i] == old(self).merges@[i]);
                }
            }
        }
    }

    /// Runs states from `state` until one reaches a breakpoint (then only
    /// that one is returned), none is left, `split` is set and the states
    /// fork, or `max_steps` turns are taken. A state whose PC is symbolic,
    /// or whose next instruction must be decoded, is handed back in front
    /// of the others for the caller to supply that.
    pub fn run(&mut self, state: State, split: bool, max_steps: u64) -> (r: Vec<State>)
        requires
            old(self).merges_wf(),
            state.wf(),
            old(self).steps + max_steps <= u64::MAX,
        ensures
            final(self).merges_wf(),
            forall|i: int| 0 <= i < r@.len() ==> (#[trigger] r@[i]).wf(),
            same_config(*final(self), *old(self)),
            exists|wls: Seq<Seq<State>>, mss: Seq<Seq<MergeSlot>>|
                #[trigger] run_post(*old(self), state, split, max_steps, wls, mss, r@, final(self).merges@),
    {
        let ghost p0 = *self;
        let ghost s_in = state;
        let mut states: Vec<State> = Vec::new();
        states.push(state);
        let mut steps = max_steps;
        let ghost mut wls: Seq<Seq<State>> = seq![states@];
        let ghost mut mss: Seq<Seq<MergeSlot>> = seq![self.merges@];
        assert(states@ =~= seq![s_in]);
        assert(sched_trace(p0, wls, mss));
        while (!split || states.len() == 1) && steps > 0
            invariant
                self.merges_wf(),
                forall|i: int| 0 <= i < states@.len() ==> (#[trigger] states@[i]).wf(),
                steps <= max_steps,
                self.steps == old(self).steps + (max_steps - steps),
                old(self).steps + max_steps <= u64::MAX,
                p0 == *old(self),
                s_in == state,
                same_config(*self, p0),
                sched_trace(p0, wls, mss),
                wls[0] == seq![s_in],
                mss[0] == p0.merges@,
                wls.last() == states@,
                mss.last() == self.merges@,
                wls.len() == max_steps - steps + 1,
                forall|k: int| 0 <= k < wls.len() - 1 ==> !split || (#[trigger] wls[k]).len() == 1,
            decreases steps,
        {
            let ghost wl = states@;
            let ghost ms = self.merges@;
            let ghost wls0 = wls;
            steps = steps - 1;
            self.steps = self.steps + 1;
            let current = if states.len() == 0 {
                match self.merges.pop() {
                    None => {
                        assert(sched_stop(p0, wl, ms, Seq::<State>::empty(), self.merges@));
                        assert(wls.len() <= max_steps);
                        assert(run_post(*old(self), state, split, max_steps, wls, mss, Seq::<State>::empty(), self.merges@));
                        let out: Vec<State> = Vec::new();
                        assert(out@ =~= Seq::<State>::empty());
                        return out;
                    },
                    Some(slot) => {
                        proof {
                            assert(ms[ms.len() - 1].state.wf());
                            assert forall|i: int| 0 <= i < self.merges@.len() implies (#[trigger] self.merges@[i]).state.wf() by {
                                assert(self.merges@[i] == ms[i]);
                            }
                            assert forall|i: int, j: int| 0 <= i < j < self.merges@.len() implies (#[trigger] self.merges@[i]).pc
                                != (#[trigger] self.merges@[j]).pc by {
                                assert(self.merges@[i] == ms[i] && self.merges@[j] == ms[j]);
                            }
                            assert(self.merges@ =~= ms.drop_last());
                        }
                        let mut m = slot.state;
                        m.status = StateStatus::PostMerge;
                        m
                    },
                }
            } else {
                let c = states.remove(0);
                assert(states@ =~= wl.drop_first());
                c
            };
            let ghost cur = current;
            let ghost wl1 = states@;
            let ghost ms1 = self.merges@;
            assert(taken(wl, ms, cur, wl1, ms1));
            match current.status {
                StateStatus::Active | StateStatus::PostMerge => {
                    let outside = match current.registers.get_pc().as_u64() {
                        None => true,
                        Some(pc) => self.needs_decode(&current, pc),
                    };
                    if outside {
                        states.insert(0, current);
                        assert(states@ =~= seq![cur] + wl1);
                        assert(sched_stop(p0, wl, ms, states@, self.merges@));
                        assert(run_post(*old(self), state, split, max_steps, wls, mss, states@, self.merges@));
                        return states;
                    }
                    let ghost before_step = *self;
                    let mut next = self.step(current, Vec::new());
                    let ghost succ = next@;
                    proof {
                        let mid = choose|mid: State|
                            mid.wf() && step_executed(*self, cur, mid) && #[trigger] successors_spec(before_step, mid, succ);
                        assert(step_executed(*self, cur, mid) && successors_spec(before_step, mid, succ));
                    }
                    states.append(&mut next);
                    proof {
                        assert(states@ == wl1 + succ);
                        assert forall|i: int| 0 <= i < states@.len() implies (#[trigger] states@[i]).wf() by {
                            if i < wl1.len() {
                                assert(states@[i] == wl1[i]);
                            } else {
                                assert(states@[i] == succ[i - wl1.len()]);
                            }
                        }
                        assert(sched_step(p0, wl, ms, states@, self.merges@));
                    }
                },
                StateStatus::Merge => {
                    self.merge(current);
                    assert(sched_step(p0, wl, ms, states@, self.merges@));
                },
                StateStatus::Break => {
                    let mut out: Vec<State> = Vec::new();
                    out.push(current);
                    assert(out@ =~= seq![cur]);
                    assert(sched_stop(p0, wl, ms, out@, self.merges@));
                    assert(run_post(*old(self), state, split, max_steps, wls, mss, out@, self.merges@));
                    return out;
                },
                _ => {
                    assert(sched_step(p0, wl, ms, states@, self.merges@));
                },
            }
            proof {
                lemma_sched_extend(p0, wls, mss, states@, self.merges@);
                wls = wls.push(states@);
                mss = mss.push(self.merges@);
            }
        }
        if !split && states.len() == 0 && self.merges.len() > 0 {
            let ghost ms = self.merges@;
            match self.merges.pop() {
                Some(slot) => {
                    proof {
                        assert forall|i: int| 0 <= i < self.merges@.len() implies (#[trigger] self.merges@[i]).state.wf() by {
                            assert(self.merges@[i] == ms[i]);
                        }
                        assert forall|i: int, j: int| 0 <= i < j < self.merges@.len() implies (#[trigger] self.merges@[i]).pc
                            != (#[trigger] self.merges@[j]).pc by {
                            assert(self.merges@[i] == ms[i] && self.merges@[j] == ms[j]);
                        }
                        assert(self.merges@ =~= ms.drop_last());
                        assert(ms[ms.len() - 1].state.wf());
                    }
                    let mut m = slot.state;
                    m.status = StateStatus::PostMerge;
                    let ghost mm = m;
                    let mut out: Vec<State> = Vec::new();
                    out.push(m);
                    assert(out@ =~= seq![mm]);
                    assert(run_post(*old(self), state, split, max_steps, wls, mss, out@, self.merges@));
                    return out;
                },
                None => {},
            }
        }
        assert(run_post(*old(self), state, split, max_steps, wls, mss, states@, self.merges@));
        states
    }
}

} // verus!
