use vstd::prelude::*;
use crate::engine::{needs_decode_spec, needs_outside, same_config, backtrace_after, effective_status, fall_through, pop_backtrace, pop_spec, staged_pcs};
use crate::evaluator::{conv_args, fresh_stack, frame, handler_outcome, handler_result, handler_start, parse_run, result_or_zero};
use crate::memory::Memory;
use crate::registers::Registers;
use crate::memory::PERM_EXEC;
use crate::processor::{words_view, Instruction, InstructionStatus, Processor, Word, WordView, CALL_TYPE, RETN_TYPE};
use crate::state::{EsilError, State, StateStatus};
use crate::value::{BinOp, Term, Value};

verus! {

broadcast use vstd::std_specs::hash::group_hash_axioms;

/// Memory checking is on and no executable segment covers the instruction.
pub open spec fn exec_denied(s: State, instr: Instruction) -> bool {
    s.memory.check && !(exists|i: int|
        0 <= i < s.memory.segments.len() && #[trigger] s.memory.segments[i].start <= instr.offset
            && instr.offset + instr.size <= s.memory.segments[i].end && s.memory.segments[i].perms
            & PERM_EXEC != 0)
}

/// The status of a state once `instr` has run with `status` (before any
/// evaluation error).
pub open spec fn status_after(p: Processor, s: State, instr: Instruction, status: InstructionStatus) -> StateStatus {
    match effective_status(p, s, instr, status) {
        InstructionStatus::Break => StateStatus::Break,
        InstructionStatus::Merge => StateStatus::Merge,
        InstructionStatus::Avoid => StateStatus::Inactive,
        _ => if s.status == StateStatus::PostMerge && status == InstructionStatus::Merge {
            StateStatus::Active
        } else {
            s.status
        },
    }
}

/// What executing `instr` with `status` does to the state, as far as it
/// does not depend on the instruction's expression.
pub open spec fn execute_post(p: Processor, s: State, t: State, instr: Instruction, status: InstructionStatus) -> bool {
    &&& t.wf()
    &&& t.registers.same_layout(s.registers)
    &&& t.crash == s.crash
    &&& (exec_denied(s, instr) && s.crash ==> t.status == StateStatus::Inactive && t.backtrace == s.backtrace)
    &&& (!(exec_denied(s, instr) && s.crash) ==> {
        &&& t.backtrace@ == backtrace_after(p, s, instr, status)
        &&& t.status == status_after(p, s, instr, status)
        &&& t.esil.pcs@ == staged_pcs(instr)
        &&& (effective_status(p, s, instr, status) == InstructionStatus::Break
            || effective_status(p, s, instr, status) == InstructionStatus::Merge
            || effective_status(p, s, instr, status) == InstructionStatus::Avoid) ==> t.registers
            == s.registers && t.memory == s.memory && t.assertions == s.assertions
    })
}

/// A copy of the PC register set to `pc`, with the constraint that the
/// symbolic PC equals it, if it was symbolic.
pub open spec fn successor_of(s: State, pc_value: Value, pc: u64, t: State) -> bool {
    &&& t.wf()
    &&& t.registers.same_layout(s.registers)
    &&& t.registers.values@ == s.registers.write_spec(s.registers.pc as int, Value::Concrete(pc, 0))
    &&& t.memory.mem@ == s.memory.mem@
    &&& t.backtrace@ == s.backtrace@
    &&& t.status == s.status
    &&& t.crash == s.crash
    &&& t.assertions@ == match pc_value {
        Value::Symbolic(term, _) => s.assertions@.push(
            Term::Binary(BinOp::Eq, Box::new(term), Box::new(Term::Const(pc))),
        ),
        Value::Concrete(_, _) => s.assertions@,
    }
}

/// The successors of a state that has executed its instruction: with
/// forcing (or lazily, for a symbolic PC) one per staged candidate, else
/// the state itself, whose PC is then concrete or left for the solver.
pub open spec fn successors_spec(p: Processor, mid: State, r: Seq<State>) -> bool {
    let pcv = mid.registers.read_spec(mid.registers.pc as int);
    let staged = mid.esil.pcs@;
    let use_staged = (p.force && staged.len() > 0) || (!(pcv is Concrete) && p.lazy && staged.len() > 0);
    if use_staged {
        r.len() == staged.len() && forall|i: int| 0 <= i < r.len() ==> successor_of(mid, pcv, staged[i], #[trigger] r[i])
    } else {
        r.len() == 1 && r[0] == mid
    }
}

/// The state an instruction's expression is evaluated from: the PC set to
/// the fall-through address, the backtrace, status and staged targets
/// updated, everything else as before.
pub open spec fn prepared(p: Processor, s: State, instr: Instruction, status: InstructionStatus, pre: State) -> bool {
    &&& pre.registers.entries == s.registers.entries
    &&& pre.registers.pc == s.registers.pc
    &&& pre.registers.sn == s.registers.sn
    &&& pre.registers.values@ == s.registers.write_spec(
        s.registers.pc as int,
        Value::Concrete(fall_through(instr), 0),
    )
    &&& pre.memory == s.memory
    &&& pre.filesystem == s.filesystem
    &&& pre.backtrace@ == backtrace_after(p, s, instr, status)
    &&& pre.stack == s.stack
    &&& pre.esil.mode == s.esil.mode
    &&& pre.esil.pcs@ == staged_pcs(instr)
    &&& pre.condition == s.condition
    &&& pre.assertions == s.assertions
    &&& pre.status == status_after(p, s, instr, status)
    &&& pre.crash == s.crash
}

/// The instruction's tokens evaluated from the prepared state end in `t`
/// with `r`.
pub open spec fn evaluated(p: Processor, s: State, instr: Instruction, status: InstructionStatus, ws: Seq<WordView>, t: State, r: Result<(), EsilError>) -> bool {
    exists|pre: State, s0: State|
        prepared(p, s, instr, status, pre) && #[trigger] fresh_stack(pre, s0) && parse_run(s0, ws, false, t, r)
}

/// The state a simulation starts from: the caller's registers with the PC
/// at the fall-through address, and the caller's memory.
pub open spec fn sim_entry(regs: Registers, mem: Memory, new_pc: u64, s1: State) -> bool {
    &&& s1.registers.entries == regs.entries
    &&& s1.registers.pc == regs.pc
    &&& s1.registers.sn == regs.sn
    &&& s1.registers.values@ == regs.write_spec(regs.pc as int, Value::Concrete(new_pc, 0))
    &&& s1.memory == mem
}

/// After the simulation at `pc`: the handler ran from the entry state with
/// the calling convention's argument registers, and its result is in the
/// return register (zero when no handler is registered).
pub open spec fn sim_mid(p: Processor, regs: Registers, mem: Memory, pc: u64, new_pc: u64, mid: State) -> bool {
    &&& mid.wf()
    &&& exists|s1: State|
        #[trigger] sim_entry(regs, mem, new_pc, s1) && if p.sims@.contains_key(pc) {
            exists|s0: State, sf: State|
                #![trigger handler_start(s1, conv_args(s1.registers, p.cc.args@), s0), parse_run(s0, words_view(p.sims@[pc]@), true, sf, Ok(()))]
                handler_start(s1, conv_args(s1.registers, p.cc.args@), s0) && parse_run(
                    s0,
                    words_view(p.sims@[pc]@),
                    true,
                    sf,
                    Ok(()),
                ) && handler_outcome(s1, mid, sf, p.cc.ret, Ok(()), Ok(()))
        } else {
            &&& mid.memory == s1.memory
            &&& (p.cc.ret < s1.registers.entries@.len() ==> mid.registers.values@ == s1.registers.write_spec(
                p.cc.ret as int,
                Value::Concrete(0, 0),
            ))
            &&& (p.cc.ret >= s1.registers.entries@.len() ==> mid.registers == s1.registers)
        }
}

/// The simulation's handler failed with `r`.
pub open spec fn sim_failed(p: Processor, regs: Registers, mem: Memory, pc: u64, new_pc: u64, r: Result<(), EsilError>) -> bool {
    &&& p.sims@.contains_key(pc)
    &&& r is Err
    &&& exists|s1: State, s0: State, sf: State|
        #![trigger sim_entry(regs, mem, new_pc, s1), handler_start(s1, conv_args(s1.registers, p.cc.args@), s0), parse_run(s0, words_view(p.sims@[pc]@), true, sf, r)]
        sim_entry(regs, mem, new_pc, s1) && handler_start(s1, conv_args(s1.registers, p.cc.args@), s0) && parse_run(
            s0,
            words_view(p.sims@[pc]@),
            true,
            sf,
            r,
        )
}

/// A simulated call: its handler failed, or it ran and the return
/// expression follows when the handler left the PC at the fall-through.
pub open spec fn sim_return(p: Processor, regs: Registers, mem: Memory, pc: u64, new_pc: u64, t: State, r: Result<(), EsilError>) -> bool {
    ||| sim_failed(p, regs, mem, pc, new_pc, r)
    ||| exists|mid: State|
        #[trigger] sim_mid(p, regs, mem, pc, new_pc, mid) && (if match mid.registers.read_spec(mid.registers.pc as int) {
            Value::Concrete(c, _) => c == new_pc,
            Value::Symbolic(_, _) => false,
        } {
            exists|s0: State| #[trigger] fresh_stack(mid, s0) && parse_run(s0, words_view(p.ret_tokens@), false, t, r)
        } else {
            t == mid && r is Ok
        })
}

/// The hooks registered at `pc`, in order.
pub open spec fn hook_list(p: Processor, pc: u64) -> Seq<Vec<Word>> {
    if p.hooks@.contains_key(pc) {
        p.hooks@[pc]@
    } else {
        Seq::empty()
    }
}

/// Whether a hook's run asks to skip the instruction: it left a concrete
/// zero on top of its stack.
pub open spec fn asks_skip(sf: State) -> bool {
    match handler_result(sf) {
        Some(Value::Concrete(c, _)) => c == 0,
        _ => false,
    }
}

/// One hook ran from `a` with no arguments and took it to `b`; `stop` says
/// whether it asked to skip.
pub open spec fn hook_step(hook: Seq<WordView>, a: State, b: State, stop: bool) -> bool {
    exists|s0: State, sf: State|
        #![trigger handler_start(a, Seq::<Value>::empty(), s0), parse_run(s0, hook, true, sf, Ok(()))]
        handler_start(a, Seq::<Value>::empty(), s0) && parse_run(s0, hook, true, sf, Ok(())) && b.registers
            == sf.registers && b.memory == sf.memory && stop == asks_skip(sf)
}

/// A hook failed with `e` when run from `a`.
pub open spec fn hook_fails(hook: Seq<WordView>, a: State, e: EsilError) -> bool {
    exists|s0: State, sf: State|
        #![trigger handler_start(a, Seq::<Value>::empty(), s0), parse_run(s0, hook, true, sf, Err(e))]
        handler_start(a, Seq::<Value>::empty(), s0) && parse_run(s0, hook, true, sf, Err(e))
}

pub open spec fn hook_ok(list: Seq<Vec<Word>>, hs: Seq<State>, stops: Seq<bool>, k: int) -> bool {
    hook_step(words_view(list[k]@), hs[k], hs[k + 1], stops[k])
}

/// `hs` records the state before each hook in `list` and after the last
/// one run, `stops` what each asked.
pub open spec fn hooks_trace(list: Seq<Vec<Word>>, hs: Seq<State>, stops: Seq<bool>) -> bool {
    &&& hs.len() == stops.len() + 1
    &&& stops.len() <= list.len()
    &&& forall|k: int| 0 <= k < stops.len() ==> #[trigger] hook_ok(list, hs, stops, k)
}

pub open spec fn skip_any(stops: Seq<bool>) -> bool {
    exists|k: int| 0 <= k < stops.len() && stops[k]
}

/// How the hooks at `pc` ended, from the trace `hs`/`stops`: all ran, with
/// result `go` (no hook asked to skip); or the next one failed with `e`.
pub open spec fn hooks_end(list: Seq<Vec<Word>>, hs: Seq<State>, stops: Seq<bool>, r: Result<bool, EsilError>) -> bool {
    match r {
        Ok(go) => hs.len() == list.len() + 1 && go == !skip_any(stops),
        Err(e) => hs.len() <= list.len() && hook_fails(words_view(list[hs.len() - 1]@), hs.last(), e),
    }
}

/// A hooked instruction: from the prepared state, its hooks run in order;
/// then its tokens are evaluated unless a hook asked to skip them.
pub open spec fn hooked(p: Processor, s: State, instr: Instruction, status: InstructionStatus, ws: Seq<WordView>, t: State, r: Result<(), EsilError>) -> bool {
    exists|h0: State, hs: Seq<State>, stops: Seq<bool>, hr: Result<bool, EsilError>|
        #![trigger prepared(p, s, instr, status, h0), hooks_trace(hook_list(p, instr.offset), hs, stops), hooks_end(hook_list(p, instr.offset), hs, stops, hr)]
        prepared(p, s, instr, status, h0) && hooks_trace(hook_list(p, instr.offset), hs, stops) && hs[0] == h0
            && hooks_end(hook_list(p, instr.offset), hs, stops, hr) && match hr {
            Err(e) => r == Err::<(), EsilError>(e),
            Ok(go) => if go {
                exists|s0: State| #[trigger] fresh_stack(hs.last(), s0) && parse_run(s0, ws, false, t, r)
            } else {
                t == hs.last() && r is Ok
            },
        }
}

/// The full effect of `execute`.
pub open spec fn executed(p: Processor, s: State, t: State, instr: Instruction, status: InstructionStatus, ws: Seq<WordView>, r: Result<(), EsilError>) -> bool {
    &&& execute_post(p, s, t, instr, status)
    &&& (exec_denied(s, instr) && s.crash ==> {
        &&& t.registers == s.registers
        &&& t.memory == s.memory
        &&& t.filesystem == s.filesystem
        &&& t.stack == s.stack
        &&& t.esil == s.esil
        &&& t.condition == s.condition
        &&& t.assertions == s.assertions
        &&& r is Ok
    })
    &&& (!(exec_denied(s, instr) && s.crash) && effective_status(p, s, instr, status) == InstructionStatus::Plain
        ==> evaluated(p, s, instr, status, ws, t, r))
    &&& (!(exec_denied(s, instr) && s.crash) && effective_status(p, s, instr, status) == InstructionStatus::Sim
        ==> sim_return(p, s.registers, s.memory, instr.offset, fall_through(instr), t, r))
    &&& (!(exec_denied(s, instr) && s.crash) && effective_status(p, s, instr, status) == InstructionStatus::Hook
        ==> hooked(p, s, instr, status, ws, t, r))
}

/// `b` is `a` made inactive.
pub open spec fn inactive_copy(a: State, b: State) -> bool {
    &&& b.registers == a.registers
    &&& b.memory == a.memory
    &&& b.filesystem == a.filesystem
    &&& b.backtrace == a.backtrace
    &&& b.stack == a.stack
    &&& b.esil == a.esil
    &&& b.condition == a.condition
    &&& b.assertions == a.assertions
    &&& b.crash == a.crash
    &&& b.status == StateStatus::Inactive
}

/// `mid` is `s` after executing the instruction at its PC: unchanged for a
/// symbolic PC, made inactive when no instruction is known there or its
/// execution fails.
pub open spec fn step_executed(p: Processor, s: State, mid: State) -> bool {
    match s.registers.read_spec(s.registers.pc as int) {
        Value::Symbolic(_, _) => mid == s,
        Value::Concrete(pc, _) => if !p.instructions@.contains_key(pc) {
            inactive_copy(s, mid)
        } else {
            let e = p.instructions@[pc];
            exists|t: State, r: Result<(), EsilError>|
                #[trigger] executed(p, s, t, e.instruction, e.status, words_view(e.tokens@), r) && (r is Ok ==> mid
                    == t) && (r is Err ==> inactive_copy(t, mid))
        },
    }
}

impl Processor {
    /// Runs the expression of a return instruction.
    pub fn ret(&self, state: &mut State) -> (r: Result<(), EsilError>)
        requires
            old(state).wf(),
        ensures
            final(state).wf(),
            frame(*old(state), *final(state)),
            exists|s0: State|
                fresh_stack(*old(state), s0) && #[trigger] parse_run(s0,
                    words_view(self.ret_tokens@),
                    false,
                    *final(state),
                    r,
                ),
    {
        self.parse(state, self.ret_tokens.as_slice())
    }

    /// Runs each hook at `pc`; whether none of them asked to skip the
    /// instruction.
    fn run_hooks(&self, state: &mut State, pc: u64) -> (r: Result<bool, EsilError>)
        requires
            old(state).wf(),
        ensures
            final(state).wf(),
            frame(*old(state), *final(state)),
            exists|hs: Seq<State>, stops: Seq<bool>|
                #[trigger] hooks_trace(hook_list(*self, pc), hs, stops) && hs[0] == *old(state) && hooks_end(
                    hook_list(*self, pc),
                    hs,
                    stops,
                    r,
                ) && (r is Ok ==> hs.last() == *final(state)),
    {
        let mut skip = false;
        let ghost list = hook_list(*self, pc);
        let ghost mut hs: Seq<State> = seq![*state];
        let ghost mut stops: Seq<bool> = Seq::empty();
        match self.hooks.get(&pc) {
            None => {
                assert(list.len() == 0);
                assert(hooks_trace(list, hs, stops));
            },
            Some(hooks) => {
                let mut i: usize = 0;
                while i < hooks.len()
                    invariant
                        state.wf(),
                        frame(*old(state), *state),
                        i <= hooks@.len(),
                        list == hooks@,
                        list == hook_list(*self, pc),
                        hooks_trace(list, hs, stops),
                        hs[0] == *old(state),
                        hs.last() == *state,
                        stops.len() == i,
                        skip == skip_any(stops),
                    decreases hooks@.len() - i,
                {
                    let ghost a = *state;
                    let noargs: Vec<Value> = Vec::new();
                    assert(noargs@ =~= Seq::<Value>::empty());
                    let res = self.run_sim(state, hooks[i].as_slice(), noargs);
                    let ghost after = *state;
                    let ghost (s0, sf, hres) = choose|s0: State, sf: State, hres: Result<(), EsilError>|
                        handler_start(a, Seq::<Value>::empty(), s0) && #[trigger] parse_run(
                            s0,
                            words_view(hooks@[i as int]@),
                            true,
                            sf,
                            hres,
                        ) && after.registers == sf.registers && after.memory == sf.memory && res == match hres {
                            Ok(_) => Ok::<Option<Value>, EsilError>(handler_result(sf)),
                            Err(e) => Err::<Option<Value>, EsilError>(e),
                        };
                    let v = match res {
                        Ok(v) => v,
                        Err(e) => {
                            assert(hook_fails(words_view(list[hs.len() - 1]@), hs.last(), e));
                            assert(hooks_end(list, hs, stops, Err(e)));
                            assert(hooks_trace(hook_list(*self, pc), hs, stops) && hs[0] == *old(state) && hooks_end(
                                hook_list(*self, pc), hs, stops, Err(e)));
                            return Err(e);
                        },
                    };
                    let stop = match v {
                        Some(Value::Concrete(0, _)) => true,
                        _ => false,
                    };
                    proof {
                        assert(stop == asks_skip(sf));
                        assert(hook_step(words_view(list[i as int]@), a, *state, stop));
                        let hs2 = hs.push(*state);
                        let st2 = stops.push(stop);
                        assert forall|k: int| 0 <= k < st2.len() implies #[trigger] hook_ok(list, hs2, st2, k) by {
                            if k < stops.len() {
                                assert(hook_ok(list, hs, stops, k));
                                assert(hs2[k] == hs[k] && hs2[k + 1] == hs[k + 1] && st2[k] == stops[k]);
                            } else {
                                assert(hs2[k] == a && hs2[k + 1] == *state && st2[k] == stop);
                            }
                        }
                        assert(skip_any(st2) == (skip_any(stops) || stop)) by {
                            if stop {
                                assert(st2[stops.len() as int]);
                            }
                            if skip_any(st2) && !stop {
                                let k = choose|k: int| 0 <= k < st2.len() && st2[k];
                                assert(stops[k]);
                            }
                            if skip_any(stops) {
                                let k = choose|k: int| 0 <= k < stops.len() && stops[k];
                                assert(st2[k]);
                            }
                        }
                        hs = hs2;
                        stops = st2;
                    }
                    skip = stop || skip;
                    i = i + 1;
                }
            },
        }
        assert(hooks_end(list, hs, stops, Ok(!skip)));
        assert(hooks_trace(hook_list(*self, pc), hs, stops) && hs[0] == *old(state) && hooks_end(
            hook_list(*self, pc), hs, stops, Ok(!skip)) && hs.last() == *state);
        Ok(!skip)
    }

    /// Sets the state's status from the instruction's and executes it: a
    /// plain instruction is evaluated; a hooked one after its hooks, unless
    /// one asks to skip it; a simulated function is replaced by its handler
    /// and a return; break, merge and avoid points only mark the state.
    #[verifier::rlimit(100)]
    pub fn execute(&self, state: &mut State, instr: &Instruction, status: &InstructionStatus, words: &[Word]) -> (r: Result<(), EsilError>)
        requires
            old(state).wf(),
        ensures
            executed(*self, *old(state), *final(state), *instr, *status, words_view(words@), r),
    {
        if state.memory.check && !state.memory.check_permission(instr.offset, instr.size, PERM_EXEC) {
            if state.crash {
                state.status = StateStatus::Inactive;
                return Ok(());
            }
        }
        let pc = instr.offset;
        let new_pc = instr.offset.wrapping_add(instr.size);
        state.esil.pcs.clear();
        if instr.jump != 0 {
            state.esil.pcs.push(instr.jump);
        }
        if instr.fail != 0 {
            state.esil.pcs.push(instr.fail);
        }
        proof {
            assert(state.esil.pcs@ =~= staged_pcs(*instr));
        }
        let mut new_status = *status;
        if state.status == StateStatus::PostMerge && *status == InstructionStatus::Merge {
            state.status = StateStatus::Active;
            new_status = InstructionStatus::Plain;
        }
        if instr.type_num == CALL_TYPE {
            state.backtrace.push(new_pc);
        } else if instr.type_num == RETN_TYPE {
            if state.backtrace.len() == 0 && new_status == InstructionStatus::Plain {
                if !self.breakpoints.is_empty() {
                    new_status = InstructionStatus::Avoid;
                } else {
                    new_status = InstructionStatus::Break;
                }
            } else {
                pop_backtrace(&mut state.backtrace);
            }
        }
        match new_status {
            InstructionStatus::Plain => {
                state.registers.set_pc(Value::Concrete(new_pc, 0));
                let ghost pre = *state;
                assert(prepared(*self, *old(state), *instr, *status, pre));
                let r = self.parse(state, words);
                assert(evaluated(*self, *old(state), *instr, *status, words_view(words@), *state, r));
                r
            },
            InstructionStatus::Hook => {
                state.registers.set_pc(Value::Concrete(new_pc, 0));
                let ghost h0 = *state;
                assert(prepared(*self, *old(state), *instr, *status, h0));
                let hr = self.run_hooks(state, pc);
                let ghost (hs, stops) = choose|hs: Seq<State>, stops: Seq<bool>|
                    #[trigger] hooks_trace(hook_list(*self, pc), hs, stops) && hs[0] == h0 && hooks_end(
                        hook_list(*self, pc),
                        hs,
                        stops,
                        hr,
                    ) && (hr is Ok ==> hs.last() == *state);
                match hr {
                    Err(e) => {
                        assert(hooked(*self, *old(state), *instr, *status, words_view(words@), *state, Err(e)));
                        Err(e)
                    },
                    Ok(go) => {
                        if go {
                            let r = self.parse(state, words);
                            assert(hooked(*self, *old(state), *instr, *status, words_view(words@), *state, r));
                            r
                        } else {
                            assert(hooked(*self, *old(state), *instr, *status, words_view(words@), *state, Ok(())));
                            Ok(())
                        }
                    },
                }
            },
            InstructionStatus::Sim => {
                let r = self.execute_sim(state, pc, new_pc);
                assert(sim_return(*self, old(state).registers, old(state).memory, pc, new_pc, *state, r));
                r
            },
            InstructionStatus::Break => {
                state.status = StateStatus::Break;
                Ok(())
            },
            InstructionStatus::Merge => {
                state.status = StateStatus::Merge;
                Ok(())
            },
            InstructionStatus::Avoid => {
                state.status = StateStatus::Inactive;
                Ok(())
            },
        }
    }

    /// Runs the simulation registered at `pc` in place of the function
    /// there: its result goes to the return register, the backtrace entry
    /// of the call is dropped, and a return follows unless the handler moved
    /// the PC.
    fn execute_sim(&self, state: &mut State, pc: u64, new_pc: u64) -> (r: Result<(), EsilError>)
        requires
            old(state).wf(),
        ensures
            final(state).wf(),
            final(state).registers.same_layout(old(state).registers),
            final(state).crash == old(state).crash,
            final(state).assertions == old(state).assertions,
            final(state).esil.pcs == old(state).esil.pcs,
            final(state).status == old(state).status,
            final(state).backtrace@ == pop_spec(old(state).backtrace@),
            sim_return(*self, old(state).registers, old(state).memory, pc, new_pc, *final(state), r),
    {
        state.registers.set_pc(Value::Concrete(new_pc, 0));
        let ghost s1 = *state;
        assert(sim_entry(old(state).registers, old(state).memory, new_pc, s1));
        let mut args: Vec<Value> = Vec::new();
        self.collect_args(state, &self.cc, &mut args);
        assert(args@ =~= conv_args(s1.registers, self.cc.args@));
        match self.sims.get(&pc) {
            Some(sim) => {
                let res = self.run_sim(state, sim.as_slice(), args);
                let ghost after = *state;
                let ghost (s0, sf, hres) = choose|s0: State, sf: State, hres: Result<(), EsilError>|
                    handler_start(s1, conv_args(s1.registers, self.cc.args@), s0) && #[trigger] parse_run(
                        s0,
                        words_view(sim@),
                        true,
                        sf,
                        hres,
                    ) && after.registers == sf.registers && after.memory == sf.memory && res == match hres {
                        Ok(_) => Ok::<Option<Value>, EsilError>(handler_result(sf)),
                        Err(e) => Err::<Option<Value>, EsilError>(e),
                    };
                pop_backtrace(&mut state.backtrace);
                let ret = match res {
                    Ok(v) => v,
                    Err(e) => {
                        assert(sim_failed(*self, old(state).registers, old(state).memory, pc, new_pc, Err(e)));
                        return Err(e);
                    },
                };
                self.set_result(state, &self.cc, result_or_zero(ret));
                assert(handler_outcome(s1, *state, sf, self.cc.ret, Ok(()), Ok(())));
            },
            None => {
                pop_backtrace(&mut state.backtrace);
                self.set_result(state, &self.cc, Value::Concrete(0, 0));
            },
        }
        let ghost mid = *state;
        assert(sim_mid(*self, old(state).registers, old(state).memory, pc, new_pc, mid));
        let newer = state.registers.get_pc();
        if let Some(newer_pc) = newer.as_u64() {
            if newer_pc == new_pc {
                let r = self.ret(state);
                assert(exists|s0: State| #[trigger] fresh_stack(mid, s0) && parse_run(s0, words_view(self.ret_tokens@), false, *state, r));
                return r;
            }
        }
        Ok(())
    }

    /// Fetches (with what the disassembler gave for `pc_val`, if it must be
    /// decoded) and executes the instruction at `pc_val`.
    pub fn execute_instruction(&mut self, state: &mut State, pc_val: u64, instrs: Vec<Instruction>) -> (r: Result<(), EsilError>)
        requires
            old(state).wf(),
        ensures
            final(state).wf(),
            final(state).registers.same_layout(old(state).registers),
            final(state).crash == old(state).crash,
            final(self).merges == old(self).merges,
            final(self).steps == old(self).steps,
            final(self).force == old(self).force,
            final(self).lazy == old(self).lazy,
            !needs_decode_spec(*old(self), old(state).memory.mem@, pc_val) ==> same_config(*final(self), *old(self)),
            !final(self).instructions@.contains_key(pc_val) ==> r == Err::<(), EsilError>(EsilError::NoInstruction)
                && *final(state) == *old(state),
            final(self).instructions@.contains_key(pc_val) ==> executed(
                *final(self),
                *old(state),
                *final(state),
                final(self).instructions@[pc_val].instruction,
                final(self).instructions@[pc_val].status,
                words_view(final(self).instructions@[pc_val].tokens@),
                r,
            ),
    {
        self.fetch_instruction(state, pc_val, instrs);
        match self.instructions.get(&pc_val) {
            None => Err(EsilError::NoInstruction),
            Some(entry) => self.execute(state, &entry.instruction, &entry.status, entry.tokens.as_slice()),
        }
    }

    /// Copies of `state` for each candidate address, in order: each with the
    /// PC set to its candidate and, where the PC was symbolic, the
    /// constraint that it equals the candidate. The last one is `state`
    /// itself.
    pub fn fanout(state: State, pc_value: &Value, pcs: &Vec<u64>) -> (r: Vec<State>)
        requires
            state.wf(),
        ensures
            r@.len() == pcs@.len(),
            forall|i: int| 0 <= i < r@.len() ==> successor_of(state, *pc_value, pcs@[i], #[trigger] r@[i]),
    {
        let mut state = state;
        let ghost s0 = state;
        let mut states: Vec<State> = Vec::new();
        if pcs.len() == 0 {
            return states;
        }
        let last = pcs.len() - 1;
        let mut i: usize = 0;
        while i < last
            invariant
                state == s0,
                s0.wf(),
                last == pcs@.len() - 1,
                i <= last,
                states@.len() == i,
                forall|j: int| 0 <= j < i ==> successor_of(s0, *pc_value, pcs@[j], #[trigger] states@[j]),
            decreases last - i,
        {
            let mut next = state.duplicate();
            let c = pcs[i];
            if let Value::Symbolic(t, _) = pc_value {
                next.assert_term(Term::Binary(BinOp::Eq, Box::new(t.duplicate()), Box::new(Term::Const(c))));
            }
            next.registers.set_pc(Value::Concrete(c, 0));
            states.push(next);
            i = i + 1;
        }
        let c = pcs[last];
        if let Value::Symbolic(t, _) = pc_value {
            state.assert_term(Term::Binary(BinOp::Eq, Box::new(t.duplicate()), Box::new(Term::Const(c))));
        }
        state.registers.set_pc(Value::Concrete(c, 0));
        states.push(state);
        states
    }

    /// Executes one instruction of `state` and gives its successors: one
    /// per staged target when forcing (or, lazily, for a symbolic PC), the
    /// state itself for a concrete PC. A state whose PC stays symbolic
    /// without staged targets is handed back as it is, for the solver to
    /// enumerate its PC values.
    pub fn step(&mut self, state: State, instrs: Vec<Instruction>) -> (r: Vec<State>)
        requires
            state.wf(),
        ensures
            final(self).merges == old(self).merges,
            final(self).steps == old(self).steps,
            !needs_outside(*old(self), state) ==> same_config(*final(self), *old(self)),
            forall|i: int| 0 <= i < r@.len() ==> (#[trigger] r@[i]).wf(),
            exists|mid: State|
                mid.wf() && step_executed(*final(self), state, mid) && #[trigger] successors_spec(
                    *old(self),
                    mid,
                    r@,
                ),
    {
        let ghost s_in = state;
        let mut state = state;
        let pc_value = state.registers.get_pc();
        if let Some(pc_val) = pc_value.as_u64() {
            let res = self.execute_instruction(&mut state, pc_val, instrs);
            let ghost t = state;
            if res.is_err() {
                state.status = StateStatus::Inactive;
            }
            proof {
                if self.instructions@.contains_key(pc_val) {
                    let e = self.instructions@[pc_val];
                    assert(executed(*self, s_in, t, e.instruction, e.status, words_view(e.tokens@), res));
                }
            }
        }
        let ghost mid = state;
        assert(step_executed(*self, s_in, mid));
        let new_pc = state.registers.get_pc();
        let mut pcs: Vec<u64> = Vec::new();
        let use_staged = (self.force && state.esil.pcs.len() > 0)
            || (!new_pc.is_concrete() && self.lazy && state.esil.pcs.len() > 0);
        if !use_staged {
            let mut out: Vec<State> = Vec::new();
            out.push(state);
            assert(out@ =~= seq![mid]);
            assert(successors_spec(*old(self), mid, out@));
            return out;
        }
        std::mem::swap(&mut pcs, &mut state.esil.pcs);
        let out = Self::fanout(state, &new_pc, &pcs);
        assert(successors_spec(*old(self), mid, out@));
        out
    }
}

} // verus!
