use vstd::prelude::*;
use crate::operations::{do_operation, op_post, top, Operations};
use crate::processor::{words_view, wview, CallConv, Processor, Word, WordView};
use crate::registers::Registers;
use crate::tokenizer::tokenize_spec;
use crate::state::{
    is_symbolic_mode, item_value, item_wf, items_wf, EsilError, ExecMode, State, StackItem,
};
use crate::value::{conditional, conditional_spec, Term, UnOp, Value};

verus! {

broadcast use vstd::std_specs::hash::group_hash_axioms;

/// Jumps taken within one evaluation before it is given up.
pub const MAX_JUMPS: u64 = 0x10000;

/// The stack after an ENDIF that closes a symbolic conditional: the
/// `min(|a|, |b|)` topmost pairs, each an if-then-else over `cond`, the top
/// pair on top.
pub open spec fn endif_spec(regs: Registers, cond: Term, a: Seq<StackItem>, b: Seq<StackItem>) -> Seq<StackItem> {
    let k = if a.len() < b.len() { a.len() } else { b.len() };
    Seq::new(
        k,
        |j: int|
            StackItem::StackValue(
                conditional_spec(
                    Value::Symbolic(cond, 0),
                    item_value(regs, a[a.len() - k + j]),
                    item_value(regs, b[b.len() - k + j]),
                ),
            ),
    )
}

pub fn read_item(regs: &Registers, it: &StackItem) -> (r: Value)
    requires
        regs.wf(),
        item_wf(*it, regs.entries@.len()),
    ensures
        r == item_value(*regs, *it),
{
    match it {
        StackItem::StackValue(v) => v.duplicate(),
        StackItem::StackRegister(i) => regs.get_value(*i),
    }
}

pub open spec fn frame(s: State, t: State) -> bool {
    &&& t.registers.same_layout(s.registers)
    &&& t.esil.pcs == s.esil.pcs
    &&& t.filesystem == s.filesystem
    &&& t.backtrace == s.backtrace
    &&& t.status == s.status
    &&& t.assertions == s.assertions
    &&& t.crash == s.crash
}

/// The first `k` arguments pushed last first, so that the first argument
/// ends on top.
pub open spec fn pushed_args(args: Seq<Value>, k: nat) -> Seq<StackItem> {
    Seq::new(k, |m: int| StackItem::StackValue(args[args.len() - 1 - m]))
}

/// The state a handler starts from: its arguments alone on the stack, no
/// conditional open, everything else as in `s`.
pub open spec fn handler_start(s: State, args: Seq<Value>, s0: State) -> bool {
    &&& s0.registers == s.registers
    &&& s0.memory == s.memory
    &&& s0.filesystem == s.filesystem
    &&& s0.backtrace == s.backtrace
    &&& s0.status == s.status
    &&& s0.assertions == s.assertions
    &&& s0.crash == s.crash
    &&& s0.esil.mode == ExecMode::Uncon
    &&& s0.condition is None
    &&& s0.stack@ == pushed_args(args, args.len())
}

/// What a handler gives back: the value on top of its final stack.
pub open spec fn handler_result(sf: State) -> Option<Value> {
    if sf.stack@.len() > 0 {
        Some(item_value(sf.registers, sf.stack@.last()))
    } else {
        None
    }
}

/// The values of the argument registers `regs_of`, in order, leaving out
/// indices outside the register file.
pub open spec fn conv_args(regs: Registers, regs_of: Seq<usize>) -> Seq<Value>
    decreases regs_of.len(),
{
    if regs_of.len() == 0 {
        Seq::empty()
    } else {
        let rest = conv_args(regs, regs_of.drop_last());
        let x = regs_of.last();
        if x < regs.entries@.len() {
            rest.push(regs.read_spec(x as int))
        } else {
            rest
        }
    }
}

/// After a handler whose run ended in `sf` with `res`: the call's result
/// `r`, and the return register `ret` of `t` set to the handler's result.
pub open spec fn handler_outcome(s: State, t: State, sf: State, ret: usize, res: Result<(), EsilError>, r: Result<(), EsilError>) -> bool {
    match res {
        Err(e) => r == Err::<(), EsilError>(e),
        Ok(_) => {
            let v = match handler_result(sf) {
                Some(v) => v,
                None => Value::Concrete(0, 0),
            };
            &&& r is Ok
            &&& t.memory == sf.memory
            &&& (ret < s.registers.entries@.len() ==> t.registers.values@ == sf.registers.write_spec(ret as int, v))
            &&& (ret >= s.registers.entries@.len() ==> t.registers == sf.registers)
        },
    }
}

/// The syscall handler for number `n` ran from `s` with the syscall
/// convention's argument registers, and `t` and `r` are its outcome.
pub open spec fn syscall_done(p: Processor, s: State, t: State, n: u64, r: Result<(), EsilError>) -> bool {
    exists|s0: State, sf: State, res: Result<(), EsilError>|
        #![trigger handler_start(s, conv_args(s.registers, p.syscall_cc.args@), s0), parse_run(s0, words_view(p.syscalls@[n]@), true, sf, res)]
        handler_start(s, conv_args(s.registers, p.syscall_cc.args@), s0) && parse_run(
            s0,
            words_view(p.syscalls@[n]@),
            true,
            sf,
            res,
        ) && handler_outcome(s, t, sf, p.syscall_cc.ret, res, r)
}

/// A handler's result: what it left on top of the stack, else zero.
pub fn result_or_zero(v: Option<Value>) -> (r: Value)
    ensures
        r == match v {
            Some(x) => x,
            None => Value::Concrete(0, 0),
        },
{
    match v {
        Some(x) => x,
        None => Value::Concrete(0, 0),
    }
}

/// What IF does to the state.
pub open spec fn if_post(s: State, t: State, r: Result<(), EsilError>) -> bool {
    &&& (t.wf())
    &&& (frame(s, t))
    &&& (t.registers == s.registers)
    &&& (t.memory == s.memory)
    &&& (s.stack@.len() == 0 ==> r == Err::<(), EsilError>(EsilError::StackUnderflow))
    &&& (s.stack@.len() > 0 ==> r is Ok && t.stack@ == s.stack@.drop_last() && ({
                let arg = item_value(s.registers, s.stack@.last());
                match (arg, s.esil.mode) {
                    (Value::Concrete(v, _), ExecMode::Uncon) => t.esil.mode == if v == 0 {
                        ExecMode::NoExec
                    } else {
                        ExecMode::Exec
                    },
                    (Value::Symbolic(c, _), ExecMode::Uncon) => t.esil.mode == ExecMode::If
                        && t.esil.temp1@ == s.stack@.drop_last() && t.condition
                        == Some(c),
                    _ => t.esil.mode == s.esil.mode && t.condition
                        == s.condition,
                }
            }))
}

/// What ELSE does to the state.
pub open spec fn else_post(s: State, t: State) -> bool {
    &&& (t.wf())
    &&& (frame(s, t))
    &&& (t.registers == s.registers)
    &&& (t.memory == s.memory)
    &&& (s.esil.mode == ExecMode::Exec ==> t.esil.mode == ExecMode::NoExec)
    &&& (s.esil.mode == ExecMode::NoExec ==> t.esil.mode == ExecMode::Exec)
    &&& (s.esil.mode == ExecMode::If ==> t.esil.mode == ExecMode::Else
                && t.condition == Some(Term::Unary(UnOp::IsZero, Box::new(s.condition->0)))
                && t.esil.temp2@ == s.stack@ && t.stack@ == s.esil.temp1@
                && t.esil.temp1@.len() == 0)
    &&& (s.esil.mode == ExecMode::Uncon || s.esil.mode == ExecMode::Else
                ==> t.esil.mode == s.esil.mode && t.stack@ == s.stack@
                && t.condition == s.condition)
}

/// What ENDIF does to the state.
pub open spec fn endif_post(s: State, t: State) -> bool {
    &&& (t.wf())
    &&& (frame(s, t))
    &&& (t.registers == s.registers)
    &&& (t.memory == s.memory)
    &&& (t.esil.mode == ExecMode::Uncon)
    &&& (t.condition is None)
    &&& (!is_symbolic_mode(s.esil.mode) ==> t.stack@ == s.stack@)
    &&& (s.esil.mode == ExecMode::If ==> t.stack@ == endif_spec(
                s.registers,
                s.condition->0,
                s.stack@,
                s.esil.temp1@,
            ))
    &&& (s.esil.mode == ExecMode::Else ==> t.stack@ == endif_spec(
                s.registers,
                s.condition->0,
                s.stack@,
                s.esil.temp2@,
            ))
    &&& (is_symbolic_mode(s.esil.mode) ==> t.stack@.len() == if s.stack@.len()
                < (if s.esil.mode == ExecMode::If {
                s.esil.temp1@
            } else {
                s.esil.temp2@
            }).len() {
                s.stack@.len()
            } else {
                (if s.esil.mode == ExecMode::If {
                    s.esil.temp1@
                } else {
                    s.esil.temp2@
                }).len()
            })
}


/// Everything but the evaluation stack is unchanged.
pub open spec fn same_but_stack(s: State, t: State) -> bool {
    &&& t.registers == s.registers
    &&& t.memory == s.memory
    &&& t.filesystem == s.filesystem
    &&& t.backtrace == s.backtrace
    &&& t.esil == s.esil
    &&& t.condition == s.condition
    &&& t.status == s.status
    &&& t.assertions == s.assertions
    &&& t.crash == s.crash
}

/// A token that the skipped branch of a concrete conditional passes over.
pub open spec fn skipped(s: State, w: WordView) -> bool {
    s.esil.mode == ExecMode::NoExec && w != WordView::Operator(Operations::Else) && w
        != WordView::Operator(Operations::EndIf)
}

/// The token `w` at index `i` takes state `s` to `t`, evaluation going on
/// at index `j`.
pub open spec fn steps_to(s: State, w: WordView, nested: bool, n: int, i: int, t: State, j: int) -> bool {
    if skipped(s, w) {
        t == s && j == i + 1
    } else {
        match w {
            WordView::Literal(v) => same_but_stack(s, t) && t.stack@ == s.stack@.push(StackItem::StackValue(v))
                && j == i + 1,
            WordView::Register(x) => x < s.nregs() && same_but_stack(s, t) && t.stack@ == s.stack@.push(
                StackItem::StackRegister(x),
            ) && j == i + 1,
            WordView::Unknown(_) => same_but_stack(s, t) && t.stack@ == s.stack@.push(
                StackItem::StackValue(Value::Concrete(0, 0)),
            ) && j == i + 1,
            WordView::Operator(op) => match op {
                Operations::GoTo => goto_post(s, t) && j == (if top(s)->Concrete_0 >= n {
                    n
                } else {
                    top(s)->Concrete_0 as int
                }),
                _ => j == i + 1 && match op {
                Operations::If => if_post(s, t, Ok(())),
                Operations::Else => else_post(s, t),
                Operations::EndIf => endif_post(s, t),
                Operations::Break => false,
                Operations::Trap => s.stack@.len() > 0 && top(s) is Concrete && frame(s, t) && t.wf()
                    && t.stack@ == s.stack@.drop_last() && t.esil.mode == s.esil.mode && t.condition
                    == s.condition && (nested ==> t.registers == s.registers && t.memory == s.memory),
                Operations::Syscall => frame(s, t) && t.wf() && t.stack == s.stack && t.esil.mode
                    == s.esil.mode && t.condition == s.condition && (nested ==> t == s),
                _ => op_post(s, op, t, Ok(())),
                },
            },
        }
    }
}

/// GOTO with a concrete target outside a symbolic conditional: the target
/// (clamped to the end of the tokens) is next, and the mode is reset.
pub open spec fn goto_post(s: State, t: State) -> bool {
    &&& s.stack@.len() > 0
    &&& top(s) is Concrete
    &&& s.condition is None
    &&& t.stack@ == s.stack@.drop_last()
    &&& t.registers == s.registers
    &&& t.memory == s.memory
    &&& t.filesystem == s.filesystem
    &&& t.backtrace == s.backtrace
    &&& t.condition == s.condition
    &&& t.status == s.status
    &&& t.assertions == s.assertions
    &&& t.crash == s.crash
    &&& t.esil.mode == ExecMode::Uncon
    &&& t.esil.temp1 == s.esil.temp1
    &&& t.esil.temp2 == s.esil.temp2
    &&& t.esil.pcs == s.esil.pcs
    &&& t.esil.current == s.esil.current
    &&& t.esil.previous == s.esil.previous
    &&& t.esil.last_width == s.esil.last_width
    &&& t.esil.stored_address == s.esil.stored_address
}

/// BREAK outside a symbolic conditional ends the evaluation.
pub open spec fn stops(s: State, w: WordView, t: State) -> bool {
    !skipped(s, w) && w == WordView::Operator(Operations::Break) && s.condition is None && t == s
}

/// The token `w` fails with `e`, leaving `t`.
pub open spec fn fails(s: State, w: WordView, nested: bool, t: State, e: EsilError) -> bool {
    !skipped(s, w) && match w {
        WordView::Register(x) => x >= s.nregs() && e == EsilError::NotARegister && t == s,
        WordView::Operator(op) => match op {
            Operations::If => if_post(s, t, Err(e)),
            Operations::Else | Operations::EndIf => false,
            Operations::GoTo => frame(s, t) && t.wf() && (s.stack@.len() == 0 ==> e == EsilError::StackUnderflow)
                && (s.stack@.len() > 0 && top(s) is Symbolic ==> e == EsilError::SymbolicAddress) && (
            s.stack@.len() > 0 && top(s) is Concrete && s.condition is Some ==> e == EsilError::SymbolicControl)
                && (s.stack@.len() > 0 && top(s) is Concrete && s.condition is None ==> e
                == EsilError::BadJump),
            Operations::Break => s.condition is Some && e == EsilError::SymbolicControl && t == s,
            Operations::Trap => frame(s, t) && t.wf(),
            Operations::Syscall => !nested && frame(s, t) && t.wf(),
            _ => op_post(s, op, t, Err(e)),
        },
        _ => false,
    }
}

/// Step `k` of a recorded evaluation is one token's effect.
pub open spec fn step_ok(ws: Seq<WordView>, nested: bool, ts: Seq<State>, is: Seq<int>, k: int) -> bool {
    0 <= is[k] < ws.len() && steps_to(ts[k], ws[is[k]], nested, ws.len() as int, is[k], ts[k + 1], is[k + 1])
}

/// `ts` and `is` record an evaluation: each state, and the index of the
/// token evaluated next, each step by one token.
pub open spec fn trace_ok(ws: Seq<WordView>, nested: bool, ts: Seq<State>, is: Seq<int>) -> bool {
    &&& ts.len() == is.len()
    &&& ts.len() >= 1
    &&& forall|k: int| 0 <= k < ts.len() - 1 ==> #[trigger] step_ok(ws, nested, ts, is, k)
}

/// How an evaluation that reached state `s` at index `i` ends in `sf`
/// with `r`: past the last token, at a BREAK, or at a failing token.
pub open spec fn finish(ws: Seq<WordView>, nested: bool, s: State, i: int, sf: State, r: Result<(), EsilError>) -> bool {
    ||| (i >= ws.len() && r == Ok::<(), EsilError>(()) && sf == s)
    ||| (0 <= i < ws.len() && r == Ok::<(), EsilError>(()) && stops(s, ws[i], sf))
    ||| (0 <= i < ws.len() && r is Err && fails(s, ws[i], nested, sf, r->Err_0))
}

/// Evaluating the tokens `ws` from `s0` ends in `sf` with `r`.
pub open spec fn parse_run(s0: State, ws: Seq<WordView>, nested: bool, sf: State, r: Result<(), EsilError>) -> bool {
    exists|ts: Seq<State>, is: Seq<int>|
        #[trigger] trace_ok(ws, nested, ts, is) && ts[0] == s0 && is[0] == 0 && finish(ws,
            nested,
            ts.last(),
            is.last(),
            sf,
            r,
        )
}

/// The state with its evaluation stack emptied.
pub open spec fn fresh_stack(s: State, t: State) -> bool {
    same_but_stack(s, t) && t.stack@.len() == 0
}

proof fn lemma_trace_extend(ws: Seq<WordView>, nested: bool, ts: Seq<State>, is: Seq<int>, t: State, j: int)
    requires
        trace_ok(ws, nested, ts, is),
        0 <= is.last() < ws.len(),
        steps_to(ts.last(), ws[is.last()], nested, ws.len() as int, is.last(), t, j),
    ensures
        trace_ok(ws, nested, ts.push(t), is.push(j)),
{
    let ts2 = ts.push(t);
    let is2 = is.push(j);
    assert forall|k: int| 0 <= k < ts2.len() - 1 implies #[trigger] step_ok(ws, nested, ts2, is2, k) by {
        if k < ts.len() - 1 {
            assert(step_ok(ws, nested, ts, is, k));
            assert(ts2[k] == ts[k] && ts2[k + 1] == ts[k + 1] && is2[k] == is[k] && is2[k + 1] == is[k + 1]);
        } else {
            assert(ts2[k] == ts.last() && ts2[k + 1] == t && is2[k] == is.last() && is2[k + 1] == j);
        }
    }
}

impl State {
    /// IF: a concrete condition selects a branch; a symbolic one saves the
    /// stack and opens a symbolic conditional on `arg != 0`.
    pub fn esil_if(&mut self) -> (r: Result<(), EsilError>)
        requires
            old(self).wf(),
        ensures
            if_post(*old(self), *final(self), r),
    {
        let arg = self.pop_value()?;
        if self.esil.mode == ExecMode::Uncon {
            match arg {
                Value::Concrete(v, _) => {
                    self.esil.mode = if v == 0 { ExecMode::NoExec } else { ExecMode::Exec };
                },
                Value::Symbolic(t, _) => {
                    self.esil.temp1 = crate::state::copy_stack(&self.stack);
                    self.esil.mode = ExecMode::If;
                    self.condition = Some(t);
                },
            }
        }
        Ok(())
    }

    /// ELSE: swaps a concrete branch; in a symbolic conditional it negates
    /// the condition, keeps the first branch's stack and restores the stack
    /// saved at IF.
    pub fn esil_else(&mut self)
        requires
            old(self).wf(),
        ensures
            else_post(*old(self), *final(self)),
    {
        match self.esil.mode {
            ExecMode::Exec => self.esil.mode = ExecMode::NoExec,
            ExecMode::NoExec => self.esil.mode = ExecMode::Exec,
            ExecMode::If => {
                let c = self.condition.take();
                let c = match c {
                    Some(c) => c,
                    None => Term::Const(0),
                };
                self.condition = Some(Term::Unary(UnOp::IsZero, Box::new(c)));
                let mut stack: Vec<StackItem> = Vec::new();
                std::mem::swap(&mut self.stack, &mut stack);
                let mut first: Vec<StackItem> = Vec::new();
                std::mem::swap(&mut self.esil.temp1, &mut first);
                self.esil.temp2 = stack;
                self.stack = first;
                self.esil.mode = ExecMode::Else;
                assert(self.esil.temp1@ =~= Seq::<StackItem>::empty());
            },
            _ => {},
        }
    }

    /// ENDIF: leaves a concrete branch; closes a symbolic conditional by
    /// pairing the two branches' stacks from the top into if-then-else values.
    pub fn esil_endif(&mut self)
        requires
            old(self).wf(),
        ensures
            endif_post(*old(self), *final(self)),
    {
        if self.esil.mode != ExecMode::If && self.esil.mode != ExecMode::Else {
            self.esil.mode = ExecMode::Uncon;
            return;
        }
        let cond = match self.condition.take() {
            Some(c) => c,
            None => Term::Const(0),
        };
        let mut other: Vec<StackItem> = Vec::new();
        if self.esil.mode == ExecMode::If {
            std::mem::swap(&mut self.esil.temp1, &mut other);
        } else {
            std::mem::swap(&mut self.esil.temp2, &mut other);
        }
        let mut cur: Vec<StackItem> = Vec::new();
        std::mem::swap(&mut self.stack, &mut cur);
        let ghost regs = self.registers;
        let k: usize = if cur.len() < other.len() { cur.len() } else { other.len() };
        let cond_value = Value::Symbolic(cond, 0);
        let mut merged: Vec<StackItem> = Vec::new();
        let mut j: usize = 0;
        while j < k
            invariant
                self.registers == regs,
                regs.wf(),
                k <= cur@.len(),
                k <= other@.len(),
                k == if cur@.len() < other@.len() { cur@.len() } else { other@.len() },
                items_wf(cur@, regs.entries@.len()),
                items_wf(other@, regs.entries@.len()),
                j <= k,
                cond_value == Value::Symbolic(old(self).condition->0, 0),
                merged@ == endif_spec(regs, old(self).condition->0, cur@, other@).subrange(0, j as int),
            decreases k - j,
        {
            let a = read_item(&self.registers, &cur[cur.len() - k + j]);
            let b = read_item(&self.registers, &other[other.len() - k + j]);
            merged.push(StackItem::StackValue(conditional(&cond_value, &a, &b)));
            j = j + 1;
            assert(merged@ =~= endif_spec(regs, old(self).condition->0, cur@, other@).subrange(0, j as int));
        }
        assert(merged@ =~= endif_spec(regs, old(self).condition->0, cur@, other@));
        self.stack = merged;
        self.esil.mode = ExecMode::Uncon;
        proof {
            assert forall|i: int| 0 <= i < self.stack@.len() implies item_wf(#[trigger] self.stack@[i], self.nregs()) by {}
            assert forall|i: int| 0 <= i < self.esil.temp1@.len() implies item_wf(#[trigger] self.esil.temp1@[i], self.nregs()) by {
                assert(self.esil.temp1@[i] == old(self).esil.temp1@[i]);
            }
            assert forall|i: int| 0 <= i < self.esil.temp2@.len() implies item_wf(#[trigger] self.esil.temp2@[i], self.nregs()) by {
                assert(self.esil.temp2@[i] == old(self).esil.temp2@[i]);
            }
        }
    }
}

impl Processor {
    /// Evaluates tokens against the state from a fresh stack.
    pub fn parse(&self, state: &mut State, words: &[Word]) -> (r: Result<(), EsilError>)
        requires
            old(state).wf(),
        ensures
            final(state).wf(),
            frame(*old(state), *final(state)),
            exists|s0: State|
                fresh_stack(*old(state), s0) && #[trigger] parse_run(s0,
                    words_view(words@),
                    false,
                    *final(state),
                    r,
                ),
    {
        state.stack.clear();
        let ghost s0 = *state;
        let r = self.parse_words(state, words, false);
        assert(fresh_stack(*old(state), s0) && parse_run(s0, words_view(words@), false, *state, r));
        r
    }

    /// Tokenizes and evaluates one expression.
    pub fn parse_expression(&self, state: &mut State, esil: &[u8]) -> (r: Result<(), EsilError>)
        requires
            old(state).wf(),
        ensures
            final(state).wf(),
            frame(*old(state), *final(state)),
            exists|s0: State|
                fresh_stack(*old(state), s0) && #[trigger] parse_run(s0,
                    tokenize_spec(esil@, old(state).registers.entries@),
                    false,
                    *final(state),
                    r,
                ),
    {
        let words = self.tokenize(state, esil);
        self.parse(state, words.as_slice())
    }

    /// Evaluates tokens on the current stack. A nested evaluation (a hook,
    /// a simulation or a trap handler) runs no further traps or syscalls.
    #[verifier::rlimit(100)]
    pub fn parse_words(&self, state: &mut State, words: &[Word], nested: bool) -> (r: Result<(), EsilError>)
        requires
            old(state).wf(),
        ensures
            final(state).wf(),
            frame(*old(state), *final(state)),
            parse_run(*old(state), words_view(words@), nested, *final(state), r),
        decreases if nested { 0int } else { 3int },
    {
        let ghost wv = words_view(words@);
        let mut word_index: usize = 0;
        let mut jumps_left: u64 = MAX_JUMPS;
        let words_len = words.len();
        let ghost mut ts: Seq<State> = seq![*state];
        let ghost mut is: Seq<int> = seq![0int];
        assert(trace_ok(wv, nested, ts, is));
        while word_index < words_len
            invariant
                state.wf(),
                frame(*old(state), *state),
                words_len == words@.len(),
                wv == words_view(words@),
                wv.len() == words_len,
                word_index <= words_len,
                trace_ok(wv, nested, ts, is),
                ts[0] == *old(state),
                is[0] == 0,
                ts.last() == *state,
                is.last() == word_index as int,
            decreases jumps_left, words_len - word_index,
        {
            let ghost s0 = *state;
            let ghost i0 = word_index as int;
            let word = &words[word_index];
            assert(wv[i0] == wview(*word));
            word_index = word_index + 1;
            let mut skip = false;
            if state.esil.mode == ExecMode::NoExec {
                match word {
                    Word::Operator(Operations::Else) | Word::Operator(Operations::EndIf) => {},
                    _ => {
                        skip = true;
                    },
                }
            }
            if !skip {
                match word {
                    Word::Literal(v) => {
                        state.push_value(v.duplicate());
                        assert(steps_to(s0, wv[i0], nested, wv.len() as int, i0, *state, word_index as int));
                    },
                    Word::Register(index) => {
                        if *index >= state.registers.entries.len() {
                            assert(fails(s0, wv[i0], nested, *state, EsilError::NotARegister));
                            assert(finish(wv, nested, ts.last(), is.last(), *state, Err(EsilError::NotARegister)));
                            return Err(EsilError::NotARegister);
                        }
                        state.stack.push(StackItem::StackRegister(*index));
                        proof {
                            assert forall|i: int| 0 <= i < state.stack@.len() implies item_wf(#[trigger] state.stack@[i], state.nregs()) by {}
                        }
                        assert(steps_to(s0, wv[i0], nested, wv.len() as int, i0, *state, word_index as int));
                    },
                    Word::Operator(op) => {
                        match op {
                            Operations::If => {
                                let res = state.esil_if();
                                if let Err(e) = res {
                                    assert(finish(wv, nested, ts.last(), is.last(), *state, Err(e)));
                                    return Err(e);
                                }
                                assert(steps_to(s0, wv[i0], nested, wv.len() as int, i0, *state, word_index as int));
                            },
                            Operations::Else => {
                                state.esil_else();
                                assert(steps_to(s0, wv[i0], nested, wv.len() as int, i0, *state, word_index as int));
                            },
                            Operations::EndIf => {
                                state.esil_endif();
                                assert(steps_to(s0, wv[i0], nested, wv.len() as int, i0, *state, word_index as int));
                            },
                            Operations::GoTo => {
                                let n = match state.pop_concrete() {
                                    Ok(n) => n,
                                    Err(e) => {
                                        assert(finish(wv, nested, ts.last(), is.last(), *state, Err(e)));
                                        return Err(e);
                                    },
                                };
                                if state.condition.is_some() {
                                    assert(finish(wv, nested, ts.last(), is.last(), *state, Err(EsilError::SymbolicControl)));
                                    return Err(EsilError::SymbolicControl);
                                }
                                if jumps_left == 0 {
                                    assert(finish(wv, nested, ts.last(), is.last(), *state, Err(EsilError::BadJump)));
                                    return Err(EsilError::BadJump);
                                }
                                jumps_left = jumps_left - 1;
                                state.esil.mode = ExecMode::Uncon;
                                word_index = if n >= words_len as u64 { words_len } else { n as usize };
                                assert(goto_post(s0, *state));
                                assert(steps_to(s0, wv[i0], nested, wv.len() as int, i0, *state, word_index as int));
                            },
                            Operations::Break => {
                                if state.condition.is_some() {
                                    assert(finish(wv, nested, ts.last(), is.last(), *state, Err(EsilError::SymbolicControl)));
                                    return Err(EsilError::SymbolicControl);
                                }
                                assert(finish(wv, nested, ts.last(), is.last(), *state, Ok(())));
                                return Ok(());
                            },
                            Operations::Trap => {
                                let trap = match state.pop_concrete() {
                                    Ok(n) => n,
                                    Err(e) => {
                                        assert(finish(wv, nested, ts.last(), is.last(), *state, Err(e)));
                                        return Err(e);
                                    },
                                };
                                if !nested {
                                    if let Some(handler) = self.traps.get(&trap) {
                                        let sn = state.registers.sn;
                                        let sys_val = state.registers.get_value(sn);
                                        let mut args: Vec<Value> = Vec::new();
                                        args.push(sys_val);
                                        self.collect_args(state, &self.syscall_cc, &mut args);
                                        let ret = match self.run_sim(state, handler.as_slice(), args) {
                                            Ok(v) => v,
                                            Err(e) => {
                                                assert(finish(wv, nested, ts.last(), is.last(), *state, Err(e)));
                                                return Err(e);
                                            },
                                        };
                                        self.set_result(state, &self.syscall_cc, result_or_zero(ret));
                                    }
                                }
                                assert(steps_to(s0, wv[i0], nested, wv.len() as int, i0, *state, word_index as int));
                            },
                            Operations::Syscall => {
                                if !nested {
                                    if let Err(e) = self.do_syscall(state) {
                                        assert(finish(wv, nested, ts.last(), is.last(), *state, Err(e)));
                                        return Err(e);
                                    }
                                }
                                assert(steps_to(s0, wv[i0], nested, wv.len() as int, i0, *state, word_index as int));
                            },
                            _ => {
                                if let Err(e) = do_operation(state, *op) {
                                    assert(finish(wv, nested, ts.last(), is.last(), *state, Err(e)));
                                    return Err(e);
                                }
                                assert(steps_to(s0, wv[i0], nested, wv.len() as int, i0, *state, word_index as int));
                            },
                        }
                    },
                    Word::Unknown(_) => {
                        state.push_value(Value::Concrete(0, 0));
                        assert(steps_to(s0, wv[i0], nested, wv.len() as int, i0, *state, word_index as int));
                    },
                }
            } else {
                assert(steps_to(s0, wv[i0], nested, wv.len() as int, i0, *state, word_index as int));
            }
            proof {
                assert(steps_to(s0, wv[i0], nested, wv.len() as int, i0, *state, word_index as int));
                lemma_trace_extend(wv, nested, ts, is, *state, word_index as int);
                ts = ts.push(*state);
                is = is.push(word_index as int);
            }
        }
        assert(finish(wv, nested, ts.last(), is.last(), *state, Ok(())));
        Ok(())
    }

    /// Appends the values of the convention's argument registers, in order
    /// (a register index outside the file is left out).
    pub fn collect_args(&self, state: &State, cc: &CallConv, args: &mut Vec<Value>)
        requires
            state.wf(),
        ensures
            final(args)@ == old(args)@ + conv_args(state.registers, cc.args@),
    {
        let mut i: usize = 0;
        let ghost start = args@;
        while i < cc.args.len()
            invariant
                state.wf(),
                i <= cc.args@.len(),
                args@ == start + conv_args(state.registers, cc.args@.subrange(0, i as int)),
            decreases cc.args@.len() - i,
        {
            let reg = cc.args[i];
            proof {
                assert(cc.args@.subrange(0, i + 1).drop_last() =~= cc.args@.subrange(0, i as int));
            }
            if reg < state.registers.entries.len() {
                let v = state.registers.get_value(reg);
                args.push(v);
            }
            i = i + 1;
            proof {
                assert(args@ =~= start + conv_args(state.registers, cc.args@.subrange(0, i as int)));
            }
        }
        assert(cc.args@.subrange(0, i as int) =~= cc.args@);
    }

    /// Writes a result to the convention's return register.
    pub fn set_result(&self, state: &mut State, cc: &CallConv, ret: Value)
        requires
            old(state).wf(),
        ensures
            final(state).wf(),
            frame(*old(state), *final(state)),
            final(state).stack == old(state).stack,
            final(state).esil == old(state).esil,
            final(state).memory == old(state).memory,
            final(state).condition == old(state).condition,
            cc.ret < old(state).registers.entries@.len() ==> final(state).registers.values@
                == old(state).registers.write_spec(cc.ret as int, ret),
            cc.ret >= old(state).registers.entries@.len() ==> final(state).registers == old(state).registers,
    {
        if cc.ret < state.registers.entries.len() {
            state.registers.set_value(cc.ret, ret);
        }
    }

    /// Runs a handler expression with `args` on the stack, the first on
    /// top, and gives back the value it leaves on top, if any. The caller's
    /// stack and conditional are kept.
    pub fn run_sim(&self, state: &mut State, words: &[Word], args: Vec<Value>) -> (r: Result<Option<Value>, EsilError>)
        requires
            old(state).wf(),
        ensures
            final(state).wf(),
            frame(*old(state), *final(state)),
            final(state).stack == old(state).stack,
            final(state).esil.mode == old(state).esil.mode,
            final(state).condition == old(state).condition,
            exists|s0: State, sf: State, res: Result<(), EsilError>|
                handler_start(*old(state), args@, s0) && #[trigger] parse_run(s0,
                    words_view(words@),
                    true,
                    sf,
                    res,
                ) && final(state).registers == sf.registers && final(state).memory == sf.memory && r == match res {
                    Ok(_) => Ok::<Option<Value>, EsilError>(handler_result(sf)),
                    Err(e) => Err::<Option<Value>, EsilError>(e),
                },
        decreases 1int,
    {
        let mut saved: Vec<StackItem> = Vec::new();
        std::mem::swap(&mut state.stack, &mut saved);
        let saved_mode = state.esil.mode;
        let saved_cond = state.condition.take();
        state.esil.mode = ExecMode::Uncon;
        let mut i: usize = args.len();
        assert(state.stack@ =~= pushed_args(args@, 0));
        while i > 0
            invariant
                state.wf(),
                frame(*old(state), *state),
                i <= args@.len(),
                state.esil.mode == ExecMode::Uncon,
                state.condition is None,
                state.registers == old(state).registers,
                state.memory == old(state).memory,
                state.stack@ == pushed_args(args@, (args@.len() - i) as nat),
            decreases i,
        {
            i = i - 1;
            state.push_value(args[i].duplicate());
            assert(state.stack@ =~= pushed_args(args@, (args@.len() - i) as nat));
        }
        let ghost s0 = *state;
        assert(handler_start(*old(state), args@, s0));
        let res = self.parse_words(state, words, true);
        let ghost sf = *state;
        let ret = if state.stack.len() > 0 {
            match state.pop_value() {
                Ok(v) => Some(v),
                Err(_) => None,
            }
        } else {
            None
        };
        std::mem::swap(&mut state.stack, &mut saved);
        state.esil.mode = saved_mode;
        state.condition = saved_cond;
        assert(ret == handler_result(sf));
        match res {
            Ok(()) => Ok(ret),
            Err(e) => Err(e),
        }
    }

    /// Runs the handler registered for the syscall number in the state, with
    /// the syscall convention's arguments.
    pub fn do_syscall(&self, state: &mut State) -> (r: Result<(), EsilError>)
        requires
            old(state).wf(),
        ensures
            final(state).wf(),
            frame(*old(state), *final(state)),
            final(state).stack == old(state).stack,
            final(state).esil.mode == old(state).esil.mode,
            final(state).condition == old(state).condition,
            match old(state).registers.read_spec(old(state).registers.sn as int) {
                Value::Symbolic(_, _) => r == Err::<(), EsilError>(EsilError::SymbolicControl)
                    && *final(state) == *old(state),
                Value::Concrete(n, _) => (!self.syscalls@.contains_key(n) ==> r is Ok && *final(state)
                    == *old(state)) && (self.syscalls@.contains_key(n) ==> syscall_done(
                    *self,
                    *old(state),
                    *final(state),
                    n,
                    r,
                )),
            },
        decreases 2int,
    {
        let sn = state.registers.sn;
        let sys_val = state.registers.get_value(sn);
        let sys_num = match sys_val.as_u64() {
            Some(n) => n,
            None => return Err(EsilError::SymbolicControl),
        };
        if let Some(handler) = self.syscalls.get(&sys_num) {
            let mut args: Vec<Value> = Vec::new();
            self.collect_args(state, &self.syscall_cc, &mut args);
            assert(args@ =~= conv_args(old(state).registers, self.syscall_cc.args@));
            let res = self.run_sim(state, handler.as_slice(), args);
            let ghost after = *state;
            let ghost (s0, sf, hres) = choose|s0: State, sf: State, hres: Result<(), EsilError>|
                handler_start(*old(state), conv_args(old(state).registers, self.syscall_cc.args@), s0)
                    && #[trigger] parse_run(s0, words_view(handler@), true, sf, hres) && after.registers == sf.registers
                    && after.memory == sf.memory && res == match hres {
                    Ok(_) => Ok::<Option<Value>, EsilError>(handler_result(sf)),
                    Err(e) => Err::<Option<Value>, EsilError>(e),
                };
            let ret = match res {
                Ok(v) => v,
                Err(e) => {
                    assert(handler_outcome(*old(state), *state, sf, self.syscall_cc.ret, hres, Err(e)));
                    assert(syscall_done(*self, *old(state), *state, sys_num, Err(e)));
                    return Err(e);
                },
            };
            self.set_result(state, &self.syscall_cc, result_or_zero(ret));
            assert(handler_outcome(*old(state), *state, sf, self.syscall_cc.ret, hres, Ok(())));
            assert(syscall_done(*self, *old(state), *state, sys_num, Ok(())));
        }
        Ok(())
    }
}

} // verus!
