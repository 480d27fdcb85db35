use vstd::prelude::*;
use crate::memory::{bytes_spec, pack_spec, unpack_byte_spec};
use crate::registers::mask;
use crate::state::{item_value, EsilError, State, StackItem};
use crate::value::{
    binary, binary_spec, conditional, conditional_spec, low_mask, unary, unary_spec, BinOp, Term, UnOp,
    Value,
};

verus! {

/// The operators of the token language.
#[derive(Debug, Clone, Copy, PartialEq, Eq, Structural)]
pub enum Operations {
    Trap,
    Syscall,
    If,
    Else,
    EndIf,
    Compare,
    LessThan,
    LessThanEq,
    GreaterThan,
    GreaterThanEq,
    LeftShift,
    LogicalRightShift,
    RightShift,
    LeftRotation,
    RightRotation,
    And,
    Or,
    Xor,
    Add,
    Subtract,
    Multiply,
    Divide,
    Modulo,
    Not,
    Increment,
    Decrement,
    Equal,
    WeakEqual,
    Peek(u64),
    Poke(u64),
    AddressStore,
    AddressRestore,
    Zero,
    Carry,
    Borrow,
    Parity,
    Overflow,
    S,
    Pop,
    Dup,
    Swap,
    Clear,
    NoOperation,
    Break,
    GoTo,
    Unknown,
}

pub open spec fn op1(c: u8) -> Operations {
    if c == 43 { Operations::Add }              // +
    else if c == 45 { Operations::Subtract }    // -
    else if c == 42 { Operations::Multiply }    // *
    else if c == 47 { Operations::Divide }      // /
    else if c == 37 { Operations::Modulo }      // %
    else if c == 38 { Operations::And }         // &
    else if c == 124 { Operations::Or }         // |
    else if c == 94 { Operations::Xor }         // ^
    else if c == 33 { Operations::Not }         // !
    else if c == 61 { Operations::Equal }       // =
    else if c == 60 { Operations::LessThan }    // <
    else if c == 62 { Operations::GreaterThan } // >
    else if c == 36 { Operations::Syscall }     // $
    else if c == 125 { Operations::EndIf }      // }
    else { Operations::Unknown }
}

pub open spec fn op2(c: u8, d: u8) -> Operations {
    if c == 61 && d == 61 { Operations::Compare }                // ==
    else if c == 60 && d == 61 { Operations::LessThanEq }        // <=
    else if c == 62 && d == 61 { Operations::GreaterThanEq }     // >=
    else if c == 60 && d == 60 { Operations::LeftShift }         // <<
    else if c == 62 && d == 62 { Operations::LogicalRightShift } // >>
    else if c == 43 && d == 43 { Operations::Increment }         // ++
    else if c == 45 && d == 45 { Operations::Decrement }         // --
    else if c == 58 && d == 61 { Operations::WeakEqual }         // :=
    else if c == 63 && d == 123 { Operations::If }               // ?{
    else if c == 125 && d == 123 { Operations::Else }            // }{
    else if c == 36 && d == 122 { Operations::Zero }             // $z
    else if c == 36 && d == 99 { Operations::Carry }             // $c
    else if c == 36 && d == 98 { Operations::Borrow }            // $b
    else if c == 36 && d == 112 { Operations::Parity }           // $p
    else if c == 36 && d == 111 { Operations::Overflow }         // $o
    else if c == 36 && d == 115 { Operations::S }                // $s
    else { Operations::Unknown }
}

/// A width digit of a memory operator: 1, 2, 4 or 8.
pub open spec fn width_digit(c: u8) -> Option<u64> {
    if c == 49 { Some(1u64) }
    else if c == 50 { Some(2u64) }
    else if c == 52 { Some(4u64) }
    else if c == 56 { Some(8u64) }
    else { None }
}

pub open spec fn op3(c: u8, d: u8, e: u8) -> Operations {
    if c == 60 && d == 60 && e == 60 { Operations::LeftRotation }        // <<<
    else if c == 62 && d == 62 && e == 62 { Operations::RightRotation } // >>>
    else if c == 91 && e == 93 && width_digit(d) is Some { Operations::Peek(width_digit(d)->0) } // [N]
    else if c == 78 && d == 79 && e == 80 { Operations::NoOperation } // NOP
    else if c == 80 && d == 79 && e == 80 { Operations::Pop }         // POP
    else if c == 68 && d == 85 && e == 80 { Operations::Dup }         // DUP
    else { Operations::Unknown }
}

pub open spec fn op4(c: u8, d: u8, e: u8, f: u8) -> Operations {
    if c == 62 && d == 62 && e == 62 && f == 62 { Operations::RightShift } // >>>>
    else if c == 61 && d == 91 && f == 93 && width_digit(e) is Some { Operations::Poke(width_digit(e)->0) } // =[N]
    else if c == 84 && d == 82 && e == 65 && f == 80 { Operations::Trap }  // TRAP
    else if c == 71 && d == 79 && e == 84 && f == 79 { Operations::GoTo }  // GOTO
    else if c == 83 && d == 87 && e == 65 && f == 80 { Operations::Swap }  // SWAP
    else { Operations::Unknown }
}

pub open spec fn op5(s: Seq<u8>) -> Operations {
    if s[0] == 66 && s[1] == 82 && s[2] == 69 && s[3] == 65 && s[4] == 75 { Operations::Break } // BREAK
    else if s[0] == 67 && s[1] == 76 && s[2] == 69 && s[3] == 65 && s[4] == 82 { Operations::Clear } // CLEAR
    else { Operations::Unknown }
}

/// The operator a token spells, or `Unknown`.
pub open spec fn op_of(s: Seq<u8>) -> Operations {
    if s.len() == 1 { op1(s[0]) }
    else if s.len() == 2 { op2(s[0], s[1]) }
    else if s.len() == 3 { op3(s[0], s[1], s[2]) }
    else if s.len() == 4 { op4(s[0], s[1], s[2], s[3]) }
    else if s.len() == 5 { op5(s) }
    else { Operations::Unknown }
}

/// Operators that may stand before `=` in a fused read-modify-write.
pub open spec fn is_fusable(op: Operations) -> bool {
    match op {
        Operations::Add | Operations::Subtract | Operations::Multiply | Operations::Divide
        | Operations::Modulo | Operations::And | Operations::Or | Operations::Xor
        | Operations::LeftShift | Operations::LogicalRightShift | Operations::RightShift
        | Operations::LeftRotation | Operations::RightRotation | Operations::Not
        | Operations::Increment | Operations::Decrement => true,
        _ => false,
    }
}

/// Operators that pop two values and push one: the term operator, and
/// whether the operands are taken in the other order.
pub open spec fn binop_of(op: Operations) -> Option<(BinOp, bool)> {
    match op {
        Operations::Add => Some((BinOp::Add, false)),
        Operations::Subtract => Some((BinOp::Sub, false)),
        Operations::Multiply => Some((BinOp::Mul, false)),
        Operations::Divide => Some((BinOp::Div, false)),
        Operations::Modulo => Some((BinOp::Rem, false)),
        Operations::And => Some((BinOp::And, false)),
        Operations::Or => Some((BinOp::Or, false)),
        Operations::Xor => Some((BinOp::Xor, false)),
        Operations::LeftShift => Some((BinOp::Shl, false)),
        Operations::LogicalRightShift => Some((BinOp::Shr, false)),
        Operations::RightShift => Some((BinOp::Sar, false)),
        Operations::LeftRotation => Some((BinOp::Rol, false)),
        Operations::RightRotation => Some((BinOp::Ror, false)),
        Operations::LessThan => Some((BinOp::Ult, false)),
        Operations::LessThanEq => Some((BinOp::Ule, false)),
        Operations::GreaterThan => Some((BinOp::Ult, true)),
        Operations::GreaterThanEq => Some((BinOp::Ule, true)),
        _ => None,
    }
}

/// Operators that pop one value and push one.
pub open spec fn unop_result(op: Operations, a: Value) -> Option<Value> {
    match op {
        Operations::Not => Some(unary_spec(UnOp::IsZero, a)),
        Operations::Increment => Some(binary_spec(BinOp::Add, a, Value::Concrete(1, 0))),
        Operations::Decrement => Some(binary_spec(BinOp::Sub, a, Value::Concrete(1, 0))),
        _ => None,
    }
}

pub open spec fn flag_mask(bits: u64) -> u64 {
    if bits >= 64 { 0xffff_ffff_ffff_ffffu64 } else { low_mask(bits) }
}

/// Whether the last store carried out of its low `bits` bits.
pub open spec fn carry_spec(cur: Value, prev: Value, bits: u64) -> Value {
    let m = Value::Concrete(flag_mask(bits), 0);
    binary_spec(BinOp::Ult, binary_spec(BinOp::And, cur, m), binary_spec(BinOp::And, prev, m))
}

/// Whether the last store borrowed into its low `bits` bits.
pub open spec fn borrow_spec(cur: Value, prev: Value, bits: u64) -> Value {
    let m = Value::Concrete(flag_mask(bits), 0);
    binary_spec(BinOp::Ult, binary_spec(BinOp::And, prev, m), binary_spec(BinOp::And, cur, m))
}

pub open spec fn zero_spec(cur: Value, width: u64) -> Value {
    binary_spec(
        BinOp::Eq,
        binary_spec(BinOp::And, cur, Value::Concrete(flag_mask(width), 0)),
        Value::Concrete(0, 0),
    )
}

pub open spec fn sign_spec(cur: Value, bits: u64) -> Value {
    binary_spec(
        BinOp::And,
        binary_spec(BinOp::Shr, cur, Value::Concrete(if bits == 0 { 0 } else { (bits - 1) as u64 }, 0)),
        Value::Concrete(1, 0),
    )
}

pub open spec fn overflow_spec(cur: Value, prev: Value, bits: u64) -> Value {
    binary_spec(
        BinOp::Xor,
        carry_spec(cur, prev, bits),
        carry_spec(cur, prev, if bits == 0 { 0 } else { (bits - 1) as u64 }),
    )
}

/// What a store writes: inside a symbolic conditional, the new value where
/// the condition holds and the old one elsewhere.
pub open spec fn guarded(cond: Option<Term>, new: Value, old: Value) -> Value {
    match cond {
        Some(c) => conditional_spec(Value::Symbolic(c, 0), new, old),
        None => new,
    }
}

pub open spec fn top(s: State) -> Value {
    item_value(s.registers, s.stack@.last())
}

pub open spec fn second(s: State) -> Value {
    item_value(s.registers, s.stack@[s.stack@.len() - 2])
}

/// The operator a token spells.
pub fn from_bytes(s: &[u8]) -> (r: Operations)
    ensures
        r == op_of(s@),
{
    let n = s.len();
    if n == 1 {
        let c = s[0];
        if c == 43 { Operations::Add }
        else if c == 45 { Operations::Subtract }
        else if c == 42 { Operations::Multiply }
        else if c == 47 { Operations::Divide }
        else if c == 37 { Operations::Modulo }
        else if c == 38 { Operations::And }
        else if c == 124 { Operations::Or }
        else if c == 94 { Operations::Xor }
        else if c == 33 { Operations::Not }
        else if c == 61 { Operations::Equal }
        else if c == 60 { Operations::LessThan }
        else if c == 62 { Operations::GreaterThan }
        else if c == 36 { Operations::Syscall }
        else if c == 125 { Operations::EndIf }
        else { Operations::Unknown }
    } else if n == 2 {
        let c = s[0];
        let d = s[1];
        if c == 61 && d == 61 { Operations::Compare }
        else if c == 60 && d == 61 { Operations::LessThanEq }
        else if c == 62 && d == 61 { Operations::GreaterThanEq }
        else if c == 60 && d == 60 { Operations::LeftShift }
        else if c == 62 && d == 62 { Operations::LogicalRightShift }
        else if c == 43 && d == 43 { Operations::Increment }
        else if c == 45 && d == 45 { Operations::Decrement }
        else if c == 58 && d == 61 { Operations::WeakEqual }
        else if c == 63 && d == 123 { Operations::If }
        else if c == 125 && d == 123 { Operations::Else }
        else if c == 36 && d == 122 { Operations::Zero }
        else if c == 36 && d == 99 { Operations::Carry }
        else if c == 36 && d == 98 { Operations::Borrow }
        else if c == 36 && d == 112 { Operations::Parity }
        else if c == 36 && d == 111 { Operations::Overflow }
        else if c == 36 && d == 115 { Operations::S }
        else { Operations::Unknown }
    } else if n == 3 {
        let c = s[0];
        let d = s[1];
        let e = s[2];
        if c == 60 && d == 60 && e == 60 { Operations::LeftRotation }
        else if c == 62 && d == 62 && e == 62 { Operations::RightRotation }
        else if c == 91 && e == 93 && width_of(d).is_some() {
            match width_of(d) {
                Some(w) => Operations::Peek(w),
                None => Operations::Unknown,
            }
        }
        else if c == 78 && d == 79 && e == 80 { Operations::NoOperation }
        else if c == 80 && d == 79 && e == 80 { Operations::Pop }
        else if c == 68 && d == 85 && e == 80 { Operations::Dup }
        else { Operations::Unknown }
    } else if n == 4 {
        let c = s[0];
        let d = s[1];
        let e = s[2];
        let f = s[3];
        if c == 62 && d == 62 && e == 62 && f == 62 { Operations::RightShift }
        else if c == 61 && d == 91 && f == 93 && width_of(e).is_some() {
            match width_of(e) {
                Some(w) => Operations::Poke(w),
                None => Operations::Unknown,
            }
        }
        else if c == 84 && d == 82 && e == 65 && f == 80 { Operations::Trap }
        else if c == 71 && d == 79 && e == 84 && f == 79 { Operations::GoTo }
        else if c == 83 && d == 87 && e == 65 && f == 80 { Operations::Swap }
        else { Operations::Unknown }
    } else if n == 5 {
        if s[0] == 66 && s[1] == 82 && s[2] == 69 && s[3] == 65 && s[4] == 75 { Operations::Break }
        else if s[0] == 67 && s[1] == 76 && s[2] == 69 && s[3] == 65 && s[4] == 82 { Operations::Clear }
        else { Operations::Unknown }
    } else {
        Operations::Unknown
    }
}

fn width_of(c: u8) -> (r: Option<u64>)
    ensures
        r == width_digit(c),
{
    if c == 49 { Some(1) }
    else if c == 50 { Some(2) }
    else if c == 52 { Some(4) }
    else if c == 56 { Some(8) }
    else { None }
}

pub fn fusable(op: Operations) -> (r: bool)
    ensures
        r == is_fusable(op),
{
    match op {
        Operations::Add | Operations::Subtract | Operations::Multiply | Operations::Divide
        | Operations::Modulo | Operations::And | Operations::Or | Operations::Xor
        | Operations::LeftShift | Operations::LogicalRightShift | Operations::RightShift
        | Operations::LeftRotation | Operations::RightRotation | Operations::Not
        | Operations::Increment | Operations::Decrement => true,
        _ => false,
    }
}

fn binop(op: Operations) -> (r: Option<(BinOp, bool)>)
    ensures
        r == binop_of(op),
{
    match op {
        Operations::Add => Some((BinOp::Add, false)),
        Operations::Subtract => Some((BinOp::Sub, false)),
        Operations::Multiply => Some((BinOp::Mul, false)),
        Operations::Divide => Some((BinOp::Div, false)),
        Operations::Modulo => Some((BinOp::Rem, false)),
        Operations::And => Some((BinOp::And, false)),
        Operations::Or => Some((BinOp::Or, false)),
        Operations::Xor => Some((BinOp::Xor, false)),
        Operations::LeftShift => Some((BinOp::Shl, false)),
        Operations::LogicalRightShift => Some((BinOp::Shr, false)),
        Operations::RightShift => Some((BinOp::Sar, false)),
        Operations::LeftRotation => Some((BinOp::Rol, false)),
        Operations::RightRotation => Some((BinOp::Ror, false)),
        Operations::LessThan => Some((BinOp::Ult, false)),
        Operations::LessThanEq => Some((BinOp::Ule, false)),
        Operations::GreaterThan => Some((BinOp::Ult, true)),
        Operations::GreaterThanEq => Some((BinOp::Ule, true)),
        _ => None,
    }
}

fn guard(cond: &Option<Term>, new: Value, old: &Value) -> (r: Value)
    ensures
        r == guarded(*cond, new, *old),
{
    match cond {
        Some(c) => conditional(&Value::Symbolic(c.duplicate(), 0), &new, old),
        None => new,
    }
}

fn flag_mask_of(bits: u64) -> (r: u64)
    ensures
        r == flag_mask(bits),
{
    if bits >= 64 { 0xffff_ffff_ffff_ffffu64 } else { mask(bits) }
}

fn carry_of(cur: &Value, prev: &Value, bits: u64) -> (r: Value)
    ensures
        r == carry_spec(*cur, *prev, bits),
{
    let m = Value::Concrete(flag_mask_of(bits), 0);
    binary(BinOp::Ult, &binary(BinOp::And, cur, &m), &binary(BinOp::And, prev, &m))
}

/// What `do_operation` does: the state `t` and result `r` it gives from `s`.
pub open spec fn op_post(s: State, op: Operations, t: State, r: Result<(), EsilError>) -> bool {
    &&& (t.wf())
    &&& (t.condition == s.condition)
    &&& (t.esil.mode == s.esil.mode)
    &&& (t.esil.pcs == s.esil.pcs)
    &&& (t.registers.same_layout(s.registers))
    &&& (t.status == s.status)
    &&& (t.assertions == s.assertions)
    &&& (t.backtrace == s.backtrace)
    &&& (t.crash == s.crash)
    &&& (binop_of(op) is Some && s.stack@.len() >= 2 ==> r is Ok && ({
            let (bop, swapped) = binop_of(op)->0;
            let a = top(s);
            let b = second(s);
            t.stack@ == s.stack@.drop_last().drop_last().push(
                StackItem::StackValue(if swapped { binary_spec(bop, b, a) } else { binary_spec(bop, a, b) }),
            ) && t.registers == s.registers && t.memory == s.memory
}))
    &&& (unop_result(op, Value::Concrete(0, 0)) is Some && s.stack@.len() >= 1 ==> r is Ok
&& t.stack@ == s.stack@.drop_last().push(
            StackItem::StackValue(unop_result(op, top(s))->0)
) && t.registers == s.registers && t.memory == s.memory)
    &&& ((op == Operations::Equal || op == Operations::WeakEqual) && s.stack@.len() >= 2 ==> (
match s.stack@.last() {
            StackItem::StackRegister(i) => r is Ok && t.stack@
                == s.stack@.drop_last().drop_last() && t.registers.values@
                == s.registers.write_spec(
                i as int,
                guarded(s.condition, second(s), s.registers.read_spec(i as int)),
            ) && t.memory == s.memory,
            StackItem::StackValue(_) => r == Err::<(), EsilError>(EsilError::NotARegister)
}))
    &&& (op == Operations::Zero ==> r is Ok && t.stack@ == s.stack@.push(
            StackItem::StackValue(zero_spec(s.esil.current, s.esil.last_width))
))
    &&& (((binop_of(op) is Some || op == Operations::Equal || op == Operations::WeakEqual
            || op == Operations::Compare || op == Operations::Swap) && s.stack@.len() < 2)
==> r == Err::<(), EsilError>(EsilError::StackUnderflow))
    &&& (op == Operations::Compare && s.stack@.len() >= 2 ==> r is Ok && t.stack@
== s.stack@.drop_last().drop_last() && t.esil.current == binary_spec(
            BinOp::Sub,
            top(s),
            second(s)
) && t.esil.previous == top(s) && t.esil.last_width == 64)
    &&& ((match op {
            Operations::Peek(n) => 1 <= n <= 8 && s.stack@.len() >= 1 && top(s) is Concrete
                && top(s)->Concrete_0 + n <= u64::MAX,
            _ => false
}) ==> r is Ok && t.stack@ == s.stack@.drop_last().push(
            StackItem::StackValue(
                pack_spec(
                    bytes_spec(s.memory.mem@, top(s)->Concrete_0, op->Peek_0 as nat),
                ),
            )
) && t.memory == s.memory && t.registers == s.registers)
    &&& ((match op {
            Operations::Poke(n) => 1 <= n <= 8 && s.stack@.len() >= 2 && top(s) is Concrete
                && top(s)->Concrete_0 + n <= u64::MAX,
            _ => false
}) ==> ({
            let a = top(s)->Concrete_0;
            let n = op->Poke_0;
            let v = guarded(
                s.condition,
                second(s),
                pack_spec(bytes_spec(s.memory.mem@, a, n as nat)),
            );
            &&& r is Ok
            &&& t.stack@ == s.stack@.drop_last().drop_last()
            &&& t.registers == s.registers
            &&& forall|x: u64|
                #![trigger t.memory.mem@.contains_key(x)]
                #![trigger t.memory.mem@[x]]
                (a <= x < a + n ==> t.memory.mem@.contains_key(x) && t.memory.mem@[x]
                    == unpack_byte_spec(v, (x - a) as nat)) && (!(a <= x < a + n) ==> (
                t.memory.mem@.contains_key(x) == s.memory.mem@.contains_key(x)
                    && t.memory.mem@[x] == s.memory.mem@[x]))
}))
    &&& ((op == Operations::Pop || op == Operations::Dup || op == Operations::AddressStore) && s.stack@.len() == 0 ==> r == Err::<(), EsilError>(EsilError::StackUnderflow))
    &&& (op == Operations::Pop && s.stack@.len() >= 1 ==> r is Ok && t.stack@ == s.stack@.drop_last())
    &&& (op == Operations::Dup && s.stack@.len() >= 1 ==> r is Ok && t.stack@ == s.stack@.drop_last().push(StackItem::StackValue(top(s))).push(
            StackItem::StackValue(top(s))
))
    &&& (op == Operations::Swap && s.stack@.len() >= 2 ==> r is Ok && t.stack@ == s.stack@.drop_last().drop_last().push(StackItem::StackValue(top(s))).push(
            StackItem::StackValue(second(s))
))
    &&& (op == Operations::Clear ==> r is Ok && t.stack@.len() == 0)
    &&& (op == Operations::Unknown ==> r is Ok && t.stack@ == s.stack@.push(
            StackItem::StackValue(Value::Concrete(0, 0))
))
    &&& (op == Operations::AddressStore && s.stack@.len() >= 1 ==> r is Ok && t.stack@
== s.stack@.drop_last().push(StackItem::StackValue(top(s)))
&& t.esil.stored_address == Some(top(s)))
    &&& (op == Operations::AddressRestore ==> match s.esil.stored_address {
            Some(a) => r is Ok && t.stack@ == s.stack@.push(StackItem::StackValue(a)),
            None => r == Err::<(), EsilError>(EsilError::StackUnderflow)
})
    &&& (op == Operations::Parity ==> r is Ok && t.stack@ == s.stack@.push(
            StackItem::StackValue(unary_spec(UnOp::Parity, s.esil.current))
))
    &&& ((op == Operations::Carry || op == Operations::Borrow || op == Operations::Overflow || op
            == Operations::S) && s.stack@.len() >= 1 && top(s) is Concrete ==> ({
            let b = top(s)->Concrete_0;
            let cur = s.esil.current;
            let prev = s.esil.previous;
            &&& r is Ok
            &&& t.stack@ == s.stack@.drop_last().push(
                StackItem::StackValue(
                    if op == Operations::Carry {
                        carry_spec(cur, prev, if b >= 64 { 64 } else { (b + 1) as u64 })
                    } else if op == Operations::Borrow {
                        borrow_spec(cur, prev, b)
                    } else if op == Operations::Overflow {
                        overflow_spec(cur, prev, b)
                    } else {
                        sign_spec(cur, b)
                    },
                ),
            )
}))
    &&& (binop_of(op) is None && op != Operations::Equal && op != Operations::WeakEqual && !(op is Poke) ==> (
t.registers == s.registers && t.memory == s.memory))
    &&& (op == Operations::NoOperation ==> r is Ok && t.stack@ == s.stack@
&& t.registers == s.registers && t.memory == s.memory)
    &&& t.filesystem == s.filesystem
}

/// Applies one operator other than the control operators (`If`, `Else`,
/// `EndIf`, `GoTo`, `Break`, `Trap`, `Syscall`), which the evaluator
/// handles itself and which leave the state unchanged here.
pub fn do_operation(state: &mut State, op: Operations) -> (r: Result<(), EsilError>)
    requires
        old(state).wf(),
    ensures
        op_post(*old(state), op, *final(state), r),
{
    if let Some((bop, swapped)) = binop(op) {
        if state.stack.len() < 2 {
            return Err(EsilError::StackUnderflow);
        }
        let a = state.pop_value()?;
        let b = state.pop_value()?;
        let v = if swapped { binary(bop, &b, &a) } else { binary(bop, &a, &b) };
        state.push_value(v);
        return Ok(());
    }
    match op {
        Operations::Not | Operations::Increment | Operations::Decrement => {
            let a = state.pop_value()?;
            let v = match op {
                Operations::Not => unary(UnOp::IsZero, &a),
                Operations::Increment => binary(BinOp::Add, &a, &Value::Concrete(1, 0)),
                _ => binary(BinOp::Sub, &a, &Value::Concrete(1, 0)),
            };
            state.push_value(v);
            Ok(())
        },
        Operations::Equal | Operations::WeakEqual => {
            if state.stack.len() < 2 {
                return Err(EsilError::StackUnderflow);
            }
            let reg = state.pop_register()?;
            let v = state.pop_value()?;
            let prev = state.registers.get_value(reg);
            let v = guard(&state.condition, v, &prev);
            let cur = v.duplicate();
            let width = state.registers.entries[reg].width;
            state.registers.set_value(reg, v);
            if op == Operations::Equal {
                state.esil.previous = prev;
                state.esil.current = cur;
                state.esil.last_width = width;
            }
            Ok(())
        },
        Operations::Compare => {
            if state.stack.len() < 2 {
                return Err(EsilError::StackUnderflow);
            }
            let a = state.pop_value()?;
            let b = state.pop_value()?;
            state.esil.current = binary(BinOp::Sub, &a, &b);
            state.esil.previous = a;
            state.esil.last_width = 64;
            Ok(())
        },
        Operations::Peek(n) => {
            let addr = state.pop_concrete()?;
            if n > 8 || addr > u64::MAX - n {
                return Err(EsilError::AddressOverflow);
            }
            let v = state.memory.read_value(addr, n);
            state.push_value(v);
            Ok(())
        },
        Operations::Poke(n) => {
            let addr = state.pop_concrete()?;
            let v = state.pop_value()?;
            if n > 8 || addr > u64::MAX - n {
                return Err(EsilError::AddressOverflow);
            }
            let v = if state.condition.is_some() {
                let old_value = state.memory.read_value(addr, n);
                guard(&state.condition, v, &old_value)
            } else {
                v
            };
            state.memory.write_value(addr, &v, n);
            Ok(())
        },
        Operations::AddressStore => {
            let a = state.pop_value()?;
            state.esil.stored_address = Some(a.duplicate());
            state.push_value(a);
            Ok(())
        },
        Operations::AddressRestore => {
            match &state.esil.stored_address {
                Some(a) => {
                    let v = a.duplicate();
                    state.push_value(v);
                    Ok(())
                },
                None => Err(EsilError::StackUnderflow),
            }
        },
        Operations::Zero => {
            let m = Value::Concrete(flag_mask_of(state.esil.last_width), 0);
            let v = binary(BinOp::Eq, &binary(BinOp::And, &state.esil.current, &m), &Value::Concrete(0, 0));
            state.push_value(v);
            Ok(())
        },
        Operations::Carry => {
            let bits = state.pop_concrete()?;
            let b = if bits >= 64 { 64 } else { bits + 1 };
            let v = carry_of(&state.esil.current, &state.esil.previous, b);
            state.push_value(v);
            Ok(())
        },
        Operations::Borrow => {
            let bits = state.pop_concrete()?;
            let m = Value::Concrete(flag_mask_of(bits), 0);
            let v = binary(
                BinOp::Ult,
                &binary(BinOp::And, &state.esil.previous, &m),
                &binary(BinOp::And, &state.esil.current, &m),
            );
            state.push_value(v);
            Ok(())
        },
        Operations::Parity => {
            let v = unary(UnOp::Parity, &state.esil.current);
            state.push_value(v);
            Ok(())
        },
        Operations::Overflow => {
            let bits = state.pop_concrete()?;
            let lower = if bits == 0 { 0 } else { bits - 1 };
            let c_out = carry_of(&state.esil.current, &state.esil.previous, bits);
            let c_in = carry_of(&state.esil.current, &state.esil.previous, lower);
            state.push_value(binary(BinOp::Xor, &c_out, &c_in));
            Ok(())
        },
        Operations::S => {
            let bits = state.pop_concrete()?;
            let shift = if bits == 0 { 0 } else { bits - 1 };
            let v = binary(
                BinOp::And,
                &binary(BinOp::Shr, &state.esil.current, &Value::Concrete(shift, 0)),
                &Value::Concrete(1, 0),
            );
            state.push_value(v);
            Ok(())
        },
        Operations::Pop => {
            let _ = state.pop_value()?;
            Ok(())
        },
        Operations::Dup => {
            let a = state.pop_value()?;
            state.push_value(a.duplicate());
            state.push_value(a);
            Ok(())
        },
        Operations::Swap => {
            if state.stack.len() < 2 {
                return Err(EsilError::StackUnderflow);
            }
            let a = state.pop_value()?;
            let b = state.pop_value()?;
            state.push_value(a);
            state.push_value(b);
            Ok(())
        },
        Operations::Clear => {
            state.stack.clear();
            Ok(())
        },
        Operations::Unknown => {
            state.push_value(Value::Concrete(0, 0));
            Ok(())
        },
        _ => Ok(()),
    }
}

} // verus!
