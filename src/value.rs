use vstd::prelude::*;

verus! {

broadcast use vstd::std_specs::hash::group_hash_axioms;

/// Binary operators of the symbolic term language. All operands and results
/// are 64-bit words; comparisons and logical connectives yield 0 or 1.
#[derive(Debug, Clone, Copy, PartialEq, Eq, Structural)]
pub enum BinOp {
    Add,
    Sub,
    Mul,
    Div,
    Rem,
    And,
    Or,
    Xor,
    Shl,
    Shr,
    /// arithmetic (sign-filling) right shift
    Sar,
    /// left rotation by the amount modulo 64
    Rol,
    /// right rotation by the amount modulo 64
    Ror,
    Eq,
    Ult,
    Ule,
    LogicAnd,
    LogicOr,
}

/// Unary operators of the symbolic term language.
#[derive(Debug, Clone, Copy, PartialEq, Eq, Structural)]
pub enum UnOp {
    /// bitwise complement
    Not,
    /// 1 when the operand is zero, else 0
    IsZero,
    /// 1 when the low byte has an even number of set bits, else 0
    Parity,
}

/// A symbolic bit-vector term: what the solver backend receives.
#[derive(Debug)]
pub enum Term {
    Const(u64),
    /// the symbol with the given number, restricted to its low `width` bits
    Sym(u64, u64),
    Unary(UnOp, Box<Term>),
    Binary(BinOp, Box<Term>, Box<Term>),
    /// `Ite(c, a, b)` is `a` where `c` is non-zero, else `b`
    Ite(Box<Term>, Box<Term>, Box<Term>),
}

/// A value handled by the evaluator: a concrete word or a symbolic term,
/// each with a taint mask.
#[derive(Debug)]
pub enum Value {
    Concrete(u64, u64),
    Symbolic(Term, u64),
}

pub open spec fn low_mask(width: u64) -> u64 {
    if width >= 64 {
        0xffff_ffff_ffff_ffffu64
    } else {
        ((1u64 << width) - 1) as u64
    }
}

pub open spec fn parity_of(x: u64) -> u64
    decreases 8nat,
{
    parity_bits(x & 0xff, 8)
}

pub open spec fn parity_bits(x: u64, n: nat) -> u64
    decreases n,
{
    if n == 0 {
        1
    } else {
        let rest = parity_bits(x >> 1, (n - 1) as nat);
        if x & 1 == 1 {
            (1 - rest) as u64
        } else {
            rest
        }
    }
}

/// Meaning of a binary operator on two words.
pub open spec fn bin_spec(op: BinOp, a: u64, b: u64) -> u64 {
    match op {
        BinOp::Add => vstd::wrapping::u64_specs::wrapping_add(a, b),
        BinOp::Sub => vstd::wrapping::u64_specs::wrapping_sub(a, b),
        BinOp::Mul => vstd::wrapping::u64_specs::wrapping_mul(a, b),
        BinOp::Div => if b == 0 { 0xffff_ffff_ffff_ffffu64 } else { a / b },
        BinOp::Rem => if b == 0 { a } else { a % b },
        BinOp::And => a & b,
        BinOp::Or => a | b,
        BinOp::Xor => a ^ b,
        BinOp::Shl => if b >= 64 { 0 } else { a << b },
        BinOp::Shr => if b >= 64 { 0 } else { a >> b },
        BinOp::Sar => sar_spec(a, b),
        BinOp::Rol => rol_spec(a, b),
        BinOp::Ror => rol_spec(a, ((64 - b % 64) % 64) as u64),
        BinOp::Eq => if a == b { 1 } else { 0 },
        BinOp::Ult => if a < b { 1 } else { 0 },
        BinOp::Ule => if a <= b { 1 } else { 0 },
        BinOp::LogicAnd => if a != 0 && b != 0 { 1 } else { 0 },
        BinOp::LogicOr => if a != 0 || b != 0 { 1 } else { 0 },
    }
}

/// `a` shifted right by `b`, the vacated bits copies of the sign bit.
pub open spec fn sar_spec(a: u64, b: u64) -> u64 {
    let neg = a >> 63u64 == 1;
    if b >= 64 {
        if neg { 0xffff_ffff_ffff_ffffu64 } else { 0 }
    } else if neg {
        (a >> b) | !(0xffff_ffff_ffff_ffffu64 >> b)
    } else {
        a >> b
    }
}

/// `a` rotated left by `b` modulo 64.
pub open spec fn rol_spec(a: u64, b: u64) -> u64 {
    let k = (b % 64) as u64;
    if k == 0 {
        a
    } else {
        (a << k) | (a >> (64 - k) as u64)
    }
}

/// Meaning of a unary operator on a word.
pub open spec fn un_spec(op: UnOp, a: u64) -> u64 {
    match op {
        UnOp::Not => !a,
        UnOp::IsZero => if a == 0 { 1 } else { 0 },
        UnOp::Parity => parity_of(a),
    }
}

/// The word a term denotes once each symbol is given a word by `env`
/// (symbols that `env` leaves out read as zero).
pub open spec fn eval(t: Term, env: Map<u64, u64>) -> u64
    decreases t,
{
    match t {
        Term::Const(c) => c,
        Term::Sym(id, width) => (if env.contains_key(id) { env[id] } else { 0 }) & low_mask(width),
        Term::Unary(op, a) => un_spec(op, eval(*a, env)),
        Term::Binary(op, a, b) => bin_spec(op, eval(*a, env), eval(*b, env)),
        Term::Ite(c, a, b) => if eval(*c, env) != 0 { eval(*a, env) } else { eval(*b, env) },
    }
}

/// The word a value denotes under `env`.
pub open spec fn value_eval(v: Value, env: Map<u64, u64>) -> u64 {
    match v {
        Value::Concrete(c, _) => c,
        Value::Symbolic(t, _) => eval(t, env),
    }
}

pub open spec fn taint_of(v: Value) -> u64 {
    match v {
        Value::Concrete(_, t) => t,
        Value::Symbolic(_, t) => t,
    }
}

/// The term that stands for a value.
pub open spec fn term_of(v: Value) -> Term {
    match v {
        Value::Concrete(c, _) => Term::Const(c),
        Value::Symbolic(t, _) => t,
    }
}

/// Result of a binary operator on two values: computed when both are
/// concrete, else a term.
pub open spec fn binary_spec(op: BinOp, a: Value, b: Value) -> Value {
    match (a, b) {
        (Value::Concrete(x, s), Value::Concrete(y, t)) => Value::Concrete(bin_spec(op, x, y), s | t),
        _ => Value::Symbolic(
            Term::Binary(op, Box::new(term_of(a)), Box::new(term_of(b))),
            taint_of(a) | taint_of(b),
        ),
    }
}

pub open spec fn unary_spec(op: UnOp, a: Value) -> Value {
    match a {
        Value::Concrete(x, t) => Value::Concrete(un_spec(op, x), t),
        Value::Symbolic(s, t) => Value::Symbolic(Term::Unary(op, Box::new(s)), t),
    }
}

/// If-then-else on values: decided at once when the condition is concrete,
/// or when both sides are the same concrete word.
pub open spec fn conditional_spec(c: Value, a: Value, b: Value) -> Value {
    match c {
        Value::Concrete(x, _) => if x != 0 { a } else { b },
        Value::Symbolic(t, ct) => if a is Concrete && b is Concrete && a->Concrete_0 == b->Concrete_0 {
            Value::Concrete(a->Concrete_0, ct | taint_of(a) | taint_of(b))
        } else {
            Value::Symbolic(
            Term::Ite(Box::new(t), Box::new(term_of(a)), Box::new(term_of(b))),
            ct | taint_of(a) | taint_of(b),
        )
        },
    }
}

pub fn concrete_bin(op: BinOp, a: u64, b: u64) -> (r: u64)
    ensures
        r == bin_spec(op, a, b),
{
    match op {
        BinOp::Add => a.wrapping_add(b),
        BinOp::Sub => a.wrapping_sub(b),
        BinOp::Mul => a.wrapping_mul(b),
        BinOp::Div => if b == 0 { 0xffff_ffff_ffff_ffffu64 } else { a / b },
        BinOp::Rem => if b == 0 { a } else { a % b },
        BinOp::And => a & b,
        BinOp::Or => a | b,
        BinOp::Xor => a ^ b,
        BinOp::Shl => if b >= 64 { 0 } else { a << b },
        BinOp::Shr => if b >= 64 { 0 } else { a >> b },
        BinOp::Sar => {
            let neg = a >> 63 == 1;
            if b >= 64 {
                if neg { 0xffff_ffff_ffff_ffffu64 } else { 0 }
            } else if neg {
                (a >> b) | !(0xffff_ffff_ffff_ffffu64 >> b)
            } else {
                a >> b
            }
        },
        BinOp::Rol => rotate_left(a, b),
        BinOp::Ror => rotate_left(a, (64 - b % 64) % 64),
        BinOp::Eq => if a == b { 1 } else { 0 },
        BinOp::Ult => if a < b { 1 } else { 0 },
        BinOp::Ule => if a <= b { 1 } else { 0 },
        BinOp::LogicAnd => if a != 0 && b != 0 { 1 } else { 0 },
        BinOp::LogicOr => if a != 0 || b != 0 { 1 } else { 0 },
    }
}

fn rotate_left(a: u64, b: u64) -> (r: u64)
    ensures
        r == rol_spec(a, b),
{
    let k = b % 64;
    if k == 0 {
        a
    } else {
        (a << k) | (a >> (64 - k))
    }
}

/// Even parity of the low byte of `x`.
pub fn parity(x: u64) -> (r: u64)
    ensures
        r == parity_of(x),
{
    let mut v: u64 = x & 0xff;
    let mut acc: u64 = 1;
    let mut i: u64 = 0;
    while i < 8
        invariant
            i <= 8,
            acc <= 1,
            parity_bits(x & 0xff, 8) == if acc == 1 {
                parity_bits(v, (8 - i) as nat)
            } else {
                (1 - parity_bits(v, (8 - i) as nat)) as u64
            },
        decreases 8 - i,
    {
        proof {
            lemma_parity_bits_bit(v >> 1, (7 - i) as nat);
        }
        if v & 1 == 1 {
            acc = 1 - acc;
        }
        v = v >> 1;
        i = i + 1;
    }
    acc
}

proof fn lemma_parity_bits_bit(x: u64, n: nat)
    ensures
        parity_bits(x, n) <= 1,
    decreases n,
{
    if n > 0 {
        lemma_parity_bits_bit(x >> 1, (n - 1) as nat);
    }
}

pub fn concrete_un(op: UnOp, a: u64) -> (r: u64)
    ensures
        r == un_spec(op, a),
{
    match op {
        UnOp::Not => !a,
        UnOp::IsZero => if a == 0 { 1 } else { 0 },
        UnOp::Parity => parity(a),
    }
}

impl Term {
    /// A copy of the term, equal to it.
    pub fn duplicate(&self) -> (r: Term)
        ensures
            r == *self,
        decreases self,
    {
        match self {
            Term::Const(c) => Term::Const(*c),
            Term::Sym(id, w) => Term::Sym(*id, *w),
            Term::Unary(op, a) => Term::Unary(*op, Box::new(a.duplicate())),
            Term::Binary(op, a, b) => Term::Binary(*op, Box::new(a.duplicate()), Box::new(b.duplicate())),
            Term::Ite(c, a, b) => Term::Ite(
                Box::new(c.duplicate()),
                Box::new(a.duplicate()),
                Box::new(b.duplicate()),
            ),
        }
    }
}

impl Value {
    /// A copy of the value, equal to it.
    pub fn duplicate(&self) -> (r: Value)
        ensures
            r == *self,
    {
        match self {
            Value::Concrete(c, t) => Value::Concrete(*c, *t),
            Value::Symbolic(s, t) => Value::Symbolic(s.duplicate(), *t),
        }
    }

    pub fn is_concrete(&self) -> (r: bool)
        ensures
            r == (*self is Concrete),
    {
        match self {
            Value::Concrete(_, _) => true,
            Value::Symbolic(_, _) => false,
        }
    }

    /// The word of a concrete value.
    pub fn as_u64(&self) -> (r: Option<u64>)
        ensures
            r == (match *self {
                Value::Concrete(c, _) => Some(c),
                Value::Symbolic(_, _) => None::<u64>,
            }),
    {
        match self {
            Value::Concrete(c, _) => Some(*c),
            Value::Symbolic(_, _) => None,
        }
    }

    pub fn taint(&self) -> (r: u64)
        ensures
            r == taint_of(*self),
    {
        match self {
            Value::Concrete(_, t) => *t,
            Value::Symbolic(_, t) => *t,
        }
    }

    /// The term that stands for the value.
    pub fn to_term(&self) -> (r: Term)
        ensures
            r == term_of(*self),
    {
        match self {
            Value::Concrete(c, _) => Term::Const(*c),
            Value::Symbolic(s, _) => s.duplicate(),
        }
    }
}

/// Applies a binary operator: on two concrete values it computes the word,
/// else it builds a term, which allocates nothing for the concrete path.
pub fn binary(op: BinOp, a: &Value, b: &Value) -> (r: Value)
    ensures
        r == binary_spec(op, *a, *b),
{
    match (a, b) {
        (Value::Concrete(x, s), Value::Concrete(y, t)) => Value::Concrete(concrete_bin(op, *x, *y), *s | *t),
        _ => Value::Symbolic(
            Term::Binary(op, Box::new(a.to_term()), Box::new(b.to_term())),
            a.taint() | b.taint(),
        ),
    }
}

pub fn unary(op: UnOp, a: &Value) -> (r: Value)
    ensures
        r == unary_spec(op, *a),
{
    match a {
        Value::Concrete(x, t) => Value::Concrete(concrete_un(op, *x), *t),
        Value::Symbolic(s, t) => Value::Symbolic(Term::Unary(op, Box::new(s.duplicate())), *t),
    }
}

/// If-then-else over values.
pub fn conditional(c: &Value, a: &Value, b: &Value) -> (r: Value)
    ensures
        r == conditional_spec(*c, *a, *b),
{
    match c {
        Value::Concrete(x, _) => if *x != 0 { a.duplicate() } else { b.duplicate() },
        Value::Symbolic(t, ct) => match (a, b) {
            (Value::Concrete(x, ta), Value::Concrete(y, tb)) if *x == *y => Value::Concrete(*x, *ct | *ta | *tb),
            _ => Value::Symbolic(
                Term::Ite(Box::new(t.duplicate()), Box::new(a.to_term()), Box::new(b.to_term())),
                *ct | a.taint() | b.taint(),
            ),
        },
    }
}

/// The word a term denotes under the assignment `env`.
pub fn evaluate(t: &Term, env: &std::collections::HashMap<u64, u64>) -> (r: u64)
    ensures
        r == eval(*t, env@),
    decreases t,
{
    match t {
        Term::Const(c) => *c,
        Term::Sym(id, width) => {
            let v = match env.get(id) {
                Some(v) => *v,
                None => 0,
            };
            v & crate::registers::mask(*width)
        },
        Term::Unary(op, a) => concrete_un(*op, evaluate(a, env)),
        Term::Binary(op, a, b) => concrete_bin(*op, evaluate(a, env), evaluate(b, env)),
        Term::Ite(c, a, b) => {
            if evaluate(c, env) != 0 {
                evaluate(a, env)
            } else {
                evaluate(b, env)
            }
        },
    }
}

/// Building a value never changes its meaning: a binary result denotes the
/// operator applied to what the operands denote, under every assignment.
pub proof fn lemma_binary_sound(op: BinOp, a: Value, b: Value, env: Map<u64, u64>)
    ensures
        value_eval(binary_spec(op, a, b), env) == bin_spec(op, value_eval(a, env), value_eval(b, env)),
{
    reveal_with_fuel(eval, 2);
}

/// A unary result denotes the operator applied to what its operand denotes.
pub proof fn lemma_unary_sound(op: UnOp, a: Value, env: Map<u64, u64>)
    ensures
        value_eval(unary_spec(op, a), env) == un_spec(op, value_eval(a, env)),
{
}

/// `conditional(c, a, b)` denotes `a` where `c` is non-zero and `b` where it
/// is zero, under every assignment of the symbols.
pub proof fn lemma_conditional_sound(c: Value, a: Value, b: Value, env: Map<u64, u64>)
    ensures
        value_eval(conditional_spec(c, a, b), env) == if value_eval(c, env) != 0 {
            value_eval(a, env)
        } else {
            value_eval(b, env)
        },
{
    reveal_with_fuel(eval, 2);
}

/// A true condition selects the first value and a false one the second,
/// as values and not only in meaning.
pub proof fn lemma_conditional_constant(t: u64, a: Value, b: Value)
    ensures
        conditional_spec(Value::Concrete(1, t), a, b) == a,
        conditional_spec(Value::Concrete(0, t), a, b) == b,
{
}

} // verus!
