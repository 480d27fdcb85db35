use vstd::prelude::*;
use std::collections::HashMap;
use crate::processor::{CCALL_TYPE, CJMP_TYPE};
use crate::registers::bytes_eq;

verus! {

broadcast use vstd::std_specs::hash::group_hash_axioms;

/// The decimal digits of `n`, most significant first (none for zero).
pub open spec fn digits_of(n: nat) -> Seq<u8>
    decreases n,
{
    if n == 0 {
        Seq::empty()
    } else {
        digits_of(n / 10).push((48 + n % 10) as u8)
    }
}

/// `n` in decimal, zero-padded to at least four digits.
pub open spec fn padded4(n: nat) -> Seq<u8> {
    let d = digits_of(n);
    if d.len() >= 4 {
        d
    } else {
        Seq::new((4 - d.len()) as nat, |i: int| 48u8) + d
    }
}

/// Whether an instruction kind is a conditional jump or a conditional call,
/// after which the corpus is extended.
pub open spec fn is_branch_spec(type_num: i64) -> bool {
    type_num & 0xf == CJMP_TYPE || type_num & 0xf == CCALL_TYPE
}

pub fn is_branch_type(type_num: i64) -> (r: bool)
    ensures
        r == is_branch_spec(type_num),
{
    let low = type_num & 0xf;
    low == CJMP_TYPE || low == CCALL_TYPE
}

/// The name of corpus file number `index` for `symbol`: the symbol, then
/// the number in at least four digits.
pub fn corpus_file_name(symbol: &[u8], index: u64) -> (r: Vec<u8>)
    ensures
        r@ == symbol@ + padded4(index as nat),
{
    let mut digits: Vec<u8> = Vec::new();
    let mut n: u64 = index;
    while n > 0
        invariant
            digits_of(index as nat) == digits_of(n as nat) + digits@,
        decreases n,
    {
        let d = (n % 10) as u8;
        let ghost rest = digits@;
        digits.insert(0, 48 + d);
        proof {
            assert(digits_of(n as nat) == digits_of((n / 10) as nat).push((48 + n % 10) as u8));
            assert(digits@ =~= seq![(48 + n % 10) as u8] + rest);
            assert(digits_of((n / 10) as nat) + digits@ =~= digits_of((n / 10) as nat).push(
                (48 + n % 10) as u8,
            ) + rest);
        }
        n = n / 10;
    }
    assert(digits_of(index as nat) =~= digits@);
    let mut r: Vec<u8> = Vec::new();
    let mut i: usize = 0;
    while i < symbol.len()
        invariant
            i <= symbol@.len(),
            r@ == symbol@.subrange(0, i as int),
        decreases symbol@.len() - i,
    {
        r.push(symbol[i]);
        i = i + 1;
    }
    let mut pad: usize = digits.len();
    while pad < 4
        invariant
            digits.len() <= pad <= 4 || (digits.len() >= 4 && pad == digits.len()),
            r@ == symbol@ + Seq::new((pad - digits@.len()) as nat, |k: int| 48u8),
        decreases 4 - pad,
    {
        r.push(48);
        pad = pad + 1;
        assert(r@ =~= symbol@ + Seq::new((pad - digits@.len()) as nat, |k: int| 48u8));
    }
    let ghost zeros = r@;
    let mut j: usize = 0;
    while j < digits.len()
        invariant
            j <= digits@.len(),
            r@ == zeros + digits@.subrange(0, j as int),
        decreases digits@.len() - j,
    {
        r.push(digits[j]);
        j = j + 1;
        assert(r@ =~= zeros + digits@.subrange(0, j as int));
    }
    proof {
        assert(digits@.subrange(0, j as int) =~= digits@);
        if digits@.len() >= 4 {
            assert(zeros =~= symbol@ + Seq::<u8>::empty());
            assert(r@ =~= symbol@ + digits@);
        } else {
            assert(r@ =~= symbol@ + (Seq::new((4 - digits@.len()) as nat, |k: int| 48u8) + digits@));
        }
    }
    r
}

/// Bookkeeping of corpus generation: how often each address was reached,
/// the distinct solutions written so far, and per symbol how many files.
pub struct FuzzTracker {
    pub visits: HashMap<u64, u64>,
    pub solutions: Vec<Vec<u8>>,
    pub counts: Vec<u64>,
}

pub open spec fn solution_seen(sols: Seq<Vec<u8>>, b: Seq<u8>) -> bool {
    exists|i: int| 0 <= i < sols.len() && #[trigger] sols[i]@ == b
}

impl FuzzTracker {
    /// A tracker for `symbols` symbols, nothing seen yet.
    pub fn new(symbols: usize) -> (r: FuzzTracker)
        ensures
            r.visits@ == Map::<u64, u64>::empty(),
            r.solutions@.len() == 0,
            r.counts@ == Seq::new(symbols as nat, |i: int| 0u64),
    {
        let mut counts: Vec<u64> = Vec::new();
        let mut i: usize = 0;
        while i < symbols
            invariant
                i <= symbols,
                counts@ == Seq::new(i as nat, |k: int| 0u64),
            decreases symbols - i,
        {
            counts.push(0);
            i = i + 1;
            assert(counts@ =~= Seq::new(i as nat, |k: int| 0u64));
        }
        FuzzTracker { visits: HashMap::new(), solutions: Vec::new(), counts }
    }

    /// Counts a visit of `pc`; whether it is the first.
    pub fn visit(&mut self, pc: u64) -> (r: bool)
        ensures
            r == !old(self).visits@.contains_key(pc) || old(self).visits@[pc] == 0,
            final(self).visits@ == old(self).visits@.insert(
                pc,
                if old(self).visits@.contains_key(pc) {
                    if old(self).visits@[pc] == u64::MAX { u64::MAX } else { (old(self).visits@[pc] + 1) as u64 }
                } else {
                    1u64
                },
            ),
            final(self).solutions == old(self).solutions,
            final(self).counts == old(self).counts,
    {
        let n: u64 = match self.visits.get(&pc) {
            Some(c) => *c,
            None => 0,
        };
        let next = if n == u64::MAX { n } else { n + 1 };
        self.visits.insert(pc, next);
        n == 0
    }

    /// Whether a state reached again is kept: it must be active and the
    /// queue no larger than `max_states`.
    pub fn requeue(active: bool, queued: usize, max_states: usize) -> (r: bool)
        ensures
            r == (active && queued <= max_states),
    {
        active && queued <= max_states
    }

    /// Records a solution for symbol `symbol`: the number of its file when
    /// the bytes are new, `None` when they were seen (for any symbol).
    pub fn record(&mut self, symbol: usize, bytes: Vec<u8>) -> (r: Option<u64>)
        requires
            symbol < old(self).counts@.len(),
        ensures
            solution_seen(old(self).solutions@, bytes@) ==> r is None && *final(self) == *old(self),
            !solution_seen(old(self).solutions@, bytes@) ==> r == Some(old(self).counts@[symbol as int])
                && final(self).solutions@ == old(self).solutions@.push(bytes)
                && final(self).counts@ == old(self).counts@.update(
                symbol as int,
                if old(self).counts@[symbol as int] == u64::MAX {
                    u64::MAX
                } else {
                    (old(self).counts@[symbol as int] + 1) as u64
                },
            ) && final(self).visits == old(self).visits,
    {
        let mut i: usize = 0;
        while i < self.solutions.len()
            invariant
                i <= self.solutions@.len(),
                forall|k: int| 0 <= k < i ==> self.solutions@[k]@ != bytes@,
            decreases self.solutions@.len() - i,
        {
            if bytes_eq(self.solutions[i].as_slice(), bytes.as_slice()) {
                return None;
            }
            i = i + 1;
        }
        let c = self.counts[symbol];
        let next = if c == u64::MAX { c } else { c + 1 };
        self.counts.set(symbol, next);
        self.solutions.push(bytes);
        Some(c)
    }
}

} // verus!
