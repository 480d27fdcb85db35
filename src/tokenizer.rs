use vstd::prelude::*;
use crate::operations::{from_bytes, fusable, is_fusable, op_of, Operations};
use crate::processor::{words_view, wview, Processor, Word, WordView};
use crate::registers::{find_register, Register};
use crate::state::State;
use crate::value::Value;

verus! {

/// The value of digit `c` in `base` (10 or 16).
pub open spec fn digit_val(c: u8, base: nat) -> Option<nat> {
    if 48 <= c <= 57 {
        Some((c - 48) as nat)
    } else if base == 16 && 97 <= c <= 102 {
        Some((c - 87) as nat)
    } else if base == 16 && 65 <= c <= 70 {
        Some((c - 55) as nat)
    } else {
        None
    }
}

pub open spec fn all_digits(s: Seq<u8>, base: nat) -> bool {
    forall|i: int| 0 <= i < s.len() ==> #[trigger] digit_val(s[i], base) is Some
}

/// The number that the digits `s` spell in `base`.
pub open spec fn digits_value(s: Seq<u8>, base: nat) -> nat
    decreases s.len(),
{
    if s.len() == 0 {
        0
    } else {
        digits_value(s.drop_last(), base) * base + digit_val(s.last(), base)->0
    }
}

/// A non-empty run of digits in `base` whose value fits in 64 bits.
pub open spec fn number_of(s: Seq<u8>, base: nat) -> Option<u64> {
    if s.len() > 0 && all_digits(s, base) && digits_value(s, base) <= u64::MAX {
        Some(digits_value(s, base) as u64)
    } else {
        None
    }
}

/// An unsigned number in `base`, with an optional leading `+`.
pub open spec fn unsigned_of(s: Seq<u8>, base: nat) -> Option<u64> {
    if s.len() > 0 && s[0] == 43 {
        number_of(s.subrange(1, s.len() as int), base)
    } else {
        number_of(s, base)
    }
}

/// A literal: decimal digits, `0x` and hex digits (either with an optional
/// `+`), or `-` and decimal digits of a value down to the least 64-bit
/// signed integer (kept as its two's complement).
pub open spec fn literal_of(s: Seq<u8>) -> Option<u64> {
    if unsigned_of(s, 10) is Some {
        unsigned_of(s, 10)
    } else if s.len() > 2 && s[0] == 48 && s[1] == 120 && unsigned_of(s.subrange(2, s.len() as int), 16) is Some {
        unsigned_of(s.subrange(2, s.len() as int), 16)
    } else if s.len() > 1 && s[0] == 45 && number_of(s.subrange(1, s.len() as int), 10) is Some
        && number_of(s.subrange(1, s.len() as int), 10)->0 <= 0x8000_0000_0000_0000u64 {
        let v = number_of(s.subrange(1, s.len() as int), 10)->0;
        Some(if v == 0 { 0u64 } else { (0x1_0000_0000_0000_0000int - v) as u64 })
    } else {
        None
    }
}

/// The comma-separated fields of `s` from index `i`, the current field
/// holding `cur` so far.
pub open spec fn split_from(s: Seq<u8>, i: nat, cur: Seq<u8>) -> Seq<Seq<u8>>
    decreases s.len() - i,
{
    if i >= s.len() {
        seq![cur]
    } else if s[i as int] == 44 {
        seq![cur] + split_from(s, i + 1, Seq::empty())
    } else {
        split_from(s, i + 1, cur.push(s[i as int]))
    }
}

pub open spec fn fields(s: Seq<u8>) -> Seq<Seq<u8>> {
    split_from(s, 0, Seq::empty())
}

/// The token list after one more field: a register, a literal or an
/// operator; `OP=` rewrites the register before it into a read-modify-write
/// of it; `OP=[N]` into a read-modify-write of memory at the address on
/// the stack; anything else is unknown.
pub open spec fn classify(acc: Seq<WordView>, f: Seq<u8>, regs: Seq<Register>) -> Seq<WordView> {
    let l = f.len() as int;
    if find_register(regs, f, 0) is Some {
        acc.push(WordView::Register(find_register(regs, f, 0)->0))
    } else if literal_of(f) is Some {
        acc.push(WordView::Literal(Value::Concrete(literal_of(f)->0, 0)))
    } else if op_of(f) != Operations::Unknown {
        acc.push(WordView::Operator(op_of(f)))
    } else if l > 1 && f[l - 1] == 61 && is_fusable(op_of(f.subrange(0, l - 1))) && acc.len() > 0 {
        acc.drop_last() + seq![
            acc.last(),
            WordView::Operator(op_of(f.subrange(0, l - 1))),
            acc.last(),
            WordView::Operator(Operations::Equal),
        ]
    } else if l > 4 && f[l - 1] == 93 && is_fusable(op_of(f.subrange(0, l - 4)))
        && op_of(f.subrange(l - 3, l)) is Peek && op_of(f.subrange(l - 4, l)) is Poke {
        acc + seq![
            WordView::Operator(Operations::AddressStore),
            WordView::Operator(op_of(f.subrange(l - 3, l))),
            WordView::Operator(op_of(f.subrange(0, l - 4))),
            WordView::Operator(Operations::AddressRestore),
            WordView::Operator(op_of(f.subrange(l - 4, l))),
        ]
    } else {
        acc.push(WordView::Unknown(f))
    }
}

pub open spec fn tokenize_fields(fs: Seq<Seq<u8>>, regs: Seq<Register>) -> Seq<WordView>
    decreases fs.len(),
{
    if fs.len() == 0 {
        Seq::empty()
    } else {
        classify(tokenize_fields(fs.drop_last(), regs), fs.last(), regs)
    }
}

/// The tokens of an expression.
pub open spec fn tokenize_spec(esil: Seq<u8>, regs: Seq<Register>) -> Seq<WordView> {
    tokenize_fields(fields(esil), regs)
}

/// Reads a run of digits in `base` from `start` to the end of `s`.
pub fn parse_digits(s: &[u8], start: usize, base: u64) -> (r: Option<u64>)
    requires
        base == 10 || base == 16,
        start <= s@.len(),
    ensures
        r == number_of(s@.subrange(start as int, s@.len() as int), base as nat),
{
    let ghost sub = s@.subrange(start as int, s@.len() as int);
    if start >= s.len() {
        return None;
    }
    let cap: u128 = 0x1_0000_0000_0000_0000u128;
    let mut acc: u128 = 0;
    let mut i: usize = start;
    while i < s.len()
        invariant
            base == 10 || base == 16,
            cap == 0x1_0000_0000_0000_0000u128,
            start <= i <= s@.len(),
            sub == s@.subrange(start as int, s@.len() as int),
            all_digits(s@.subrange(start as int, i as int), base as nat),
            acc as int == if digits_value(s@.subrange(start as int, i as int), base as nat) < cap {
                digits_value(s@.subrange(start as int, i as int), base as nat) as int
            } else {
                cap as int
            },
        decreases s@.len() - i,
    {
        let c = s[i];
        let d: u128 = if 48 <= c && c <= 57 {
            (c - 48) as u128
        } else if base == 16 && 97 <= c && c <= 102 {
            (c - 87) as u128
        } else if base == 16 && 65 <= c && c <= 70 {
            (c - 55) as u128
        } else {
            proof {
                assert(sub[i - start] == c);
                assert(digit_val(sub[i - start], base as nat) is None);
            }
            return None;
        };
        let ghost prev = s@.subrange(start as int, i as int);
        let ghost next = s@.subrange(start as int, i + 1);
        proof {
            assert(next.drop_last() =~= prev);
            assert(next.last() == c);
            assert(digits_value(next, base as nat) == digits_value(prev, base as nat) * base as nat + d);
            let v = digits_value(prev, base as nat);
            if v >= cap {
                assert(v * base as nat + d >= cap) by (nonlinear_arith)
                    requires
                        v >= cap,
                        base >= 10,
                ;
            }
            assert(all_digits(next, base as nat)) by {
                assert forall|k: int| 0 <= k < next.len() implies #[trigger] digit_val(next[k], base as nat) is Some by {
                    if k < prev.len() {
                        assert(next[k] == prev[k]);
                    }
                }
            }
        }
        let next_acc = if base == 10 { acc * 10 + d } else { acc * 16 + d };
        acc = if next_acc > cap { cap } else { next_acc };
        i = i + 1;
    }
    proof {
        assert(s@.subrange(start as int, i as int) =~= sub);
    }
    if acc >= cap {
        None
    } else {
        Some(acc as u64)
    }
}

/// Reads a number in `base`, with an optional leading `+`, from `start`
/// to the end of `s`.
pub fn parse_unsigned(s: &[u8], start: usize, base: u64) -> (r: Option<u64>)
    requires
        base == 10 || base == 16,
        start <= s@.len(),
    ensures
        r == unsigned_of(s@.subrange(start as int, s@.len() as int), base as nat),
{
    let ghost sub = s@.subrange(start as int, s@.len() as int);
    if start < s.len() && s[start] == 43 {
        assert(sub.subrange(1, sub.len() as int) =~= s@.subrange(start + 1, s@.len() as int));
        parse_digits(s, start + 1, base)
    } else {
        parse_digits(s, start, base)
    }
}

/// Splits an expression at its commas.
pub fn split_fields(s: &[u8]) -> (r: Vec<Vec<u8>>)
    ensures
        r@.map_values(|v: Vec<u8>| v@) == fields(s@),
{
    let mut done: Vec<Vec<u8>> = Vec::new();
    let mut cur: Vec<u8> = Vec::new();
    let mut i: usize = 0;
    while i < s.len()
        invariant
            i <= s@.len(),
            done@.map_values(|v: Vec<u8>| v@) + split_from(s@, i as nat, cur@) == fields(s@),
        decreases s@.len() - i,
    {
        let ghost d0 = done@.map_values(|v: Vec<u8>| v@);
        if s[i] == 44 {
            let ghost c = cur@;
            done.push(cur);
            cur = Vec::new();
            proof {
                assert(done@.map_values(|v: Vec<u8>| v@) =~= d0.push(c));
                assert(split_from(s@, i as nat, c) == seq![c] + split_from(s@, (i + 1) as nat, Seq::empty()));
                assert(d0 + (seq![c] + split_from(s@, (i + 1) as nat, Seq::empty())) =~= d0.push(c) + split_from(
                    s@,
                    (i + 1) as nat,
                    Seq::empty(),
                ));
                assert(cur@ =~= Seq::<u8>::empty());
            }
        } else {
            cur.push(s[i]);
        }
        i = i + 1;
    }
    let ghost d0 = done@.map_values(|v: Vec<u8>| v@);
    let ghost c = cur@;
    done.push(cur);
    proof {
        assert(done@.map_values(|v: Vec<u8>| v@) =~= d0 + seq![c]);
    }
    done
}

impl Processor {
    /// The literal a token spells.
    pub fn get_literal(&self, word: &[u8]) -> (r: Option<Word>)
        ensures
            match r {
                Some(w) => literal_of(word@) is Some && wview(w) == WordView::Literal(
                    Value::Concrete(literal_of(word@)->0, 0),
                ),
                None => literal_of(word@) is None,
            },
    {
        proof {
            assert(word@.subrange(0, word@.len() as int) =~= word@);
        }
        if let Some(v) = parse_unsigned(word, 0, 10) {
            return Some(Word::Literal(Value::Concrete(v, 0)));
        }
        if word.len() > 2 && word[0] == 48 && word[1] == 120 {
            if let Some(v) = parse_unsigned(word, 2, 16) {
                return Some(Word::Literal(Value::Concrete(v, 0)));
            }
        }
        if word.len() > 1 && word[0] == 45 {
            if let Some(v) = parse_digits(word, 1, 10) {
                if v <= 0x8000_0000_0000_0000u64 {
                    let n: u64 = if v == 0 { 0 } else { (0xffff_ffff_ffff_ffffu64 - v) + 1 };
                    return Some(Word::Literal(Value::Concrete(n, 0)));
                }
            }
        }
        None
    }

    /// The register a token names, in the state's register file.
    pub fn get_register(&self, state: &mut State, word: &[u8]) -> (r: Option<Word>)
        ensures
            *final(state) == *old(state),
            match r {
                Some(w) => find_register(old(state).registers.entries@, word@, 0) is Some && wview(w)
                    == WordView::Register(find_register(old(state).registers.entries@, word@, 0)->0),
                None => find_register(old(state).registers.entries@, word@, 0) is None,
            },
    {
        match state.registers.get_register(word) {
            Some(i) => Some(Word::Register(i)),
            None => None,
        }
    }

    /// The operator a token spells.
    pub fn get_operator(&self, word: &[u8]) -> (r: Option<Word>)
        ensures
            match r {
                Some(w) => op_of(word@) != Operations::Unknown && wview(w) == WordView::Operator(op_of(word@)),
                None => op_of(word@) == Operations::Unknown,
            },
    {
        let op = from_bytes(word);
        match op {
            Operations::Unknown => None,
            _ => Some(Word::Operator(op)),
        }
    }

    /// Appends the tokens of one field.
    fn classify_field(&self, state: &mut State, tokens: &mut Vec<Word>, f: &[u8])
        ensures
            *final(state) == *old(state),
            words_view(final(tokens)@) == classify(words_view(old(tokens)@), f@, old(state).registers.entries@),
    {
        let ghost acc = words_view(tokens@);
        let l = f.len();
        proof {
            assert(words_view(tokens@) =~= acc);
        }
        if let Some(register) = self.get_register(state, f) {
            tokens.push(register);
            proof {
                assert(words_view(tokens@) =~= acc.push(wview(register)));
            }
            return;
        }
        if let Some(literal) = self.get_literal(f) {
            tokens.push(literal);
            proof {
                assert(words_view(tokens@) =~= acc.push(wview(literal)));
            }
            return;
        }
        if let Some(operator) = self.get_operator(f) {
            tokens.push(operator);
            proof {
                assert(words_view(tokens@) =~= acc.push(wview(operator)));
            }
            return;
        }
        if l > 1 && f[l - 1] == 61 && tokens.len() > 0 {
            let inner = from_bytes(slice_of(f, 0, l - 1).as_slice());
            if fusable(inner) {
                let reg_word = tokens.pop().unwrap();
                let ghost base = words_view(tokens@);
                proof {
                    assert(base =~= acc.drop_last());
                    assert(wview(reg_word) == acc.last());
                }
                tokens.push(reg_word.duplicate());
                tokens.push(Word::Operator(inner));
                tokens.push(reg_word);
                tokens.push(Word::Operator(Operations::Equal));
                proof {
                    assert(words_view(tokens@) =~= acc.drop_last() + seq![
                        acc.last(),
                        WordView::Operator(inner),
                        acc.last(),
                        WordView::Operator(Operations::Equal),
                    ]);
                }
                return;
            }
        }
        if l > 4 && f[l - 1] == 93 {
            let inner = from_bytes(slice_of(f, 0, l - 4).as_slice());
            let peek = from_bytes(slice_of(f, l - 3, l).as_slice());
            let poke = from_bytes(slice_of(f, l - 4, l).as_slice());
            if fusable(inner) && matches!(peek, Operations::Peek(_)) && matches!(poke, Operations::Poke(_)) {
                tokens.push(Word::Operator(Operations::AddressStore));
                tokens.push(Word::Operator(peek));
                tokens.push(Word::Operator(inner));
                tokens.push(Word::Operator(Operations::AddressRestore));
                tokens.push(Word::Operator(poke));
                proof {
                    assert(words_view(tokens@) =~= acc + seq![
                        WordView::Operator(Operations::AddressStore),
                        WordView::Operator(peek),
                        WordView::Operator(inner),
                        WordView::Operator(Operations::AddressRestore),
                        WordView::Operator(poke),
                    ]);
                }
                return;
            }
        }
        tokens.push(Word::Unknown(slice_of(f, 0, l)));
        proof {
            assert(f@.subrange(0, l as int) =~= f@);
            assert(words_view(tokens@) =~= acc.push(WordView::Unknown(f@)));
        }
    }

    /// Splits an expression into tokens, expanding the fused forms.
    pub fn tokenize(&self, state: &mut State, esil: &[u8]) -> (r: Vec<Word>)
        ensures
            *final(state) == *old(state),
            words_view(r@) == tokenize_spec(esil@, old(state).registers.entries@),
    {
        let fs = split_fields(esil);
        let ghost fsv = fs@.map_values(|v: Vec<u8>| v@);
        let mut tokens: Vec<Word> = Vec::new();
        let mut i: usize = 0;
        while i < fs.len()
            invariant
                *state == *old(state),
                i <= fs@.len(),
                fsv == fs@.map_values(|v: Vec<u8>| v@),
                fsv == fields(esil@),
                words_view(tokens@) == tokenize_fields(fsv.subrange(0, i as int), old(state).registers.entries@),
            decreases fs@.len() - i,
        {
            self.classify_field(state, &mut tokens, fs[i].as_slice());
            proof {
                assert(fsv.subrange(0, i + 1).drop_last() =~= fsv.subrange(0, i as int));
                assert(fsv.subrange(0, i + 1).last() == fs@[i as int]@);
            }
            i = i + 1;
        }
        proof {
            assert(fsv.subrange(0, i as int) =~= fsv);
        }
        tokens
    }
}

/// The bytes `s[from..to]`.
pub fn slice_of(s: &[u8], from: usize, to: usize) -> (r: Vec<u8>)
    requires
        from <= to <= s@.len(),
    ensures
        r@ == s@.subrange(from as int, to as int),
{
    let mut r: Vec<u8> = Vec::new();
    let mut i: usize = from;
    while i < to
        invariant
            from <= i <= to <= s@.len(),
            r@ == s@.subrange(from as int, i as int),
        decreases to - i,
    {
        r.push(s[i]);
        i = i + 1;
        assert(r@ =~= s@.subrange(from as int, i as int));
    }
    r
}

} // verus!
