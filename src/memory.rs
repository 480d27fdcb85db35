use vstd::prelude::*;
use std::collections::HashMap;
use crate::value::{binary, binary_spec, BinOp, Value};

verus! {

broadcast use vstd::std_specs::hash::group_hash_axioms;

/// Permission bits of a segment.
pub const PERM_READ: u64 = 4;
pub const PERM_WRITE: u64 = 2;
pub const PERM_EXEC: u64 = 1;

/// A mapped range `[start, end)` with its permission bits.
#[derive(Debug, Clone, Copy, PartialEq, Eq, Structural)]
pub struct Segment {
    pub start: u64,
    pub end: u64,
    pub perms: u64,
}

/// Sparse byte-addressed memory: each defined address holds a one-byte
/// value; `addrs` lists the defined addresses, each once.
pub struct Memory {
    pub mem: HashMap<u64, Value>,
    pub addrs: Vec<u64>,
    pub segments: Vec<Segment>,
    pub check: bool,
}

/// The byte at `addr`: what was written there, else a concrete zero.
pub open spec fn byte_spec(m: Map<u64, Value>, addr: u64) -> Value {
    if m.contains_key(addr) {
        m[addr]
    } else {
        Value::Concrete(0, 0)
    }
}

/// The `n` bytes from `addr` upward.
pub open spec fn bytes_spec(m: Map<u64, Value>, addr: u64, n: nat) -> Seq<Value> {
    Seq::new(n, |i: int| byte_spec(m, (addr + i) as u64))
}

/// Little-endian assembly of bytes into one value: the first byte is the
/// least significant.
pub open spec fn pack_spec(bs: Seq<Value>) -> Value
    decreases bs.len(),
{
    if bs.len() == 0 {
        Value::Concrete(0, 0)
    } else if bs.len() == 1 {
        bs[0]
    } else {
        binary_spec(
            BinOp::Or,
            binary_spec(BinOp::Shl, pack_spec(bs.drop_first()), Value::Concrete(8, 0)),
            bs[0],
        )
    }
}

/// Byte `i` of a value, little-endian.
pub open spec fn unpack_byte_spec(v: Value, i: nat) -> Value {
    binary_spec(
        BinOp::And,
        binary_spec(BinOp::Shr, v, Value::Concrete((8 * i) as u64, 0)),
        Value::Concrete(0xff, 0),
    )
}

pub open spec fn unpack_spec(v: Value, n: nat) -> Seq<Value> {
    Seq::new(n, |i: int| unpack_byte_spec(v, i as nat))
}

/// Word assembled from concrete little-endian bytes.
pub open spec fn pack_word(ws: Seq<u64>) -> u64
    decreases ws.len(),
{
    if ws.len() == 0 {
        0
    } else if ws.len() == 1 {
        ws[0]
    } else {
        (pack_word(ws.drop_first()) << 8u64) | ws[0]
    }
}

pub open spec fn all_plain_bytes(bs: Seq<Value>) -> bool {
    forall|i: int|
        0 <= i < bs.len() ==> match #[trigger] bs[i] {
            Value::Concrete(w, t) => w < 256 && t == 0,
            Value::Symbolic(_, _) => false,
        }
}

pub open spec fn words_of(bs: Seq<Value>) -> Seq<u64> {
    Seq::new(
        bs.len(),
        |i: int|
            match bs[i] {
                Value::Concrete(w, _) => w,
                Value::Symbolic(_, _) => 0,
            },
    )
}

impl Memory {
    pub open spec fn wf(&self) -> bool {
        &&& self.addrs@.no_duplicates()
        &&& forall|a: u64| self.mem@.contains_key(a) <==> self.addrs@.contains(a)
    }

    /// A memory with nothing written and no segments.
    pub fn new(check: bool) -> (r: Memory)
        ensures
            r.wf(),
            r.mem@ == Map::<u64, Value>::empty(),
            r.segments@ == Seq::<Segment>::empty(),
            r.check == check,
    {
        let r = Memory { mem: HashMap::new(), addrs: Vec::new(), segments: Vec::new(), check };
        assert(r.addrs@ =~= Seq::<u64>::empty());
        r
    }

    pub fn read_byte(&self, addr: u64) -> (r: Value)
        ensures
            r == byte_spec(self.mem@, addr),
    {
        match self.mem.get(&addr) {
            Some(v) => v.duplicate(),
            None => Value::Concrete(0, 0),
        }
    }

    pub fn write_byte(&mut self, addr: u64, v: Value)
        requires
            old(self).wf(),
        ensures
            final(self).wf(),
            final(self).mem@ == old(self).mem@.insert(addr, v),
            final(self).segments == old(self).segments,
            final(self).check == old(self).check,
    {
        if !self.mem.contains_key(&addr) {
            proof {
                assert(!self.addrs@.contains(addr));
            }
            self.addrs.push(addr);
            proof {
                assert forall|a: u64| #[trigger] self.addrs@.contains(a) <==> old(self).addrs@.contains(a) || a == addr by {
                    if self.addrs@.contains(a) {
                        let k = choose|k: int| 0 <= k < self.addrs@.len() && self.addrs@[k] == a;
                        if k < old(self).addrs@.len() {
                            assert(old(self).addrs@[k] == a);
                        }
                    }
                    if old(self).addrs@.contains(a) {
                        let k = choose|k: int| 0 <= k < old(self).addrs@.len() && old(self).addrs@[k] == a;
                        assert(self.addrs@[k] == a);
                    }
                    if a == addr {
                        assert(self.addrs@[old(self).addrs@.len() as int] == a);
                    }
                }
            }
        }
        self.mem.insert(addr, v);
    }

    /// The `n` bytes from `addr`.
    pub fn read_bytes(&self, addr: u64, n: u64) -> (r: Vec<Value>)
        requires
            addr + n <= u64::MAX,
        ensures
            r@ == bytes_spec(self.mem@, addr, n as nat),
    {
        let mut r: Vec<Value> = Vec::new();
        let mut i: u64 = 0;
        while i < n
            invariant
                i <= n,
                addr + n <= u64::MAX,
                r@ == bytes_spec(self.mem@, addr, i as nat),
            decreases n - i,
        {
            r.push(self.read_byte(addr + i));
            i = i + 1;
            assert(r@ =~= bytes_spec(self.mem@, addr, i as nat));
        }
        r
    }

    /// Assembles bytes into one value, little-endian.
    pub fn pack(&self, bytes: &Vec<Value>) -> (r: Value)
        ensures
            r == pack_spec(bytes@),
    {
        let n = bytes.len();
        if n == 0 {
            return Value::Concrete(0, 0);
        }
        let mut acc = bytes[n - 1].duplicate();
        let mut i: usize = n - 1;
        assert(bytes@.subrange(i as int, n as int) =~= seq![bytes@[n - 1]]);
        while i > 0
            invariant
                i < n,
                n == bytes@.len(),
                acc == pack_spec(bytes@.subrange(i as int, n as int)),
            decreases i,
        {
            let shifted = binary(BinOp::Shl, &acc, &Value::Concrete(8, 0));
            acc = binary(BinOp::Or, &shifted, &bytes[i - 1]);
            assert(bytes@.subrange(i - 1, n as int).drop_first() =~= bytes@.subrange(i as int, n as int));
            i = i - 1;
        }
        assert(bytes@.subrange(0, n as int) =~= bytes@);
        acc
    }

    /// Splits a value into `n` bytes, little-endian.
    pub fn unpack(&self, v: &Value, n: u64) -> (r: Vec<Value>)
        requires
            n <= 8,
        ensures
            r@ == unpack_spec(*v, n as nat),
    {
        let mut r: Vec<Value> = Vec::new();
        let mut i: u64 = 0;
        while i < n
            invariant
                i <= n <= 8,
                r@ == Seq::new(i as nat, |k: int| unpack_byte_spec(*v, k as nat)),
            decreases n - i,
        {
            let shifted = binary(BinOp::Shr, v, &Value::Concrete(8 * i, 0));
            r.push(binary(BinOp::And, &shifted, &Value::Concrete(0xff, 0)));
            i = i + 1;
            assert(r@ =~= Seq::new(i as nat, |k: int| unpack_byte_spec(*v, k as nat)));
        }
        r
    }

    /// Reads `n` bytes from `addr` as one value.
    pub fn read_value(&self, addr: u64, n: u64) -> (r: Value)
        requires
            addr + n <= u64::MAX,
        ensures
            r == pack_spec(bytes_spec(self.mem@, addr, n as nat)),
    {
        let bytes = self.read_bytes(addr, n);
        self.pack(&bytes)
    }

    /// Writes the `n` low bytes of `v` from `addr` upward.
    pub fn write_value(&mut self, addr: u64, v: &Value, n: u64)
        requires
            old(self).wf(),
            n <= 8,
            addr + n <= u64::MAX,
        ensures
            final(self).wf(),
            final(self).segments == old(self).segments,
            final(self).check == old(self).check,
            forall|a: u64|
                #![trigger final(self).mem@.contains_key(a)]
                #![trigger final(self).mem@[a]]
                (addr <= a < addr + n ==> final(self).mem@.contains_key(a)
                    && final(self).mem@[a] == unpack_byte_spec(*v, (a - addr) as nat)) && (!(addr <= a < addr
                    + n) ==> (final(self).mem@.contains_key(a) == old(self).mem@.contains_key(a)
                    && final(self).mem@[a] == old(self).mem@[a])),
    {
        let bytes = self.unpack(v, n);
        let mut i: u64 = 0;
        while i < n
            invariant
                self.wf(),
                i <= n <= 8,
                addr + n <= u64::MAX,
                bytes@ == unpack_spec(*v, n as nat),
                self.segments == old(self).segments,
                self.check == old(self).check,
                forall|a: u64|
                    #![trigger self.mem@.contains_key(a)]
                    #![trigger self.mem@[a]]
                    (addr <= a < addr + i ==> self.mem@.contains_key(a) && self.mem@[a]
                        == unpack_byte_spec(*v, (a - addr) as nat)) && (!(addr <= a < addr + i)
                        ==> (self.mem@.contains_key(a) == old(self).mem@.contains_key(a)
                        && self.mem@[a] == old(self).mem@[a])),
            decreases n - i,
        {
            self.write_byte(addr + i, bytes[i as usize].duplicate());
            i = i + 1;
        }
    }

    /// Whether some segment with permission `perm` covers `[addr, addr + len)`.
    pub fn check_permission(&self, addr: u64, len: u64, perm: u64) -> (r: bool)
        ensures
            r == exists|i: int|
                0 <= i < self.segments.len() && #[trigger] self.segments[i].start <= addr
                    && addr + len <= self.segments[i].end && self.segments[i].perms & perm != 0,
    {
        let mut i: usize = 0;
        while i < self.segments.len()
            invariant
                i <= self.segments.len(),
                forall|j: int|
                    0 <= j < i ==> !(#[trigger] self.segments[j].start <= addr && addr + len
                        <= self.segments[j].end && self.segments[j].perms & perm != 0),
            decreases self.segments.len() - i,
        {
            let s = self.segments[i];
            if s.start <= addr && addr as u128 + len as u128 <= s.end as u128 && s.perms & perm != 0 {
                return true;
            }
            i = i + 1;
        }
        false
    }

    /// The defined addresses.
    pub fn addresses(&self) -> (r: Vec<u64>)
        requires
            self.wf(),
        ensures
            r@.no_duplicates(),
            forall|a: u64| self.mem@.contains_key(a) <==> r@.contains(a),
    {
        let mut r: Vec<u64> = Vec::new();
        let mut i: usize = 0;
        while i < self.addrs.len()
            invariant
                i <= self.addrs.len(),
                r@ == self.addrs@.subrange(0, i as int),
            decreases self.addrs.len() - i,
        {
            r.push(self.addrs[i]);
            i = i + 1;
        }
        assert(r@ =~= self.addrs@);
        r
    }

    /// A copy of the memory, equal to it in contents.
    pub fn duplicate(&self) -> (r: Memory)
        requires
            self.wf(),
        ensures
            r.wf(),
            r.mem@ == self.mem@,
            r.segments@ == self.segments@,
            r.check == self.check,
    {
        let mut segments: Vec<Segment> = Vec::new();
        let mut i: usize = 0;
        while i < self.segments.len()
            invariant
                i <= self.segments.len(),
                segments@ == self.segments@.subrange(0, i as int),
            decreases self.segments.len() - i,
        {
            segments.push(self.segments[i]);
            i = i + 1;
        }
        assert(segments@ =~= self.segments@);
        let mut mem: HashMap<u64, Value> = HashMap::new();
        let mut j: usize = 0;
        while j < self.addrs.len()
            invariant
                self.wf(),
                j <= self.addrs.len(),
                forall|a: u64|
                    #[trigger] mem@.contains_key(a) <==> exists|k: int| 0 <= k < j && self.addrs@[k] == a,
                forall|a: u64| mem@.contains_key(a) ==> #[trigger] mem@[a] == self.mem@[a],
            decreases self.addrs.len() - j,
        {
            let a = self.addrs[j];
            assert(self.addrs@.contains(a));
            let v = self.read_byte(a);
            mem.insert(a, v);
            proof {
                assert forall|b: u64| #[trigger] mem@.contains_key(b) implies exists|k: int|
                    0 <= k < j + 1 && self.addrs@[k] == b by {
                    if b == a {
                        assert(self.addrs@[j as int] == b);
                    }
                }
            }
            j = j + 1;
        }
        assert forall|b: u64| #[trigger] mem@.contains_key(b) <==> self.mem@.contains_key(b) by {
            if self.mem@.contains_key(b) {
                assert(self.addrs@.contains(b));
                let k = choose|k: int| 0 <= k < self.addrs@.len() && self.addrs@[k] == b;
            }
            if mem@.contains_key(b) {
                let k = choose|k: int| 0 <= k < j && self.addrs@[k] == b;
                assert(self.addrs@.contains(b));
            }
        }
        assert(mem@ =~= self.mem@);
        Memory { mem, addrs: self.addresses(), segments, check: self.check }
    }
}

proof fn lemma_byte_of_or(b: u64, x: u64, i: u64)
    requires
        b < 256,
        i < 7,
    ensures
        (((x << 8u64) | b) >> (8 * (i + 1)) as u64) & 0xff == (x >> (8 * i) as u64) & 0xff,
        (((x << 8u64) | b) >> 0u64) & 0xff == b,
{
    assert((((x << 8u64) | b) >> (8 * (i + 1)) as u64) & 0xff == (x >> (8 * i) as u64) & 0xff)
        by (bit_vector)
        requires
            b < 256,
            i < 7,
    ;
    assert((((x << 8u64) | b) >> 0u64) & 0xff == b) by (bit_vector)
        requires
            b < 256,
    ;
}

proof fn lemma_pack_concrete(bs: Seq<Value>)
    requires
        all_plain_bytes(bs),
    ensures
        pack_spec(bs) == Value::Concrete(pack_word(words_of(bs)), 0),
    decreases bs.len(),
{
    assert(0u64 | 0u64 == 0u64) by (bit_vector);
    if bs.len() > 1 {
        lemma_pack_concrete(bs.drop_first());
        assert(words_of(bs).drop_first() =~= words_of(bs.drop_first()));
        assert(0u64 | 0u64 == 0u64) by (bit_vector);
    }
}

proof fn lemma_pack_word_byte(ws: Seq<u64>, i: nat)
    requires
        ws.len() <= 8,
        i < ws.len(),
        forall|k: int| 0 <= k < ws.len() ==> #[trigger] ws[k] < 256,
    ensures
        (pack_word(ws) >> (8 * i) as u64) & 0xff == ws[i as int],
    decreases i,
{
    if ws.len() == 1 {
        let w = ws[0];
        assert((w >> 0u64) & 0xff == w) by (bit_vector)
            requires
                w < 256,
        ;
    } else {
        let x = pack_word(ws.drop_first());
        if i > 0 {
            lemma_pack_word_byte(ws.drop_first(), (i - 1) as nat);
            lemma_byte_of_or(ws[0], x, (i - 1) as u64);
        } else {
            lemma_byte_of_or(ws[0], x, 0);
        }
    }
}

/// Splitting a packed value gives back the bytes it was packed from, for up
/// to eight concrete untainted bytes.
pub proof fn lemma_unpack_pack(bs: Seq<Value>)
    requires
        bs.len() <= 8,
        all_plain_bytes(bs),
    ensures
        unpack_spec(pack_spec(bs), bs.len()) == bs,
{
    lemma_pack_concrete(bs);
    let ws = words_of(bs);
    assert forall|i: int| 0 <= i < bs.len() implies unpack_spec(pack_spec(bs), bs.len())[i] == bs[i] by {
        assert(ws[i] < 256);
        lemma_pack_word_byte(ws, i as nat);
        let p = pack_word(ws);
        assert(0u64 | 0u64 == 0u64) by (bit_vector);
    }
    assert(unpack_spec(pack_spec(bs), bs.len()) =~= bs);
}

} // verus!
