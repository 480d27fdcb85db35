use vstd::prelude::*;
use crate::value::{binary, binary_spec, low_mask, BinOp, Value};

verus! {

/// One named register: a bit slice `[offset, offset + width)` of a root
/// value in the backing array.
pub struct Register {
    pub name: Vec<u8>,
    pub root: usize,
    pub offset: u64,
    pub width: u64,
}

/// The register file: named entries over a flat array of root values, with
/// the aliases for the program counter and the syscall number.
pub struct Registers {
    pub entries: Vec<Register>,
    pub values: Vec<Value>,
    pub pc: usize,
    pub sn: usize,
}

pub open spec fn entry_wf(r: Register, roots: nat) -> bool {
    &&& r.root < roots
    &&& 1 <= r.width <= 64
    &&& r.offset < 64
    &&& r.offset + r.width <= 64
}

/// What reading a register gives: the root itself for a full-width
/// register, else the shifted and masked slice.
pub open spec fn slice_spec(root: Value, offset: u64, width: u64) -> Value {
    if offset == 0 && width == 64 {
        root
    } else {
        binary_spec(
            BinOp::And,
            binary_spec(BinOp::Shr, root, Value::Concrete(offset, 0)),
            Value::Concrete(low_mask(width), 0),
        )
    }
}

/// The root after writing `v` into the slice `[offset, offset + width)`.
pub open spec fn insert_spec(root: Value, v: Value, offset: u64, width: u64) -> Value {
    if offset == 0 && width == 64 {
        v
    } else {
        binary_spec(
            BinOp::Or,
            binary_spec(BinOp::And, root, Value::Concrete(!(low_mask(width) << offset), 0)),
            binary_spec(
                BinOp::Shl,
                binary_spec(BinOp::And, v, Value::Concrete(low_mask(width), 0)),
                Value::Concrete(offset, 0),
            ),
        )
    }
}

/// The mask of the low `width` bits.
pub fn mask(width: u64) -> (r: u64)
    ensures
        r == low_mask(width),
{
    if width >= 64 {
        0xffff_ffff_ffff_ffffu64
    } else {
        assert(1u64 << width >= 1) by (bit_vector)
            requires
                width < 64,
        ;
        (1u64 << width) - 1
    }
}

/// The first register from index `i` on whose name is `name`.
pub open spec fn find_register(es: Seq<Register>, name: Seq<u8>, i: nat) -> Option<usize>
    decreases es.len() - i,
{
    if i >= es.len() {
        None
    } else if es[i as int].name@ == name {
        Some(i as usize)
    } else {
        find_register(es, name, i + 1)
    }
}

pub open spec fn same_entry(a: Register, b: Register) -> bool {
    a.name@ == b.name@ && a.root == b.root && a.offset == b.offset && a.width == b.width
}

impl Registers {
    /// Same registers, names and aliases (the values may differ).
    pub open spec fn same_layout(&self, o: Registers) -> bool {
        &&& self.entries.len() == o.entries.len()
        &&& forall|i: int| 0 <= i < self.entries.len() ==> same_entry(#[trigger] self.entries[i], o.entries[i])
        &&& self.pc == o.pc
        &&& self.sn == o.sn
    }

    pub open spec fn wf(&self) -> bool {
        &&& forall|i: int|
            0 <= i < self.entries.len() ==> entry_wf(#[trigger] self.entries[i], self.values@.len())
        &&& self.pc < self.entries.len()
        &&& self.sn < self.entries.len()
    }

    pub open spec fn read_spec(&self, index: int) -> Value {
        let e = self.entries[index];
        slice_spec(self.values[e.root as int], e.offset, e.width)
    }

    /// The root values after writing `v` to the register `index`.
    pub open spec fn write_spec(&self, index: int, v: Value) -> Seq<Value> {
        let e = self.entries[index];
        self.values@.update(e.root as int, insert_spec(self.values[e.root as int], v, e.offset, e.width))
    }

    /// The index of the first register named `name`.
    pub fn get_register(&self, name: &[u8]) -> (r: Option<usize>)
        ensures
            r == find_register(self.entries@, name@, 0),
            r is Some ==> r->0 < self.entries.len(),
    {
        let mut i: usize = 0;
        while i < self.entries.len()
            invariant
                i <= self.entries.len(),
                find_register(self.entries@, name@, 0) == find_register(self.entries@, name@, i as nat),
            decreases self.entries.len() - i,
        {
            if bytes_eq(self.entries[i].name.as_slice(), name) {
                return Some(i);
            }
            i = i + 1;
        }
        None
    }

    /// Reads the register `index`.
    pub fn get_value(&self, index: usize) -> (r: Value)
        requires
            self.wf(),
            index < self.entries.len(),
        ensures
            r == self.read_spec(index as int),
    {
        let e = &self.entries[index];
        let root = &self.values[e.root];
        proof {
            assert(entry_wf(self.entries[index as int], self.values@.len()));
        }
        if e.offset == 0 && e.width == 64 {
            root.duplicate()
        } else {
            let shifted = binary(BinOp::Shr, root, &Value::Concrete(e.offset, 0));
            binary(BinOp::And, &shifted, &Value::Concrete(mask(e.width), 0))
        }
    }

    /// Writes `v` into the register `index`, keeping the other bits of its root.
    pub fn set_value(&mut self, index: usize, v: Value)
        requires
            old(self).wf(),
            index < old(self).entries.len(),
        ensures
            final(self).wf(),
            final(self).entries == old(self).entries,
            final(self).pc == old(self).pc,
            final(self).sn == old(self).sn,
            final(self).values@ == old(self).write_spec(index as int, v),
    {
        let root = self.entries[index].root;
        let offset = self.entries[index].offset;
        let width = self.entries[index].width;
        proof {
            assert(entry_wf(self.entries[index as int], self.values@.len()));
        }
        let new_root = if offset == 0 && width == 64 {
            v
        } else {
            let m = mask(width);
            let kept = binary(BinOp::And, &self.values[root], &Value::Concrete(!(m << offset), 0));
            let part = binary(BinOp::And, &v, &Value::Concrete(m, 0));
            let moved = binary(BinOp::Shl, &part, &Value::Concrete(offset, 0));
            binary(BinOp::Or, &kept, &moved)
        };
        self.values.set(root, new_root);
    }

    /// Whether register `a` lies within register `b`.
    pub fn is_sub(&self, a: usize, b: usize) -> (r: bool)
        requires
            self.wf(),
            a < self.entries.len(),
            b < self.entries.len(),
        ensures
            r == ({
                let x = self.entries[a as int];
                let y = self.entries[b as int];
                x.root == y.root && y.offset <= x.offset && x.offset + x.width <= y.offset + y.width
            }),
    {
        let x = &self.entries[a];
        let y = &self.entries[b];
        proof {
            assert(entry_wf(self.entries[a as int], self.values@.len()));
            assert(entry_wf(self.entries[b as int], self.values@.len()));
        }
        x.root == y.root && y.offset <= x.offset && x.offset + x.width <= y.offset + y.width
    }

    pub fn get_pc(&self) -> (r: Value)
        requires
            self.wf(),
        ensures
            r == self.read_spec(self.pc as int),
    {
        self.get_value(self.pc)
    }

    pub fn set_pc(&mut self, v: Value)
        requires
            old(self).wf(),
        ensures
            final(self).wf(),
            final(self).entries == old(self).entries,
            final(self).pc == old(self).pc,
            final(self).sn == old(self).sn,
            final(self).values@ == old(self).write_spec(old(self).pc as int, v),
    {
        let pc = self.pc;
        self.set_value(pc, v)
    }

    /// A copy of the register file, equal to it.
    pub fn duplicate(&self) -> (r: Registers)
        ensures
            r.same_layout(*self),
            r.values@ == self.values@,
            r.pc == self.pc,
            r.sn == self.sn,
    {
        let mut entries: Vec<Register> = Vec::new();
        let mut i: usize = 0;
        while i < self.entries.len()
            invariant
                i <= self.entries.len(),
                entries@.len() == i,
                forall|j: int| 0 <= j < i ==> same_entry(#[trigger] entries[j], self.entries[j]),
            decreases self.entries.len() - i,
        {
            let e = &self.entries[i];
            entries.push(Register { name: copy_bytes(&e.name), root: e.root, offset: e.offset, width: e.width });
            i = i + 1;
        }
        Registers { entries, values: copy_values(&self.values), pc: self.pc, sn: self.sn }
    }
}

/// Byte-wise equality of two slices.
pub fn bytes_eq(a: &[u8], b: &[u8]) -> (r: bool)
    ensures
        r == (a@ == b@),
{
    if a.len() != b.len() {
        return false;
    }
    let mut i: usize = 0;
    while i < a.len()
        invariant
            a@.len() == b@.len(),
            i <= a.len(),
            forall|j: int| 0 <= j < i ==> a@[j] == b@[j],
        decreases a.len() - i,
    {
        if a[i] != b[i] {
            return false;
        }
        i = i + 1;
    }
    assert(a@ =~= b@);
    true
}

pub fn copy_bytes(a: &Vec<u8>) -> (r: Vec<u8>)
    ensures
        r@ == a@,
{
    let mut r: Vec<u8> = Vec::new();
    let mut i: usize = 0;
    while i < a.len()
        invariant
            i <= a.len(),
            r@ == a@.subrange(0, i as int),
        decreases a.len() - i,
    {
        r.push(a[i]);
        i = i + 1;
    }
    assert(r@ =~= a@);
    r
}

pub fn copy_values(a: &Vec<Value>) -> (r: Vec<Value>)
    ensures
        r@ == a@,
{
    let mut r: Vec<Value> = Vec::new();
    let mut i: usize = 0;
    while i < a.len()
        invariant
            i <= a.len(),
            r@ == a@.subrange(0, i as int),
        decreases a.len() - i,
    {
        r.push(a[i].duplicate());
        i = i + 1;
    }
    assert(r@ =~= a@);
    r
}

} // verus!
