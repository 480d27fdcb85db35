use vstd::prelude::*;
use crate::value::{binary, binary_spec, conditional, value_eval, lemma_binary_sound, lemma_conditional_sound, BinOp, Value};

verus! {

/// A simulated file: its path (empty for the standard streams) and its
/// one-byte values.
pub struct SimFile {
    pub path: Vec<u8>,
    pub fd: u64,
    pub content: Vec<Value>,
}

/// The simulated files, by descriptor.
pub struct FileSystem {
    pub files: Vec<SimFile>,
}

/// The first file from index `i` on with descriptor `fd`.
pub open spec fn first_fd(files: Seq<SimFile>, fd: u64, i: nat) -> Option<nat>
    decreases files.len() - i,
{
    if i >= files.len() {
        None
    } else if files[i as int].fd == fd {
        Some(i)
    } else {
        first_fd(files, fd, i + 1)
    }
}

/// The first file from index `i` on at `path`.
pub open spec fn first_path(files: Seq<SimFile>, path: Seq<u8>, i: nat) -> Option<nat>
    decreases files.len() - i,
{
    if i >= files.len() {
        None
    } else if files[i as int].path@ == path {
        Some(i)
    } else {
        first_path(files, path, i + 1)
    }
}

/// Byte value `v` is `c` under `env`.
pub open spec fn byte_is(env: Map<u64, u64>, v: Value, c: u8) -> bool {
    value_eval(v, env) == c as u64
}

/// The pattern occurs in `content` at `i` under `env`.
pub open spec fn matches_at(env: Map<u64, u64>, content: Seq<Value>, pat: Seq<u8>, i: int) -> bool {
    &&& 0 <= i
    &&& i + pat.len() <= content.len()
    &&& forall|j: int| 0 <= j < pat.len() ==> #[trigger] byte_is(env, content[i + j], pat[j])
}

/// The first position from `i` on where the pattern occurs, or all ones
/// (minus one as a signed word) when there is none.
pub open spec fn first_match_from(env: Map<u64, u64>, content: Seq<Value>, pat: Seq<u8>, i: nat) -> u64
    decreases content.len() + 1 - i,
{
    if i + pat.len() > content.len() {
        0xffff_ffff_ffff_ffffu64
    } else if matches_at(env, content, pat, i as int) {
        i as u64
    } else {
        first_match_from(env, content, pat, i + 1)
    }
}

/// The pattern, `?` matching any byte, holds of the leading bytes (as far
/// as both reach) under `env`.
pub open spec fn pattern_holds(env: Map<u64, u64>, bytes: Seq<Value>, pat: Seq<u8>) -> bool {
    forall|j: int|
        0 <= j < pat.len() && j < bytes.len() && pat[j] != 63 ==> #[trigger] byte_is(env, bytes[j], pat[j])
}

/// A value that is non-zero exactly where the pattern occurs at `i`.
pub fn match_value(content: &Vec<Value>, pattern: &[u8], i: usize) -> (r: Value)
    requires
        i + pattern@.len() <= content@.len(),
    ensures
        forall|env: Map<u64, u64>| #[trigger] value_eval(r, env) != 0 <==> matches_at(env, content@, pattern@, i as int),
{
    let mut acc = Value::Concrete(1, 0);
    let mut j: usize = 0;
    let n = content.len();
    while j < pattern.len()
        invariant
            n == content@.len(),
            i + pattern@.len() <= content@.len(),
            j <= pattern@.len(),
            forall|env: Map<u64, u64>|
                #[trigger] value_eval(acc, env) != 0 <==> forall|k: int|
                    0 <= k < j ==> #[trigger] byte_is(env, content@[i + k], pattern@[k]),
        decreases pattern@.len() - j,
    {
        assert(i + j < n);
        let eq = binary(BinOp::Eq, &content[i + j], &Value::Concrete(pattern[j] as u64, 0));
        let next = binary(BinOp::LogicAnd, &acc, &eq);
        proof {
            assert forall|env: Map<u64, u64>| #[trigger] value_eval(next, env) != 0 <==> forall|k: int|
                0 <= k < j + 1 ==> #[trigger] byte_is(env, content@[i + k], pattern@[k]) by {
                lemma_binary_sound(BinOp::Eq, content@[i + j], Value::Concrete(pattern[j as int] as u64, 0), env);
                lemma_binary_sound(BinOp::LogicAnd, acc, eq, env);
                assert(value_eval(acc, env) != 0 <==> forall|k: int|
                    0 <= k < j ==> #[trigger] byte_is(env, content@[i + k], pattern@[k]));
                assert(value_eval(eq, env) != 0 <==> byte_is(env, content@[i + j], pattern@[j as int]));
                if value_eval(next, env) != 0 {
                    assert forall|k: int| 0 <= k < j + 1 implies #[trigger] byte_is(env, content@[i + k], pattern@[k]) by {
                        if k < j {
                            assert(value_eval(acc, env) != 0);
                        }
                    }
                }
            }
        }
        acc = next;
        j = j + 1;
    }
    proof {
        assert forall|env: Map<u64, u64>| #[trigger] value_eval(acc, env) != 0 <==> matches_at(env, content@, pattern@, i as int) by {
            if matches_at(env, content@, pattern@, i as int) {
                assert forall|k: int| 0 <= k < j implies #[trigger] byte_is(env, content@[i + k], pattern@[k]) by {
                    assert(byte_is(env, content@[i + k], pattern@[k]));
                }
            }
        }
    }
    acc
}

/// The position of the first occurrence of `pattern` in `content`, as a
/// value over the symbols the content holds: all ones where it does not occur.
pub fn search(content: &Vec<Value>, pattern: &[u8]) -> (r: Value)
    ensures
        forall|env: Map<u64, u64>| #[trigger] value_eval(r, env) == first_match_from(env, content@, pattern@, 0),
{
    let n = content.len();
    let m = pattern.len();
    if m > n {
        let r = Value::Concrete(0xffff_ffff_ffff_ffffu64, 0);
        assert forall|env: Map<u64, u64>| #[trigger] value_eval(r, env) == first_match_from(env, content@, pattern@, 0) by {}
        return r;
    }
    let mut acc = Value::Concrete(0xffff_ffff_ffff_ffffu64, 0);
    let mut left: u128 = (n - m) as u128 + 1;
    assert forall|env: Map<u64, u64>| #[trigger] value_eval(acc, env) == first_match_from(env, content@, pattern@, left as nat) by {}
    while left > 0
        invariant
            n == content@.len(),
            m == pattern@.len(),
            m <= n,
            left <= n - m + 1,
            forall|env: Map<u64, u64>| #[trigger] value_eval(acc, env) == first_match_from(env, content@, pattern@, left as nat),
        decreases left,
    {
        left = left - 1;
        let i = left as usize;
        let cond = match_value(content, pattern, i);
        let next = conditional(&cond, &Value::Concrete(i as u64, 0), &acc);
        proof {
            assert forall|env: Map<u64, u64>| #[trigger] value_eval(next, env) == first_match_from(env, content@, pattern@, i as nat) by {
                lemma_conditional_sound(cond, Value::Concrete(i as u64, 0), acc, env);
                assert(value_eval(cond, env) != 0 <==> matches_at(env, content@, pattern@, i as int));
            }
        }
        acc = next;
    }
    acc
}

/// A value that is non-zero exactly where the pattern holds of `bytes`.
pub fn pattern_constraint(bytes: &Vec<Value>, pattern: &[u8]) -> (r: Value)
    ensures
        forall|env: Map<u64, u64>| #[trigger] value_eval(r, env) != 0 <==> pattern_holds(env, bytes@, pattern@),
{
    let mut acc = Value::Concrete(1, 0);
    let mut j: usize = 0;
    while j < pattern.len() && j < bytes.len()
        invariant
            j <= pattern@.len(),
            j <= bytes@.len(),
            forall|env: Map<u64, u64>|
                #[trigger] value_eval(acc, env) != 0 <==> forall|k: int|
                    0 <= k < j && pattern@[k] != 63 ==> #[trigger] byte_is(env, bytes@[k], pattern@[k]),
        decreases pattern@.len() - j,
    {
        if pattern[j] != 63 {
            let eq = binary(BinOp::Eq, &bytes[j], &Value::Concrete(pattern[j] as u64, 0));
            let next = binary(BinOp::LogicAnd, &acc, &eq);
            proof {
                assert forall|env: Map<u64, u64>| #[trigger] value_eval(next, env) != 0 <==> forall|k: int|
                    0 <= k < j + 1 && pattern@[k] != 63 ==> #[trigger] byte_is(env, bytes@[k], pattern@[k]) by {
                    lemma_binary_sound(BinOp::Eq, bytes@[j as int], Value::Concrete(pattern[j as int] as u64, 0), env);
                    lemma_binary_sound(BinOp::LogicAnd, acc, eq, env);
                    assert(value_eval(acc, env) != 0 <==> forall|k: int|
                        0 <= k < j && pattern@[k] != 63 ==> #[trigger] byte_is(env, bytes@[k], pattern@[k]));
                    assert(value_eval(eq, env) != 0 <==> byte_is(env, bytes@[j as int], pattern@[j as int]));
                    if value_eval(next, env) != 0 {
                        assert forall|k: int| 0 <= k < j + 1 && pattern@[k] != 63 implies #[trigger] byte_is(
                            env,
                            bytes@[k],
                            pattern@[k],
                        ) by {
                            if k < j {
                                assert(value_eval(acc, env) != 0);
                            }
                        }
                    }
                }
            }
            acc = next;
        }
        j = j + 1;
    }
    proof {
        assert forall|env: Map<u64, u64>| #[trigger] value_eval(acc, env) != 0 <==> pattern_holds(env, bytes@, pattern@) by {
            if value_eval(acc, env) != 0 {
                assert forall|k: int| 0 <= k < pattern@.len() && k < bytes@.len() && pattern@[k] != 63 implies #[trigger] byte_is(
                    env,
                    bytes@[k],
                    pattern@[k],
                ) by {
                    assert(k < j);
                }
            }
        }
    }
    acc
}

impl FileSystem {
    /// The standard input, output and error streams, empty.
    pub fn new() -> (r: FileSystem)
        ensures
            r.files@.len() == 3,
            forall|i: int| 0 <= i < 3 ==> (#[trigger] r.files@[i]).fd == i && r.files@[i].content@.len() == 0,
    {
        let mut files: Vec<SimFile> = Vec::new();
        let mut fd: u64 = 0;
        while fd < 3
            invariant
                fd <= 3,
                files@.len() == fd,
                forall|i: int| 0 <= i < fd ==> (#[trigger] files@[i]).fd == i && files@[i].content@.len() == 0,
            decreases 3 - fd,
        {
            files.push(SimFile { path: Vec::new(), fd, content: Vec::new() });
            fd = fd + 1;
        }
        FileSystem { files }
    }

    /// The index of the first file with descriptor `fd`.
    pub fn find_fd(&self, fd: u64) -> (r: Option<usize>)
        ensures
            match r {
                Some(i) => first_fd(self.files@, fd, 0) == Some(i as nat) && i < self.files@.len(),
                None => first_fd(self.files@, fd, 0) is None,
            },
    {
        let mut i: usize = 0;
        while i < self.files.len()
            invariant
                i <= self.files@.len(),
                first_fd(self.files@, fd, 0) == first_fd(self.files@, fd, i as nat),
            decreases self.files@.len() - i,
        {
            if self.files[i].fd == fd {
                return Some(i);
            }
            i = i + 1;
        }
        None
    }

    /// The index of the first file at `path`.
    pub fn find_path(&self, path: &[u8]) -> (r: Option<usize>)
        ensures
            match r {
                Some(i) => first_path(self.files@, path@, 0) == Some(i as nat) && i < self.files@.len(),
                None => first_path(self.files@, path@, 0) is None,
            },
    {
        let mut i: usize = 0;
        while i < self.files.len()
            invariant
                i <= self.files@.len(),
                first_path(self.files@, path@, 0) == first_path(self.files@, path@, i as nat),
            decreases self.files@.len() - i,
        {
            if crate::registers::bytes_eq(self.files[i].path.as_slice(), path) {
                return Some(i);
            }
            i = i + 1;
        }
        None
    }

    /// Sets the content behind descriptor `fd`, opening it if needed.
    pub fn fill(&mut self, fd: u64, bytes: Vec<Value>)
        ensures
            first_fd(final(self).files@, fd, 0) is Some,
            final(self).files@[first_fd(final(self).files@, fd, 0)->0 as int].content@ == bytes@,
    {
        let ghost b = bytes@;
        match self.find_fd(fd) {
            Some(i) => {
                let ghost before = self.files@;
                let path = crate::registers::copy_bytes(&self.files[i].path);
                self.files.set(i, SimFile { path, fd, content: bytes });
                proof {
                    lemma_first_fd_update(before, self.files@, fd, i as nat, 0);
                }
            },
            None => {
                let ghost before = self.files@;
                self.files.push(SimFile { path: Vec::new(), fd, content: bytes });
                proof {
                    lemma_first_fd_push(before, self.files@, fd, 0);
                }
            },
        }
    }

    /// Adds a file at `path` with the given content, under a new descriptor.
    pub fn add_file(&mut self, path: &[u8], bytes: Vec<Value>) -> (r: Option<u64>)
        ensures
            match r {
                Some(fd) => final(self).files@.len() == old(self).files@.len() + 1 && final(self).files@.last().fd
                    == fd && final(self).files@.last().path@ == path@ && final(self).files@.last().content@
                    == bytes@ && forall|i: int| 0 <= i < old(self).files@.len() ==> (#[trigger] old(self).files@[i]).fd != fd,
                None => *final(self) == *old(self),
            },
    {
        let mut next: u64 = 0;
        let mut i: usize = 0;
        while i < self.files.len()
            invariant
                i <= self.files@.len(),
                forall|k: int| 0 <= k < i ==> (#[trigger] self.files@[k]).fd < next,
            decreases self.files@.len() - i,
        {
            if self.files[i].fd >= next {
                if self.files[i].fd == u64::MAX {
                    return None;
                }
                next = self.files[i].fd + 1;
            }
            i = i + 1;
        }
        let p = slice_bytes(path);
        self.files.push(SimFile { path: p, fd: next, content: bytes });
        Some(next)
    }

    /// A copy with the same descriptors, paths and contents.
    pub fn duplicate(&self) -> (r: FileSystem)
        ensures
            r.files@.len() == self.files@.len(),
            forall|i: int|
                0 <= i < self.files@.len() ==> (#[trigger] r.files@[i]).fd == self.files@[i].fd
                    && r.files@[i].path@ == self.files@[i].path@ && r.files@[i].content@ == self.files@[i].content@,
    {
        let mut files: Vec<SimFile> = Vec::new();
        let mut i: usize = 0;
        while i < self.files.len()
            invariant
                i <= self.files@.len(),
                files@.len() == i,
                forall|k: int|
                    0 <= k < i ==> (#[trigger] files@[k]).fd == self.files@[k].fd && files@[k].path@
                        == self.files@[k].path@ && files@[k].content@ == self.files@[k].content@,
            decreases self.files@.len() - i,
        {
            let f = &self.files[i];
            files.push(
                SimFile {
                    path: crate::registers::copy_bytes(&f.path),
                    fd: f.fd,
                    content: crate::registers::copy_values(&f.content),
                },
            );
            i = i + 1;
        }
        FileSystem { files }
    }

    /// Where `pattern` first occurs in the file at `path`; all ones when it
    /// does not occur or no file has that path.
    pub fn search_file(&self, path: &[u8], pattern: &[u8]) -> (r: Value)
        ensures
            match self.find_path_spec(path@) {
                Some(i) => forall|env: Map<u64, u64>| #[trigger] value_eval(r, env) == first_match_from(
                    env,
                    self.files@[i as int].content@,
                    pattern@,
                    0,
                ),
                None => r == Value::Concrete(0xffff_ffff_ffff_ffffu64, 0),
            },
    {
        match self.find_path(path) {
            Some(i) => search(&self.files[i].content, pattern),
            None => Value::Concrete(0xffff_ffff_ffff_ffffu64, 0),
        }
    }

    pub open spec fn find_path_spec(&self, path: Seq<u8>) -> Option<nat> {
        first_path(self.files@, path, 0)
    }

    /// Where `pattern` first occurs in the file behind `fd`: a value over
    /// the file's symbols, all ones for none or for an unknown descriptor.
    pub fn search_fd(&self, fd: u64, pattern: &[u8]) -> (r: Value)
        ensures
            match first_fd(self.files@, fd, 0) {
                Some(i) => forall|env: Map<u64, u64>| #[trigger] value_eval(r, env) == first_match_from(
                    env,
                    self.files@[i as int].content@,
                    pattern@,
                    0,
                ),
                None => r == Value::Concrete(0xffff_ffff_ffff_ffffu64, 0),
            },
    {
        match self.find_fd(fd) {
            Some(i) => search(&self.files[i].content, pattern),
            None => Value::Concrete(0xffff_ffff_ffff_ffffu64, 0),
        }
    }

}

proof fn lemma_first_fd_update(a: Seq<SimFile>, b: Seq<SimFile>, fd: u64, k: nat, i: nat)
    requires
        first_fd(a, fd, i) == Some(k),
        k < a.len(),
        i <= k,
        b.len() == a.len(),
        b[k as int].fd == fd,
        forall|j: int| 0 <= j < a.len() && j != k ==> b[j] == a[j],
    ensures
        first_fd(b, fd, i) == Some(k),
    decreases a.len() - i,
{
    if i < k {
        assert(a[i as int].fd != fd);
        lemma_first_fd_update(a, b, fd, k, i + 1);
    }
}

proof fn lemma_first_fd_push(a: Seq<SimFile>, b: Seq<SimFile>, fd: u64, i: nat)
    requires
        first_fd(a, fd, i) is None,
        i <= a.len(),
        b.len() == a.len() + 1,
        b[a.len() as int].fd == fd,
        forall|j: int| 0 <= j < a.len() ==> b[j] == a[j],
    ensures
        first_fd(b, fd, i) == Some(a.len()),
    decreases a.len() - i,
{
    if i < a.len() {
        lemma_first_fd_push(a, b, fd, i + 1);
    }
}

fn slice_bytes(s: &[u8]) -> (r: Vec<u8>)
    ensures
        r@ == s@,
{
    let mut r: Vec<u8> = Vec::new();
    let mut i: usize = 0;
    while i < s.len()
        invariant
            i <= s@.len(),
            r@ == s@.subrange(0, i as int),
        decreases s@.len() - i,
    {
        r.push(s[i]);
        i = i + 1;
    }
    assert(r@ =~= s@);
    r
}

} // verus!
