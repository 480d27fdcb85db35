use radius::filesystem::{pattern_constraint, search, FileSystem};
use radius::value::{evaluate, Term, Value};
use std::collections::HashMap;

fn bytes(s: &[u8]) -> Vec<Value> {
    s.iter().map(|b| Value::Concrete(*b as u64, 0)).collect()
}

fn under(v: &Value, e: &[(u64, u64)]) -> u64 {
    let env: HashMap<u64, u64> = e.iter().cloned().collect();
    match v {
        Value::Concrete(c, _) => *c,
        Value::Symbolic(t, _) => evaluate(t, &env),
    }
}

#[test]
fn search_concrete_content() {
    assert_eq!(under(&search(&bytes(b"hello world"), b"wor"), &[]), 6);
    assert_eq!(under(&search(&bytes(b"hello world"), b"xyz"), &[]), u64::MAX);
    assert_eq!(under(&search(&bytes(b"ab"), b"abc"), &[]), u64::MAX);
    assert_eq!(under(&search(&bytes(b"abab"), b"ab"), &[]), 0);
    assert_eq!(under(&search(&bytes(b"abc"), b""), &[]), 0);
}

#[test]
fn search_symbolic_content() {
    // "a?c" with the middle byte symbolic
    let content = vec![Value::Concrete(b'a' as u64, 0), Value::Symbolic(Term::Sym(0, 8), 0), Value::Concrete(b'c' as u64, 0)];
    let idx = search(&content, b"bc");
    assert_eq!(under(&idx, &[(0, b'b' as u64)]), 1);
    assert_eq!(under(&idx, &[(0, b'z' as u64)]), u64::MAX);
    let idx = search(&content, b"a");
    assert_eq!(under(&idx, &[(0, b'z' as u64)]), 0);
}

#[test]
fn pattern_with_wildcards() {
    let content = vec![Value::Symbolic(Term::Sym(0, 8), 0), Value::Symbolic(Term::Sym(1, 8), 0), Value::Concrete(b'x' as u64, 0)];
    let c = pattern_constraint(&content, b"f?x");
    assert_ne!(under(&c, &[(0, b'f' as u64), (1, 0)]), 0);
    assert_eq!(under(&c, &[(0, b'g' as u64), (1, 0)]), 0);
    let c = pattern_constraint(&content, b"??y");
    assert_eq!(under(&c, &[(0, 0), (1, 0)]), 0);
}

#[test]
fn descriptors_and_paths() {
    let mut fs = FileSystem::new();
    assert_eq!(fs.files.len(), 3);
    fs.fill(0, bytes(b"input"));
    assert_eq!(fs.files[fs.find_fd(0).unwrap()].content.len(), 5);
    let fd = fs.add_file(b"/tmp/flag", bytes(b"FLAG{x}")).unwrap();
    assert_eq!(fd, 3);
    assert_eq!(under(&fs.search_file(b"/tmp/flag", b"{"), &[]), 4);
    assert_eq!(under(&fs.search_fd(fd, b"}"), &[]), 6);
    assert_eq!(under(&fs.search_fd(9, b"}"), &[]), u64::MAX);
    assert_eq!(under(&fs.search_file(b"/nope", b"F"), &[]), u64::MAX);
    fs.fill(7, bytes(b"z"));
    assert_eq!(fs.files.len(), 5);
}
