use kvbench::binary_search_tree::{Cursor, LockFreeBinarySearchTree, Node};
use kvbench::errors::BenchError;
use kvbench::fix_sized_key::{DefaultParams, FixSizedKey, FixSizedKeyParams};
use kvbench::interface::{GetType, Tree};

fn key(s: &str) -> FixSizedKey {
    FixSizedKey::from_raw(&s, &DefaultParams::params()).unwrap()
}

#[test]
fn put_and_get() {
    let mut t = LockFreeBinarySearchTree::new_default();
    t.put(key("hello"), "world".to_string());
    assert_eq!(t.get(&key("hello")), Some(&"world".to_string()));
    assert_eq!(t.get_val(&key("hello")), Some("world".to_string()));
    assert_eq!(t.get(&key("absent")), None);
    assert_eq!(t.get_val(&key("absent")), None);
}

#[test]
fn update_visibility() {
    // A put of an existing key is observed by the next get: the new value,
    // never the old one.
    let mut t = LockFreeBinarySearchTree::new_default();
    t.put(key("k"), "old".to_string());
    t.put(key("k"), "new".to_string());
    assert_eq!(t.get_val(&key("k")), Some("new".to_string()));
}

#[test]
fn many_keys_all_retrievable() {
    let mut t = LockFreeBinarySearchTree::new_default();
    let names = ["m", "c", "x", "a", "e", "t", "z", "b", "d", "y"];
    for (i, n) in names.iter().enumerate() {
        t.put(key(n), format!("v{}", i));
    }
    for (i, n) in names.iter().enumerate() {
        assert_eq!(t.get_val(&key(n)), Some(format!("v{}", i)));
    }
    assert_eq!(t.get_val(&key("q")), None);
}

#[test]
fn remove_is_not_implemented() {
    let mut t = LockFreeBinarySearchTree::new_default();
    t.put(key("k"), "v".to_string());
    assert_eq!(t.remove(&key("k")), Err(BenchError::NotImplemented));
    // The binding is untouched.
    assert_eq!(t.get_val(&key("k")), Some("v".to_string()));
}

#[test]
fn cursor_find() {
    let mut t = LockFreeBinarySearchTree::new_default();
    t.put(key("alpha"), "1".to_string());
    t.put(key("beta"), "2".to_string());
    let mut c = Cursor::new(key("beta"));
    assert!(c.find(&t));
    assert_eq!(c.value, Some("2".to_string()));
    let mut c = Cursor::new(key("gamma"));
    assert!(!c.find(&t));
    assert_eq!(c.value, None);
}

#[test]
fn cursor_find_from_subtree() {
    let mut t = LockFreeBinarySearchTree::new_default();
    t.put(key("alpha"), "1".to_string());
    let mut c = Cursor::new(key("alpha"));
    assert!(c.find_from(t.root_ref()));
    assert_eq!(c.value, Some("1".to_string()));
}

#[test]
fn node_leaf() {
    let n = Node::new(key("k"), "v".to_string());
    assert!(n.left.is_none());
    assert!(n.right.is_none());
    assert_eq!(n.value, "v");
}

#[test]
fn render_draws_the_shape() {
    let mut t = LockFreeBinarySearchTree::new_default();
    t.put(key("b"), "1".to_string());
    t.put(key("a"), "2".to_string());
    t.put(key("c"), "3".to_string());
    // The greater key hangs off `left` and is drawn first.
    assert_eq!(t.render(), "└──b:1\n    ├──c:3\n    └──a:2\n");
    assert_eq!(LockFreeBinarySearchTree::new_default().render(), "");
}

#[test]
fn tree_capability_contract() {
    let mut t = <LockFreeBinarySearchTree as Tree>::new();
    // The engine hands back borrowed references.
    assert!(matches!(t.get_type(), GetType::GetRef));
    Tree::put(&mut t, "one".to_string(), "1".to_string());
    Tree::put(&mut t, "two".to_string(), "2".to_string());
    assert_eq!(Tree::get(&t, "one".to_string()), Some(&"1".to_string()));
    assert_eq!(Tree::get(&t, "three".to_string()), None);
    assert_eq!(Tree::get_val(&t, "one".to_string()), Some("1".to_string()));
    assert_eq!(Tree::get_val(&t, "three".to_string()), None);
    assert_eq!(Tree::remove(&mut t, "one".to_string()), Err(BenchError::NotImplemented));
}

#[test]
fn custom_width_tree() {
    let params = FixSizedKeyParams { key_size: 24, allow_int_cmp: true };
    let mut t = LockFreeBinarySearchTree::new(params);
    let p = FixSizedKeyParams { key_size: 24, allow_int_cmp: true };
    let k = FixSizedKey::from_raw(&"a-rather-long-key-name", &p).unwrap();
    t.put(k.clone(), "v".to_string());
    assert_eq!(t.get_val(&k), Some("v".to_string()));
}
