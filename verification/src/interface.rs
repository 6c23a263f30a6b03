//! The capability contract every tree under test satisfies: construction,
//! `put`, at least one of `get`/`get_val`, and an optional `remove`.  The
//! benchmark harness is written against this contract alone, so any
//! implementation with these guarantees can stand in for the engine.
use vstd::prelude::*;

verus! {

use vstd::utf8::encode_utf8;
use crate::errors::BenchError;
use crate::fix_sized_key::{FixSizedKey, padded};
use crate::binary_search_tree::LockFreeBinarySearchTree;

/// Which accessor an implementation supports: a borrowed reference or an
/// owned copy of the value.
#[derive(Debug, Clone, Copy, PartialEq, Eq, Structural)]
pub enum GetType {
    GetRef,
    GetVal,
}

/// A key/value tree keyed by strings no longer than the implementation's
/// fixed key width.  The view `kv` maps the width-padded UTF-8 bytes of a
/// key to the characters of its value.
pub trait Tree: Sized {
    /// The bindings currently held.  The defaults here let an adapter that
    /// Verus never sees satisfy the trait; a verified implementation
    /// overrides all three.
    open spec fn kv(&self) -> Map<Seq<u8>, Seq<char>> {
        Map::empty()
    }

    /// The implementation's internal invariant.
    open spec fn inv(&self) -> bool {
        true
    }

    /// The fixed key width.
    open spec fn width(&self) -> nat {
        0
    }

    /// Which accessor this implementation supports (owned copies, unless
    /// overridden).
    open spec fn spec_get_type(&self) -> GetType {
        GetType::GetVal
    }

    /// Which accessor this implementation supports; the harness dispatches
    /// its read-back checks on this.
    fn get_type(&self) -> (r: GetType)
        ensures
            r == self.spec_get_type(),
    ;

    fn new() -> (t: Self)
        ensures
            t.inv(),
            t.kv() == Map::<Seq<u8>, Seq<char>>::empty(),
    ;

    fn put(&mut self, key: String, value: String)
        requires
            old(self).inv(),
            encode_utf8(key@).len() <= old(self).width(),
        ensures
            final(self).inv(),
            final(self).width() == old(self).width(),
            final(self).kv() == old(self).kv().insert(
                padded(encode_utf8(key@), old(self).width() as int),
                value@,
            ),
    ;

    /// Borrow a value; only owed by implementations declaring `GetRef`.
    fn get<'a>(&'a self, key: String) -> (r: Option<&'a String>)
        requires
            self.inv(),
            encode_utf8(key@).len() <= self.width(),
            self.spec_get_type() == GetType::GetRef,
        ensures
            match r {
                Some(v) => self.kv().contains_key(padded(encode_utf8(key@), self.width() as int))
                    && self.kv()[padded(encode_utf8(key@), self.width() as int)] == v@,
                None => !self.kv().contains_key(padded(encode_utf8(key@), self.width() as int)),
            },
    ;

    fn get_val(&self, key: String) -> (r: Option<String>)
        requires
            self.inv(),
            encode_utf8(key@).len() <= self.width(),
        ensures
            match r {
                Some(v) => self.kv().contains_key(padded(encode_utf8(key@), self.width() as int))
                    && self.kv()[padded(encode_utf8(key@), self.width() as int)] == v@,
                None => !self.kv().contains_key(padded(encode_utf8(key@), self.width() as int)),
            },
    ;

    fn remove(&mut self, key: String) -> (r: Result<(), BenchError>)
        requires
            old(self).inv(),
            encode_utf8(key@).len() <= old(self).width(),
        ensures
            final(self).inv(),
            final(self).width() == old(self).width(),
            r matches Err(e) ==> e == BenchError::NotImplemented && final(self).kv() == old(
                self,
            ).kv(),
            r is Ok ==> final(self).kv() == old(self).kv().remove(
                padded(encode_utf8(key@), old(self).width() as int),
            ),
    ;
}

impl Tree for LockFreeBinarySearchTree {
    open spec fn kv(&self) -> Map<Seq<u8>, Seq<char>> {
        self@
    }

    open spec fn inv(&self) -> bool {
        self.well_formed()
    }

    open spec fn width(&self) -> nat {
        self.key_size()
    }

    /// The engine hands back borrowed references, and owned copies too.
    open spec fn spec_get_type(&self) -> GetType {
        GetType::GetRef
    }

    fn get_type(&self) -> (r: GetType) {
        GetType::GetRef
    }

    fn new() -> (t: Self) {
        LockFreeBinarySearchTree::new_default()
    }

    fn put(&mut self, key: String, value: String) {
        let k = self.encode_key(&key);
        LockFreeBinarySearchTree::put(self, k, value);
    }

    fn get<'a>(&'a self, key: String) -> (r: Option<&'a String>) {
        let k = self.encode_key(&key);
        LockFreeBinarySearchTree::get(self, &k)
    }

    fn get_val(&self, key: String) -> (r: Option<String>) {
        let k = self.encode_key(&key);
        LockFreeBinarySearchTree::get_val(self, &k)
    }

    fn remove(&mut self, key: String) -> (r: Result<(), BenchError>) {
        let k = self.encode_key(&key);
        LockFreeBinarySearchTree::remove(self, &k)
    }
}

} // verus!
