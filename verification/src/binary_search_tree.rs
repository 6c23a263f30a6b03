//! The search-tree engine over fixed-width keys.
//!
//! A compare-and-swap engine would publish heap nodes through atomic
//! pointers and retry lost races; here the node graph is held by ownership,
//! so every mutation is the race-free core of that protocol: find the
//! position, then either swap the value of the node with the equal key (the
//! update path) or link a fresh node into the empty child slot the search
//! ended at (the insert path).  One deliberate oddity of the layout: a
//! node's `left` child holds the keys *greater* than its own, and `right`
//! the smaller ones — the insert path links via `left` whenever the parent's
//! key is less than the new key, and every traversal follows the same rule.
use vstd::prelude::*;

verus! {

use core::cmp::Ordering;
use crate::errors::BenchError;
use crate::fix_sized_key::{
    DefaultParams, FixSizedKey, FixSizedKeyParams, key_cmp_of, lemma_key_cmp_equal_iff,
};

/// One tree vertex: an immutable key, the current value, and two children.
pub struct Node {
    pub key: FixSizedKey,
    pub value: String,
    pub left: Option<Box<Node>>,
    pub right: Option<Box<Node>>,
}

impl Node {
    /// The key/value pairs reachable from an optional subtree root.
    pub open spec fn optional_as_map(node_opt: Option<Box<Node>>) -> Map<Seq<u8>, Seq<char>>
        decreases node_opt,
    {
        match node_opt {
            None => Map::empty(),
            Some(node) => node.as_map(),
        }
    }

    /// The key/value pairs in this node's subtree.
    pub open spec fn as_map(self) -> Map<Seq<u8>, Seq<char>>
        decreases self,
    {
        Node::optional_as_map(self.left).union_prefer_right(Node::optional_as_map(self.right))
            .insert(self.key@, self.value@)
    }

    /// Well-formedness under a comparison mode and key width: every key has
    /// the fixed width and mode, and the ordering convention holds: keys in
    /// the `left` subtree compare greater than the node's own key, keys in
    /// `right` smaller.
    pub open spec fn well_formed(self, mode: bool, sz: nat) -> bool
        decreases self,
    {
        &&& self.key.mode() == mode
        &&& self.key@.len() == sz
        &&& (forall|elem: Seq<u8>|
            Node::optional_as_map(self.left).dom().contains(elem) ==> key_cmp_of(
                mode,
                self.key@,
                elem,
            ) == Ordering::Less)
        &&& (forall|elem: Seq<u8>|
            Node::optional_as_map(self.right).dom().contains(elem) ==> key_cmp_of(
                mode,
                self.key@,
                elem,
            ) == Ordering::Greater)
        &&& (match self.left {
            Some(left_node) => left_node.well_formed(mode, sz),
            None => true,
        })
        &&& (match self.right {
            Some(right_node) => right_node.well_formed(mode, sz),
            None => true,
        })
    }

    /// A freshly created leaf holding one binding.
    pub fn new(key: FixSizedKey, value: String) -> (n: Node)
        ensures
            n.key == key,
            n.value == value,
            n.left is None,
            n.right is None,
            n.as_map() =~= Map::<Seq<u8>, Seq<char>>::empty().insert(key@, value@),
    {
        Node { key, value, left: None, right: None }
    }

    fn insert_into_optional(node: &mut Option<Box<Node>>, key: FixSizedKey, value: String)
        requires
            key.wf(),
            *old(node) matches Some(n) ==> n.well_formed(key.mode(), key@.len()),
        ensures
            *final(node) matches Some(n) ==> n.well_formed(key.mode(), key@.len()),
            (*final(node)) is Some,
            Node::optional_as_map(*final(node)) =~= Node::optional_as_map(*old(node)).insert(
                key@,
                value@,
            ),
        decreases *old(node),
    {
        match node.take() {
            None => {
                *node = Some(Box::new(Node::new(key, value)));
            },
            Some(mut boxed_node) => {
                (&mut *boxed_node).insert(key, value);
                *node = Some(boxed_node);
            },
        }
    }

    fn insert(&mut self, key: FixSizedKey, value: String)
        requires
            key.wf(),
            old(self).well_formed(key.mode(), key@.len()),
        ensures
            final(self).well_formed(key.mode(), key@.len()),
            final(self).as_map() =~= old(self).as_map().insert(key@, value@),
        decreases *old(self),
    {
        let ghost mode = key.mode();
        let ghost sz = key@.len();
        proof {
            lemma_key_cmp_equal_iff(mode, self.key@, key@);
        }
        let ord = self.key.cmp(&key);
        match ord {
            Ordering::Equal => {
                self.value = value;
                proof {
                    assert(!Node::optional_as_map(self.left).dom().contains(key@));
                    assert(!Node::optional_as_map(self.right).dom().contains(key@));
                }
            },
            Ordering::Less => {
                // The parent's key is less than the new key: link left.
                Self::insert_into_optional(&mut self.left, key, value);
                proof {
                    assert(!Node::optional_as_map(self.right).dom().contains(key@));
                }
            },
            Ordering::Greater => {
                Self::insert_into_optional(&mut self.right, key, value);
                proof {
                    assert(!Node::optional_as_map(self.left).dom().contains(key@));
                }
            },
        }
    }

    fn get_from_optional<'a>(node: &'a Option<Box<Node>>, key: &FixSizedKey) -> (r: Option<
        &'a String,
    >)
        requires
            key.wf(),
            node matches Some(n) ==> n.well_formed(key.mode(), key@.len()),
        ensures
            match r {
                Some(v) => Node::optional_as_map(*node).contains_key(key@)
                    && Node::optional_as_map(*node)[key@] == v@,
                None => !Node::optional_as_map(*node).contains_key(key@),
            },
        decreases node,
    {
        match node {
            None => None,
            Some(n) => n.get(key),
        }
    }

    fn get<'a>(&'a self, key: &FixSizedKey) -> (r: Option<&'a String>)
        requires
            key.wf(),
            self.well_formed(key.mode(), key@.len()),
        ensures
            match r {
                Some(v) => self.as_map().contains_key(key@) && self.as_map()[key@] == v@,
                None => !self.as_map().contains_key(key@),
            },
        decreases *self,
    {
        proof {
            lemma_key_cmp_equal_iff(key.mode(), self.key@, key@);
        }
        let ord = self.key.cmp(key);
        match ord {
            Ordering::Equal => {
                proof {
                    assert(!Node::optional_as_map(self.left).dom().contains(key@));
                    assert(!Node::optional_as_map(self.right).dom().contains(key@));
                }
                Some(&self.value)
            },
            Ordering::Less => {
                proof {
                    assert(!Node::optional_as_map(self.right).dom().contains(key@));
                }
                Self::get_from_optional(&self.left, key)
            },
            Ordering::Greater => {
                proof {
                    assert(!Node::optional_as_map(self.left).dom().contains(key@));
                }
                Self::get_from_optional(&self.right, key)
            },
        }
    }
}

/// A key's display text: its payload decoded as UTF-8, or nothing when the
/// payload is not valid UTF-8.
pub open spec fn key_text(k: FixSizedKey) -> Seq<char> {
    if vstd::utf8::valid_utf8(crate::fix_sized_key::decoded(k@)) {
        vstd::utf8::decode_utf8(crate::fix_sized_key::decoded(k@))
    } else {
        Seq::<char>::empty()
    }
}

/// The drawn form of a subtree: the vertex's own line, then its children's
/// lines under a deepened prefix, the greater-key (`left`) child first.
pub open spec fn render_spec(node_opt: Option<Box<Node>>, prefix: Seq<char>, is_left: bool) -> Seq<
    char,
>
    decreases node_opt,
{
    match node_opt {
        None => Seq::<char>::empty(),
        Some(n) => {
            let line = prefix + (if is_left {
                "├──"@
            } else {
                "└──"@
            }) + key_text(n.key) + ":"@ + n.value@ + "\n"@;
            let child_prefix = prefix + (if is_left {
                "│   "@
            } else {
                "    "@
            });
            line + render_spec(n.left, child_prefix, true) + render_spec(
                n.right,
                child_prefix,
                false,
            )
        },
    }
}

/// A traversal bound to one target key.  `find` walks a tree exactly as the
/// read side of the engine does — compare, descend left on `Less`, right on
/// `Greater` — and records the value found.
pub struct Cursor {
    pub key: FixSizedKey,
    pub value: Option<String>,
}

impl Cursor {
    pub fn new(key: FixSizedKey) -> (c: Cursor)
        ensures
            c.key == key,
            c.value is None,
    {
        Cursor { key, value: None }
    }

    /// Search the whole tree for this cursor's key.
    pub fn find(&mut self, tree: &LockFreeBinarySearchTree) -> (r: bool)
        requires
            tree.well_formed(),
            old(self).key.wf(),
            old(self).key.mode() == tree.mode(),
            old(self).key@.len() == tree.key_size(),
        ensures
            final(self).key == old(self).key,
            r == tree@.contains_key(old(self).key@),
            r ==> (final(self).value matches Some(v) && v@ == tree@[old(self).key@]),
            !r ==> final(self).value is None,
    {
        self.find_from(tree.root_ref())
    }

    /// Search one subtree for this cursor's key.
    pub fn find_from(&mut self, node: &Option<Box<Node>>) -> (r: bool)
        requires
            old(self).key.wf(),
            node matches Some(n) ==> n.well_formed(old(self).key.mode(), old(self).key@.len()),
        ensures
            final(self).key == old(self).key,
            r == Node::optional_as_map(*node).contains_key(old(self).key@),
            r ==> (final(self).value matches Some(v) && v@ == Node::optional_as_map(*node)[old(
                self,
            ).key@]),
            !r ==> final(self).value is None,
        decreases node,
    {
        match node {
            None => {
                self.value = None;
                false
            },
            Some(n) => {
                proof {
                    lemma_key_cmp_equal_iff(self.key.mode(), n.key@, self.key@);
                }
                let ord = n.key.cmp(&self.key);
                match ord {
                    Ordering::Equal => {
                        proof {
                            assert(!Node::optional_as_map(n.left).dom().contains(self.key@));
                            assert(!Node::optional_as_map(n.right).dom().contains(self.key@));
                        }
                        self.value = Some(n.value.clone());
                        true
                    },
                    Ordering::Less => {
                        proof {
                            assert(!Node::optional_as_map(n.right).dom().contains(self.key@));
                        }
                        self.find_from(&n.left)
                    },
                    Ordering::Greater => {
                        proof {
                            assert(!Node::optional_as_map(n.left).dom().contains(self.key@));
                        }
                        self.find_from(&n.right)
                    },
                }
            },
        }
    }
}

/// The search tree engine, fixed key width, values owned by the tree.
pub struct LockFreeBinarySearchTree {
    root: Option<Box<Node>>,
    params: FixSizedKeyParams,
}

impl View for LockFreeBinarySearchTree {
    type V = Map<Seq<u8>, Seq<char>>;

    closed spec fn view(&self) -> Map<Seq<u8>, Seq<char>> {
        Node::optional_as_map(self.root)
    }
}

impl LockFreeBinarySearchTree {
    /// The root slot, for specifications over the tree's shape.
    pub closed spec fn spec_root(&self) -> Option<Box<Node>> {
        self.root
    }

    /// The comparison mode every key of this tree uses.
    pub closed spec fn mode(&self) -> bool {
        self.params.allow_int_cmp
    }

    /// The fixed width every key of this tree has.
    pub closed spec fn key_size(&self) -> nat {
        self.params.key_size as nat
    }

    pub closed spec fn well_formed(&self) -> bool {
        &&& self.params.wf()
        &&& (self.root matches Some(node) ==> node.well_formed(self.mode(), self.key_size()))
    }

    /// A key of matching width and mode, usable with this tree.
    pub open spec fn key_compat(&self, key: FixSizedKey) -> bool {
        &&& key.mode() == self.mode()
        &&& key@.len() == self.key_size()
    }

    pub fn new(params: FixSizedKeyParams) -> (t: Self)
        requires
            params.wf(),
        ensures
            t.well_formed(),
            t@ == Map::<Seq<u8>, Seq<char>>::empty(),
            t.mode() == params.allow_int_cmp,
            t.key_size() == params.key_size,
    {
        LockFreeBinarySearchTree { root: None, params }
    }

    /// A tree under the default parameters.
    pub fn new_default() -> (t: Self)
        ensures
            t.well_formed(),
            t@ == Map::<Seq<u8>, Seq<char>>::empty(),
            t.mode() == true,
            t.key_size() == 16,
    {
        Self::new(DefaultParams::params())
    }

    /// Borrow the root slot (the cursor's starting point).
    pub fn root_ref(&self) -> (r: &Option<Box<Node>>)
        requires
            self.well_formed(),
        ensures
            Node::optional_as_map(*r) == self@,
            *r matches Some(n) ==> n.well_formed(self.mode(), self.key_size()),
    {
        &self.root
    }

    /// Encode a string key against this tree's parameters.
    pub fn encode_key(&self, key: &String) -> (k: FixSizedKey)
        requires
            self.well_formed(),
            vstd::utf8::encode_utf8(key@).len() <= self.key_size(),
        ensures
            self.key_compat(k),
            k@ == crate::fix_sized_key::padded(
                vstd::utf8::encode_utf8(key@),
                self.key_size() as int,
            ),
            k.wf(),
    {
        match FixSizedKey::from_raw(key, &self.params) {
            Ok(k) => k,
            Err(_) => vstd::pervasive::unreached(),
        }
    }

    /// Insert or update one binding.
    pub fn put(&mut self, key: FixSizedKey, value: String)
        requires
            old(self).well_formed(),
            old(self).key_compat(key),
        ensures
            final(self).well_formed(),
            final(self).mode() == old(self).mode(),
            final(self).key_size() == old(self).key_size(),
            final(self)@ == old(self)@.insert(key@, value@),
    {
        proof {
            assert(key.wf());
        }
        Node::insert_into_optional(&mut self.root, key, value);
    }

    /// Look one key up, borrowing the value.
    pub fn get(&self, key: &FixSizedKey) -> (r: Option<&String>)
        requires
            self.well_formed(),
            self.key_compat(*key),
        ensures
            match r {
                Some(v) => self@.contains_key(key@) && self@[key@] == v@,
                None => !self@.contains_key(key@),
            },
    {
        Node::get_from_optional(&self.root, key)
    }

    /// Look one key up, copying the value out.
    pub fn get_val(&self, key: &FixSizedKey) -> (r: Option<String>)
        requires
            self.well_formed(),
            self.key_compat(*key),
        ensures
            match r {
                Some(v) => self@.contains_key(key@) && self@[key@] == v@,
                None => !self@.contains_key(key@),
            },
    {
        match self.get(key) {
            Some(v) => Some(v.clone()),
            None => None,
        }
    }

    /// The tree drawn line by line: one vertex per line, children indented
    /// under their parent, the greater-key (`left`) child first.
    pub fn render(&self) -> (r: String)
        ensures
            r@ == render_spec(self.spec_root(), Seq::<char>::empty(), false),
    {
        let mut out: String = String::new();
        let prefix: String = String::new();
        Self::render_node(&mut out, &prefix, &self.root, false);
        out
    }

    fn render_node(out: &mut String, prefix: &String, node: &Option<Box<Node>>, is_left: bool)
        ensures
            final(out)@ == old(out)@ + render_spec(*node, prefix@, is_left),
        decreases node,
    {
        match node {
            None => {
                proof {
                    assert(out@ =~= old(out)@ + render_spec(*node, prefix@, is_left));
                }
            },
            Some(n) => {
                out.append(prefix.as_str());
                if is_left {
                    out.append("├──");
                } else {
                    out.append("└──");
                }
                match n.key.to_str() {
                    Ok(s) => {
                        proof {
                            vstd::utf8::encode_utf8_decode_utf8(s@);
                        }
                        out.append(s.as_str());
                    },
                    Err(_) => {},
                }
                out.append(":");
                out.append(n.value.as_str());
                out.append("\n");
                let mut child_prefix = prefix.clone();
                if is_left {
                    child_prefix.append("│   ");
                } else {
                    child_prefix.append("    ");
                }
                let ghost head = out@;
                Self::render_node(out, &child_prefix, &n.left, true);
                Self::render_node(out, &child_prefix, &n.right, false);
                proof {
                    assert(head =~= old(out)@ + (prefix@ + (if is_left {
                        "├──"@
                    } else {
                        "└──"@
                    }) + key_text(n.key) + ":"@ + n.value@ + "\n"@));
                    assert(out@ =~= old(out)@ + render_spec(*node, prefix@, is_left));
                }
            },
        }
    }

    /// Deletion is deliberately unsupported by the engine: it would need a
    /// reclamation scheme the design omits.
    pub fn remove(&mut self, key: &FixSizedKey) -> (r: Result<(), BenchError>)
        ensures
            *final(self) == *old(self),
            r == Err::<(), BenchError>(BenchError::NotImplemented),
    {
        let _ = key;
        Err(BenchError::NotImplemented)
    }
}

/// The map after a run of `put` calls, applied first to last: `put`'s
/// contract states that each call turns the tree's view `m` into
/// `m.insert(key, value)`.
pub open spec fn after_puts(
    m: Map<Seq<u8>, Seq<char>>,
    ks: Seq<Seq<u8>>,
    vs: Seq<Seq<char>>,
) -> Map<Seq<u8>, Seq<char>>
    decreases ks.len(),
{
    if ks.len() == 0 || ks.len() != vs.len() {
        m
    } else {
        after_puts(m.insert(ks[0], vs[0]), ks.drop_first(), vs.drop_first())
    }
}

/// A run of puts neither adds nor changes bindings at keys it never wrote.
pub proof fn lemma_after_puts_frame(
    m: Map<Seq<u8>, Seq<char>>,
    ks: Seq<Seq<u8>>,
    vs: Seq<Seq<char>>,
    k: Seq<u8>,
)
    requires
        ks.len() == vs.len(),
        !ks.contains(k),
    ensures
        after_puts(m, ks, vs).contains_key(k) == m.contains_key(k),
        m.contains_key(k) ==> after_puts(m, ks, vs)[k] == m[k],
    decreases ks.len(),
{
    if ks.len() > 0 {
        assert(ks[0] != k);
        assert(!ks.drop_first().contains(k)) by {
            if ks.drop_first().contains(k) {
                let i = choose|i: int| 0 <= i < ks.drop_first().len() && ks.drop_first()[i] == k;
                assert(ks[i + 1] == k);
            }
        }
        lemma_after_puts_frame(m.insert(ks[0], vs[0]), ks.drop_first(), vs.drop_first(), k);
    }
}

/// Put/get correctness for a batch of distinct keys: after puts of pairwise
/// distinct keys, every written key is retrievable with its written value,
/// and no key outside the written set (or the initial contents) is found.
/// `get`'s contract reads these facts straight off the resulting view.
pub proof fn lemma_puts_all_visible(
    m: Map<Seq<u8>, Seq<char>>,
    ks: Seq<Seq<u8>>,
    vs: Seq<Seq<char>>,
)
    requires
        ks.len() == vs.len(),
        forall|i: int, j: int| 0 <= i < j < ks.len() ==> ks[i] != ks[j],
    ensures
        forall|i: int|
            0 <= i < ks.len() ==> #[trigger] after_puts(m, ks, vs).contains_key(ks[i])
                && after_puts(m, ks, vs)[ks[i]] == vs[i],
        forall|k: Seq<u8>|
            !m.contains_key(k) && !ks.contains(k) ==> !#[trigger] after_puts(
                m,
                ks,
                vs,
            ).contains_key(k),
    decreases ks.len(),
{
    if ks.len() > 0 {
        let m1 = m.insert(ks[0], vs[0]);
        let kr = ks.drop_first();
        let vr = vs.drop_first();
        lemma_puts_all_visible(m1, kr, vr);
        assert(!kr.contains(ks[0])) by {
            if kr.contains(ks[0]) {
                let i = choose|i: int| 0 <= i < kr.len() && kr[i] == ks[0];
                assert(ks[i + 1] == ks[0]);
            }
        }
        lemma_after_puts_frame(m1, kr, vr, ks[0]);
        assert forall|i: int| 0 <= i < ks.len() implies #[trigger] after_puts(
            m,
            ks,
            vs,
        ).contains_key(ks[i]) && after_puts(m, ks, vs)[ks[i]] == vs[i] by {
            if i > 0 {
                assert(kr[i - 1] == ks[i] && vr[i - 1] == vs[i]);
            }
        }
        assert forall|k: Seq<u8>| !m.contains_key(k) && !ks.contains(k)
            implies !#[trigger] after_puts(m, ks, vs).contains_key(k) by {
            assert(!kr.contains(k)) by {
                if kr.contains(k) {
                    let i = choose|i: int| 0 <= i < kr.len() && kr[i] == k;
                    assert(ks[i + 1] == k);
                }
            }
            assert(k != ks[0]);
            lemma_after_puts_frame(m1, kr, vr, k);
        }
    }
}

/// Update visibility: a put of `v` at `k` — whatever `k` held before —
/// leaves the view binding `k` to `v` and to nothing else, so a subsequent
/// `get` of `k`, whose contract reads the view, observes exactly `v`.
pub proof fn lemma_update_visibility(m: Map<Seq<u8>, Seq<char>>, k: Seq<u8>, v: Seq<char>)
    ensures
        m.insert(k, v).contains_key(k),
        m.insert(k, v)[k] == v,
{
}

} // verus!
