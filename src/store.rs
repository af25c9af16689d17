//! The node store: a map from digests to nodes, held as a list of entries
//! with distinct keys.

use vstd::prelude::*;
use crate::digest::{Digest, Identity, bytes_eq};

verus! {

/// A registry entry.
#[derive(Clone, Copy)]
pub struct Node {
    /// The identity that may manage this node and its descendants.
    pub owner: Identity,
    /// The parent's digest; all zeros for the root.
    pub p_hash: Digest,
    /// The identity this node resolves to.
    pub res_addr: Identity,
}

/// The map that a list of entries denotes: later entries win.
pub open spec fn entries_map(s: Seq<(Digest, Node)>) -> Map<Seq<u8>, Node>
    decreases s.len(),
{
    if s.len() == 0 {
        Map::empty()
    } else {
        entries_map(s.drop_last()).insert(s.last().0@, s.last().1)
    }
}

/// No two entries share a key.
pub open spec fn keys_unique(s: Seq<(Digest, Node)>) -> bool {
    forall|i: int, j: int| 0 <= i < j < s.len() ==> s[i].0@ != s[j].0@
}

proof fn lemma_entry_in_map(s: Seq<(Digest, Node)>, i: int)
    requires
        keys_unique(s),
        0 <= i < s.len(),
    ensures
        entries_map(s).contains_key(s[i].0@),
        entries_map(s)[s[i].0@] == s[i].1,
    decreases s.len(),
{
    if i < s.len() - 1 {
        lemma_entry_in_map(s.drop_last(), i);
        assert(s.drop_last()[i] == s[i]);
        assert(s[i].0@ != s[s.len() - 1].0@);
    }
}

proof fn lemma_key_absent(s: Seq<(Digest, Node)>, k: Seq<u8>)
    requires
        forall|i: int| 0 <= i < s.len() ==> s[i].0@ != k,
    ensures
        !entries_map(s).contains_key(k),
    decreases s.len(),
{
    if s.len() > 0 {
        assert(s.last().0@ != k);
        assert forall|i: int| 0 <= i < s.drop_last().len() implies s.drop_last()[i].0@ != k by {
            assert(s.drop_last()[i] == s[i]);
        }
        lemma_key_absent(s.drop_last(), k);
    }
}

proof fn lemma_update_entry(s: Seq<(Digest, Node)>, i: int, e: (Digest, Node))
    requires
        keys_unique(s),
        0 <= i < s.len(),
        s[i].0@ == e.0@,
    ensures
        entries_map(s.update(i, e)) == entries_map(s).insert(e.0@, e.1),
    decreases s.len(),
{
    let t = s.update(i, e);
    if i == s.len() - 1 {
        assert(t.drop_last() =~= s.drop_last());
        assert(entries_map(t) =~= entries_map(s).insert(e.0@, e.1));
    } else {
        assert(t.drop_last() =~= s.drop_last().update(i, e));
        lemma_update_entry(s.drop_last(), i, e);
        assert(s[i].0@ != s[s.len() - 1].0@);
        assert(entries_map(t) =~= entries_map(s).insert(e.0@, e.1));
    }
}

/// A map from digests to nodes.
pub struct NodeMap {
    entries: Vec<(Digest, Node)>,
}

impl View for NodeMap {
    type V = Map<Seq<u8>, Node>;

    closed spec fn view(&self) -> Map<Seq<u8>, Node> {
        entries_map(self.entries@)
    }
}

impl NodeMap {
    /// Keys are distinct.
    pub closed spec fn wf(&self) -> bool {
        keys_unique(self.entries@)
    }

    /// An empty map.
    pub fn new() -> (r: NodeMap)
        ensures
            r.wf(),
            r@ == Map::<Seq<u8>, Node>::empty(),
    {
        NodeMap { entries: Vec::new() }
    }

    fn find(&self, key: &[u8]) -> (r: Option<usize>)
        requires
            self.wf(),
        ensures
            match r {
                Some(i) => i < self.entries@.len() && self.entries@[i as int].0@ == key@,
                None => !self@.contains_key(key@),
            },
    {
        let mut i: usize = 0;
        while i < self.entries.len()
            invariant
                i <= self.entries@.len(),
                forall|j: int| 0 <= j < i ==> self.entries@[j].0@ != key@,
            decreases self.entries@.len() - i,
        {
            if bytes_eq(&self.entries[i].0, key) {
                return Some(i);
            }
            i = i + 1;
        }
        proof {
            lemma_key_absent(self.entries@, key@);
        }
        None
    }

    /// The node stored under `key`, if any.
    pub fn get(&self, key: &[u8]) -> (r: Option<Node>)
        requires
            self.wf(),
        ensures
            r == (if self@.contains_key(key@) { Some(self@[key@]) } else { None::<Node> }),
    {
        match self.find(key) {
            Some(i) => {
                proof {
                    lemma_entry_in_map(self.entries@, i as int);
                }
                Some(self.entries[i].1)
            },
            None => None,
        }
    }

    /// Whether a node is stored under `key`.
    pub fn has(&self, key: &[u8]) -> (r: bool)
        requires
            self.wf(),
        ensures
            r == self@.contains_key(key@),
    {
        match self.find(key) {
            Some(i) => {
                proof {
                    lemma_entry_in_map(self.entries@, i as int);
                }
                true
            },
            None => false,
        }
    }

    /// Stores `node` under `key`, replacing any node stored there.
    pub fn set(&mut self, key: Digest, node: Node)
        requires
            old(self).wf(),
        ensures
            final(self).wf(),
            final(self)@ == old(self)@.insert(key@, node),
    {
        match self.find(&key) {
            Some(i) => {
                proof {
                    lemma_update_entry(self.entries@, i as int, (key, node));
                }
                self.entries.set(i, (key, node));
            },
            None => {
                proof {
                    assert forall|j: int| 0 <= j < self.entries@.len() implies self.entries@[j].0@ != key@ by {
                        if self.entries@[j].0@ == key@ {
                            lemma_entry_in_map(self.entries@, j);
                        }
                    }
                }
                self.entries.push((key, node));
                assert(self.entries@.drop_last() =~= old(self).entries@);
            },
        }
    }
}

} // verus!
