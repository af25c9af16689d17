//! The registry's operations: initialization, resolution and registration,
//! with the ancestor-inclusive authorization walk.

use vstd::prelude::*;
use crate::digest::{Digest, Identity, bytes_eq, is_zero, zero_seq, derive_spec, is_derived};
use crate::store::{Node, NodeMap};

verus! {

/// How many nodes the authorization walk visits at most, starting with the
/// parent itself.
pub const MAX_DEPTH: u32 = 64;

/// The errors that the registry's operations return.
#[derive(Clone, Copy, Debug, PartialEq, Eq, Structural)]
pub enum Error {
    /// The resolution query is empty.
    InvalidHashInput,
    /// No node is stored under the queried digest.
    NotFound,
    /// No node is stored under the given parent digest.
    ParentNotFound,
    /// The caller owns neither the parent nor any of its ancestors.
    NotAuthorized,
}

/// The stable numeric code of each error.
pub open spec fn error_code(e: Error) -> u32 {
    match e {
        Error::InvalidHashInput => 1,
        Error::NotFound => 2,
        Error::ParentNotFound => 3,
        Error::NotAuthorized => 4,
    }
}

impl Error {
    /// The stable numeric code of this error.
    pub fn code(&self) -> (r: u32)
        ensures
            r == error_code(*self),
    {
        match self {
            Error::InvalidHashInput => 1,
            Error::NotFound => 2,
            Error::ParentNotFound => 3,
            Error::NotAuthorized => 4,
        }
    }
}

/// A second initialization was attempted.
#[derive(Clone, Copy, Debug, PartialEq, Eq, Structural)]
pub struct AlreadyInitialized;

/// The keys under which the storage holds data.
#[derive(Clone, Copy, Debug, PartialEq, Eq, Structural)]
pub enum DataKey {
    /// The registry's node map.
    RMap,
}

/// The registry's invariant: the root is present, every node's parent is
/// present, and every key is the root's or a derived digest.
pub open spec fn registry_wf(m: Map<Seq<u8>, Node>) -> bool {
    &&& m.contains_key(zero_seq())
    &&& forall|k: Seq<u8>| #[trigger] m.contains_key(k) ==> m.contains_key(m[k].p_hash@)
    &&& forall|k: Seq<u8>| #[trigger] m.contains_key(k) ==> (k == zero_seq() || is_derived(k))
}

/// The key of the `i`-th node of the ancestor chain that starts at `key`
/// (`key` itself at 0), following parent digests up to the root.
pub open spec fn ancestor(m: Map<Seq<u8>, Node>, key: Seq<u8>, i: nat) -> Option<Seq<u8>>
    decreases i,
{
    if i == 0 {
        Some(key)
    } else if key == zero_seq() || !m.contains_key(key) {
        None
    } else {
        ancestor(m, m[key].p_hash@, (i - 1) as nat)
    }
}

/// Whether `caller` owns one of the first `fuel` nodes of the ancestor chain
/// that starts at `key`.
pub open spec fn authorized(m: Map<Seq<u8>, Node>, key: Seq<u8>, caller: Seq<u8>, fuel: nat) -> bool
    decreases fuel,
{
    if fuel == 0 || !m.contains_key(key) {
        false
    } else if m[key].owner@ == caller {
        true
    } else if key == zero_seq() {
        false
    } else {
        authorized(m, m[key].p_hash@, caller, (fuel - 1) as nat)
    }
}

/// What resolving `q` returns.
pub open spec fn resolve_spec(m: Map<Seq<u8>, Node>, q: Seq<u8>) -> Result<Identity, Error> {
    if q.len() == 0 {
        Err(Error::InvalidHashInput)
    } else if m.contains_key(q) {
        Ok(m[q].res_addr)
    } else {
        Err(Error::NotFound)
    }
}

/// Whether `caller` may register under `parent`, and the error if not.
pub open spec fn register_check(m: Map<Seq<u8>, Node>, caller: Seq<u8>, parent: Seq<u8>) -> Result<(), Error> {
    if !m.contains_key(parent) {
        Err(Error::ParentNotFound)
    } else if !authorized(m, parent, caller, MAX_DEPTH as nat) {
        Err(Error::NotAuthorized)
    } else {
        Ok(())
    }
}

/// The registry after a successful registration of `key` under `parent`.
pub open spec fn register_map(
    m: Map<Seq<u8>, Node>,
    parent: Digest,
    key: Digest,
    owner: Identity,
    res_addr: Identity,
) -> Map<Seq<u8>, Node> {
    m.insert(key@, Node { owner, p_hash: parent, res_addr })
}

/// The all-zero digest.
pub open spec fn zero_digest() -> Digest {
    vstd::array::spec_array_fill_for_copy_type::<u8, 32>(0u8)
}

/// The root node created by `caller`.
pub open spec fn root_node(caller: Identity) -> Node {
    Node { owner: caller, p_hash: zero_digest(), res_addr: caller }
}

/// What initialization returns on storage in state `st`.
pub open spec fn init_result(st: Option<Map<Seq<u8>, Node>>) -> Result<(), AlreadyInitialized> {
    if st is Some {
        Err(AlreadyInitialized)
    } else {
        Ok(())
    }
}

/// The storage state after initialization by `caller` from state `st`.
pub open spec fn init_state(st: Option<Map<Seq<u8>, Node>>, caller: Identity) -> Option<Map<Seq<u8>, Node>> {
    if st is Some {
        st
    } else {
        Some(Map::<Seq<u8>, Node>::empty().insert(zero_seq(), root_node(caller)))
    }
}

/// The persistent storage: the registry's node map, once it is created.
pub struct Storage {
    initialized: bool,
    map: NodeMap,
}

impl View for Storage {
    type V = Option<Map<Seq<u8>, Node>>;

    closed spec fn view(&self) -> Option<Map<Seq<u8>, Node>> {
        if self.initialized {
            Some(self.map@)
        } else {
            None
        }
    }
}

impl Storage {
    /// The map is well formed, and the registry invariant holds once the
    /// registry exists.
    pub closed spec fn wf(&self) -> bool {
        &&& self.map.wf()
        &&& self.initialized ==> registry_wf(self.map@)
    }

    /// Empty storage, before initialization.
    pub fn new() -> (r: Storage)
        ensures
            r.wf(),
            r@ is None,
    {
        Storage { initialized: false, map: NodeMap::new() }
    }

    /// Whether the storage holds data under `key`.
    pub fn has(&self, key: DataKey) -> (r: bool)
        ensures
            r == (self@ is Some),
    {
        match key {
            DataKey::RMap => self.initialized,
        }
    }
}

/// The registry's operations.
pub struct Contract;

impl Contract {
    /// Creates the registry with a root node owned by `caller`, which also
    /// resolves to `caller`. Fails, changing nothing, when the registry
    /// already exists.
    pub fn init(store: &mut Storage, caller: Identity) -> (r: Result<(), AlreadyInitialized>)
        requires
            old(store).wf(),
        ensures
            final(store).wf(),
            r == init_result(old(store)@),
            final(store)@ == init_state(old(store)@, caller),
    {
        if store.has(DataKey::RMap) {
            return Err(AlreadyInitialized);
        }
        let mut map = NodeMap::new();
        let zero: Digest = [0u8; 32];
        assert(zero == zero_digest());
        assert(zero@ =~= zero_seq());
        map.set(zero, Node { owner: caller, p_hash: zero, res_addr: caller });
        assert(map@ =~= Map::<Seq<u8>, Node>::empty().insert(zero_seq(), root_node(caller)));
        proof {
            assert forall|k: Seq<u8>| #[trigger] map@.contains_key(k) implies map@.contains_key(map@[k].p_hash@) by {
                assert(k == zero_seq());
            }
        }
        store.map = map;
        store.initialized = true;
        Ok(())
    }

    /// The target that the node under `hash` resolves to.
    pub fn resolve(store: &Storage, hash: &[u8]) -> (r: Result<Identity, Error>)
        requires
            store.wf(),
            store@ is Some,
        ensures
            r == resolve_spec(store@->Some_0, hash@),
    {
        if hash.len() == 0 {
            return Err(Error::InvalidHashInput);
        }
        match store.map.get(hash) {
            Some(node) => Ok(node.res_addr),
            None => Err(Error::NotFound),
        }
    }

    /// Whether `caller` owns one of the first `MAX_DEPTH` nodes of the
    /// ancestor chain that starts at `key`, the walk ending at the root.
    fn auth_check(map: &NodeMap, caller: &Identity, key: &Digest) -> (r: bool)
        requires
            map.wf(),
            registry_wf(map@),
            map@.contains_key(key@),
        ensures
            r == authorized(map@, key@, caller@, MAX_DEPTH as nat),
    {
        let mut cur: Digest = *key;
        let mut fuel: u32 = MAX_DEPTH;
        while fuel > 0
            invariant
                map.wf(),
                registry_wf(map@),
                map@.contains_key(cur@),
                authorized(map@, key@, caller@, MAX_DEPTH as nat) == authorized(map@, cur@, caller@, fuel as nat),
            decreases fuel,
        {
            let node = match map.get(&cur) {
                Some(node) => node,
                None => {
                    proof {
                        assert(false);
                    }
                    return false;
                },
            };
            if bytes_eq(&node.owner, caller) {
                return true;
            }
            if is_zero(&cur) {
                return false;
            }
            cur = node.p_hash;
            fuel = fuel - 1;
        }
        false
    }

    /// Registers a node under `key`, which the caller has derived from
    /// `parent_hash` and a leaf digest: checks that the parent exists and
    /// that `caller` may register under it, then stores the node, replacing
    /// any node stored under `key`.
    pub fn register_at(
        store: &mut Storage,
        caller: Identity,
        parent_hash: Digest,
        key: Digest,
        owner: Identity,
        res_addr: Identity,
    ) -> (r: Result<Digest, Error>)
        requires
            old(store).wf(),
            old(store)@ is Some,
            key@ == zero_seq() || is_derived(key@),
        ensures
            final(store).wf(),
            match register_check(old(store)@->Some_0, caller@, parent_hash@) {
                Ok(_) => r == Ok::<Digest, Error>(key) && final(store)@ == Some(
                    register_map(old(store)@->Some_0, parent_hash, key, owner, res_addr),
                ),
                Err(e) => r == Err::<Digest, Error>(e) && final(store)@ == old(store)@,
            },
    {
        if !store.map.has(&parent_hash) {
            return Err(Error::ParentNotFound);
        }
        if !Self::auth_check(&store.map, &caller, &parent_hash) {
            return Err(Error::NotAuthorized);
        }
        let ghost m0 = store.map@;
        store.map.set(key, Node { owner, p_hash: parent_hash, res_addr });
        proof {
            let m1 = store.map@;
            assert forall|k: Seq<u8>| #[trigger] m1.contains_key(k) implies m1.contains_key(m1[k].p_hash@) by {
                if k != key@ {
                    assert(m0.contains_key(k));
                }
            }
            assert forall|k: Seq<u8>| #[trigger] m1.contains_key(k) implies (k == zero_seq() || is_derived(k)) by {
                if k != key@ {
                    assert(m0.contains_key(k));
                }
            }
        }
        Ok(key)
    }

    /// Registers the child labelled `leaf_hash` under `parent_hash`, owned by
    /// `owner` and resolving to `res_addr`, and returns its digest.
    pub fn register(
        env: &soroban_sdk::Env,
        store: &mut Storage,
        caller: Identity,
        parent_hash: Digest,
        leaf_hash: Digest,
        owner: Identity,
        res_addr: Identity,
    ) -> (r: Result<Digest, Error>)
        requires
            old(store).wf(),
            old(store)@ is Some,
        ensures
            final(store).wf(),
            match register_check(old(store)@->Some_0, caller@, parent_hash@) {
                Ok(_) => exists|key: Digest|
                    key@ == derive_spec(parent_hash@, leaf_hash@) && r == Ok::<Digest, Error>(key)
                        && final(store)@ == Some(register_map(old(store)@->Some_0, parent_hash, key, owner, res_addr)),
                Err(e) => r == Err::<Digest, Error>(e) && final(store)@ == old(store)@,
            },
    {
        let key = crate::digest::derive(env, &parent_hash, &leaf_hash);
        assert(is_derived(key@)) by {
            assert(parent_hash@.len() == 32 && leaf_hash@.len() == 32);
        }
        Self::register_at(store, caller, parent_hash, key, owner, res_addr)
    }
}

/// A node registered under `parent` resolves to the target it was
/// registered with: when registration is allowed, resolving the derived key
/// in the updated registry returns `target`.
pub proof fn lemma_register_then_resolve(
    m: Map<Seq<u8>, Node>,
    caller: Identity,
    parent: Digest,
    leaf: Digest,
    key: Digest,
    owner: Identity,
    target: Identity,
)
    requires
        register_check(m, caller@, parent@) is Ok,
        key@ == derive_spec(parent@, leaf@),
    ensures
        resolve_spec(register_map(m, parent, key, owner, target), derive_spec(parent@, leaf@)) == Ok::<Identity, Error>(target),
{
    assert(key@.len() == 32);
}

/// Registering under a parent that is not in the registry fails with
/// `ParentNotFound`, whoever the caller is.
pub proof fn lemma_absent_parent(m: Map<Seq<u8>, Node>, caller: Identity, parent: Digest)
    requires
        !m.contains_key(parent@),
    ensures
        register_check(m, caller@, parent@) == Err::<(), Error>(Error::ParentNotFound),
{
}

/// When `caller` owns no node of the ancestor chain that starts at `key`,
/// the authorization walk refuses it, whatever its bound.
pub proof fn lemma_unowned_chain(m: Map<Seq<u8>, Node>, key: Seq<u8>, caller: Seq<u8>, fuel: nat)
    requires
        forall|i: nat| (#[trigger] ancestor(m, key, i)) matches Some(k) ==> (m.contains_key(k) ==> m[k].owner@ != caller),
    ensures
        !authorized(m, key, caller, fuel),
    decreases fuel,
{
    assert(ancestor(m, key, 0) == Some(key));
    if fuel > 0 && m.contains_key(key) && key != zero_seq() {
        let p = m[key].p_hash@;
        assert forall|i: nat| (#[trigger] ancestor(m, p, i)) matches Some(k) ==> (m.contains_key(k) ==> m[k].owner@ != caller) by {
            assert(ancestor(m, key, i + 1) == ancestor(m, p, i));
        }
        lemma_unowned_chain(m, p, caller, (fuel - 1) as nat);
    }
}

/// Registering under an existing parent fails with `NotAuthorized` when
/// the caller owns neither the parent nor any of its ancestors.
pub proof fn lemma_unowned_parent(m: Map<Seq<u8>, Node>, caller: Identity, parent: Digest)
    requires
        m.contains_key(parent@),
        forall|i: nat| (#[trigger] ancestor(m, parent@, i)) matches Some(k) ==> (m.contains_key(k) ==> m[k].owner@ != caller@),
    ensures
        register_check(m, caller@, parent@) == Err::<(), Error>(Error::NotAuthorized),
{
    lemma_unowned_chain(m, parent@, caller@, MAX_DEPTH as nat);
}

/// Resolving the empty query fails with `InvalidHashInput`.
pub proof fn lemma_empty_query(m: Map<Seq<u8>, Node>)
    ensures
        resolve_spec(m, Seq::<u8>::empty()) == Err::<Identity, Error>(Error::InvalidHashInput),
{
}

/// In a well-formed registry, resolving a digest that is neither the zero
/// sentinel nor derived from any parent and leaf fails with `NotFound`.
pub proof fn lemma_underived_not_found(m: Map<Seq<u8>, Node>, q: Digest)
    requires
        registry_wf(m),
        q@ != zero_seq(),
        !is_derived(q@),
    ensures
        resolve_spec(m, q@) == Err::<Identity, Error>(Error::NotFound),
{
    assert(q@.len() == 32);
}

/// Initialization succeeds once: on a created registry it fails and leaves
/// the storage as it was.
pub proof fn lemma_init_once(first: Identity, second: Identity)
    ensures
        init_result(None) == Ok::<(), AlreadyInitialized>(()),
        init_result(init_state(None, first)) == Err::<(), AlreadyInitialized>(AlreadyInitialized),
        init_state(init_state(None, first), second) == init_state(None, first),
{
}

} // verus!
