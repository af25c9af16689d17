use name_registry::contract::{AlreadyInitialized, Contract, DataKey, Error, Storage};
use name_registry::digest::{bytes_eq, join_digests, is_zero, Digest, Identity};
use soroban_sdk::testutils::EnvTestConfig;
use soroban_sdk::{Bytes, Env};

fn env() -> Env {
    Env::new_with_config(EnvTestConfig { capture_snapshot_at_drop: false })
}

fn label(env: &Env, s: &str) -> Digest {
    env.crypto().sha256(&Bytes::from_slice(env, s.as_bytes())).to_array()
}

fn id(n: u8) -> Identity {
    let mut a = [0u8; 32];
    a[0] = n;
    a[31] = 0xaa;
    a
}

fn initialized(owner: Identity) -> Storage {
    let mut store = Storage::new();
    assert_eq!(Contract::init(&mut store, owner), Ok(()));
    store
}

#[test]
fn scenario_hierarchy_and_ancestor_authorization() {
    let env = env();
    let (i, owner_a, addr_a, addr_b, owner_c, addr_c, stranger) =
        (id(1), id(2), id(3), id(4), id(5), id(6), id(7));
    let mut store = initialized(i);
    let zero = [0u8; 32];

    let k1 = Contract::register(&env, &mut store, i, zero, label(&env, "com"), owner_a, addr_a).unwrap();
    assert_eq!(k1, name_registry::digest::derive(&env, &zero, &label(&env, "com")));
    assert_eq!(Contract::resolve(&store, &k1), Ok(addr_a));

    let k2 = Contract::register(&env, &mut store, owner_a, k1, label(&env, "example"), owner_a, addr_b).unwrap();
    assert_eq!(Contract::resolve(&store, &k2), Ok(addr_b));

    let k3 = Contract::register(&env, &mut store, i, k1, label(&env, "mail"), owner_c, addr_c).unwrap();
    assert_eq!(Contract::resolve(&store, &k3), Ok(addr_c));

    let r = Contract::register(&env, &mut store, stranger, k1, label(&env, "www"), id(8), id(9));
    assert_eq!(r, Err(Error::NotAuthorized));
    let www = name_registry::digest::derive(&env, &k1, &label(&env, "www"));
    assert_eq!(Contract::resolve(&store, &www), Err(Error::NotFound));
}

#[test]
fn register_then_resolve_returns_target() {
    let env = env();
    let mut store = initialized(id(1));
    let zero = [0u8; 32];
    let leaf = label(&env, "org");
    let key = Contract::register(&env, &mut store, id(1), zero, leaf, id(2), id(3)).unwrap();
    let derived = name_registry::digest::derive(&env, &zero, &leaf);
    assert_eq!(key, derived);
    assert_eq!(Contract::resolve(&store, &derived), Ok(id(3)));
}

#[test]
fn register_absent_parent_fails() {
    let env = env();
    let mut store = initialized(id(1));
    let missing = label(&env, "nowhere");
    let leaf = label(&env, "leaf");
    for caller in [id(1), id(2)] {
        let r = Contract::register(&env, &mut store, caller, missing, leaf, id(1), id(3));
        assert_eq!(r, Err(Error::ParentNotFound));
    }
    let key = name_registry::digest::derive(&env, &missing, &leaf);
    assert_eq!(Contract::resolve(&store, &key), Err(Error::NotFound));
}

#[test]
fn register_by_unrelated_caller_fails() {
    let env = env();
    let mut store = initialized(id(1));
    let zero = [0u8; 32];
    let k1 = Contract::register(&env, &mut store, id(1), zero, label(&env, "net"), id(2), id(3)).unwrap();
    let k2 = Contract::register(&env, &mut store, id(2), k1, label(&env, "a"), id(4), id(5)).unwrap();
    assert_eq!(
        Contract::register(&env, &mut store, id(9), k2, label(&env, "b"), id(9), id(9)),
        Err(Error::NotAuthorized)
    );
    assert_eq!(
        Contract::register(&env, &mut store, id(9), zero, label(&env, "b"), id(9), id(9)),
        Err(Error::NotAuthorized)
    );
    // The owner of a child holds no authority over its parent.
    assert_eq!(
        Contract::register(&env, &mut store, id(4), k1, label(&env, "c"), id(4), id(4)),
        Err(Error::NotAuthorized)
    );
    // Every ancestor owner does.
    assert!(Contract::register(&env, &mut store, id(1), k2, label(&env, "d"), id(6), id(6)).is_ok());
    assert!(Contract::register(&env, &mut store, id(2), k2, label(&env, "e"), id(6), id(6)).is_ok());
    assert!(Contract::register(&env, &mut store, id(4), k2, label(&env, "f"), id(6), id(6)).is_ok());
}

#[test]
fn resolve_empty_query_is_invalid() {
    let store = initialized(id(1));
    let empty: [u8; 0] = [];
    assert_eq!(Contract::resolve(&store, &empty), Err(Error::InvalidHashInput));
}

#[test]
fn resolve_unknown_digest_not_found() {
    let env = env();
    let store = initialized(id(1));
    assert_eq!(Contract::resolve(&store, &[7u8; 32]), Err(Error::NotFound));
    assert_eq!(Contract::resolve(&store, &label(&env, "com")), Err(Error::NotFound));
    assert_eq!(Contract::resolve(&store, &[0u8; 5]), Err(Error::NotFound));
}

#[test]
fn resolve_zero_digest_gives_root_target() {
    let store = initialized(id(4));
    assert_eq!(Contract::resolve(&store, &[0u8; 32]), Ok(id(4)));
}

#[test]
fn init_twice_fails_and_keeps_state() {
    let env = env();
    let mut store = Storage::new();
    assert!(!store.has(DataKey::RMap));
    assert_eq!(Contract::init(&mut store, id(1)), Ok(()));
    assert!(store.has(DataKey::RMap));
    let k = Contract::register(&env, &mut store, id(1), [0u8; 32], label(&env, "io"), id(2), id(3)).unwrap();
    assert_eq!(Contract::init(&mut store, id(5)), Err(AlreadyInitialized));
    assert_eq!(Contract::resolve(&store, &[0u8; 32]), Ok(id(1)));
    assert_eq!(Contract::resolve(&store, &k), Ok(id(3)));
    assert_eq!(
        Contract::register(&env, &mut store, id(5), [0u8; 32], label(&env, "x"), id(5), id(5)),
        Err(Error::NotAuthorized)
    );
}

#[test]
fn reregistration_overwrites() {
    let env = env();
    let mut store = initialized(id(1));
    let zero = [0u8; 32];
    let k = Contract::register(&env, &mut store, id(1), zero, label(&env, "dev"), id(2), id(3)).unwrap();
    let k_again = Contract::register(&env, &mut store, id(1), zero, label(&env, "dev"), id(4), id(5)).unwrap();
    assert_eq!(k, k_again);
    assert_eq!(Contract::resolve(&store, &k), Ok(id(5)));
    // The old owner lost authority over the node.
    assert_eq!(
        Contract::register(&env, &mut store, id(2), k, label(&env, "x"), id(2), id(2)),
        Err(Error::NotAuthorized)
    );
}

#[test]
fn error_codes_are_stable() {
    assert_eq!(Error::InvalidHashInput.code(), 1);
    assert_eq!(Error::NotFound.code(), 2);
    assert_eq!(Error::ParentNotFound.code(), 3);
    assert_eq!(Error::NotAuthorized.code(), 4);
}

#[test]
fn derive_hashes_leaf_then_parent() {
    let env = env();
    let parent = label(&env, "com");
    let leaf = label(&env, "example");
    let got = name_registry::digest::derive(&env, &parent, &leaf);
    let mut joined = leaf.to_vec();
    joined.extend_from_slice(&parent);
    let expected: Digest = env.crypto().sha256(&Bytes::from_slice(&env, &joined)).to_array();
    assert_eq!(got, expected);
    assert_ne!(got, name_registry::digest::derive(&env, &leaf, &parent));
    assert_ne!(got, parent);
    assert_ne!(got, leaf);
}

#[test]
fn derive_known_value() {
    // SHA-256 of 64 zero bytes.
    let env = env();
    let d = name_registry::digest::derive(&env, &[0u8; 32], &[0u8; 32]);
    let expected: [u8; 32] = [
        0xf5, 0xa5, 0xfd, 0x42, 0xd1, 0x6a, 0x20, 0x30, 0x27, 0x98, 0xef, 0x6e, 0xd3, 0x09, 0x97, 0x9b,
        0x43, 0x00, 0x3d, 0x23, 0x20, 0xd9, 0xf0, 0xe8, 0xea, 0x98, 0x31, 0xa9, 0x27, 0x59, 0xfb, 0x4b,
    ];
    assert_eq!(d, expected);
}

#[test]
fn byte_helpers() {
    assert!(bytes_eq(&[1, 2, 3], &[1, 2, 3]));
    assert!(!bytes_eq(&[1, 2, 3], &[1, 2, 4]));
    assert!(!bytes_eq(&[1, 2], &[1, 2, 3]));
    assert!(bytes_eq(&[], &[]));
    assert!(is_zero(&[0u8; 32]));
    let mut d = [0u8; 32];
    d[31] = 1;
    assert!(!is_zero(&d));
    let c = join_digests(&[1u8; 32], &[2u8; 32]);
    assert_eq!(c.len(), 64);
    assert!(c[..32].iter().all(|b| *b == 1));
    assert!(c[32..].iter().all(|b| *b == 2));
}
