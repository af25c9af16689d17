//! Digests, identities, and the derivation of child digests.

use vstd::prelude::*;

verus! {

/// A 32-byte node key, label digest or hash output.
pub type Digest = [u8; 32];

/// An opaque caller or target identity, compared for equality only.
pub type Identity = [u8; 32];

/// The all-zero digest, the root's key and the "no parent" sentinel, as a
/// sequence of bytes.
pub open spec fn zero_seq() -> Seq<u8> {
    Seq::new(32, |_i: int| 0u8)
}

/// The host environment, through which the hash primitive is reached.
#[verifier::external_type_specification]
#[verifier::external_body]
pub struct ExEnv(soroban_sdk::Env);

/// What the host's SHA-256 primitive returns on the given bytes.
pub uninterp spec fn sha256_of(b: Seq<u8>) -> Seq<u8>;

/// Relies on soroban_sdk's `Crypto::sha256` (through `Bytes::from_slice` and
/// `Hash::to_array`): the SHA-256 digest of the bytes, which depends on the
/// bytes alone. The host aborts the call only when its resource budget is
/// spent, which no argument decides.
#[verifier::external_body]
fn sha256(env: &soroban_sdk::Env, bytes: &Vec<u8>) -> (r: Digest)
    ensures
        r@ == sha256_of(bytes@),
{
    let data = soroban_sdk::Bytes::from_slice(env, bytes.as_slice());
    env.crypto().sha256(&data).to_array()
}

/// The digest of a child: the hash of the leaf digest followed by the
/// parent digest.
pub open spec fn derive_spec(parent: Seq<u8>, leaf: Seq<u8>) -> Seq<u8> {
    sha256_of(leaf + parent)
}

/// Holds when `d` is the digest of some child under some parent.
pub open spec fn is_derived(d: Seq<u8>) -> bool {
    exists|p: Seq<u8>, l: Seq<u8>| p.len() == 32 && l.len() == 32 && d == #[trigger] derive_spec(p, l)
}

/// Whether two byte strings are equal.
pub fn bytes_eq(a: &[u8], b: &[u8]) -> (r: bool)
    ensures
        r == (a@ == b@),
{
    if a.len() != b.len() {
        return false;
    }
    let mut i: usize = 0;
    while i < a.len()
        invariant
            a@.len() == b@.len(),
            i <= a@.len(),
            forall|j: int| 0 <= j < i ==> a@[j] == b@[j],
        decreases a@.len() - i,
    {
        if a[i] != b[i] {
            return false;
        }
        i = i + 1;
    }
    assert(a@ =~= b@);
    true
}

/// Whether `d` is the all-zero sentinel.
pub fn is_zero(d: &Digest) -> (r: bool)
    ensures
        r == (d@ == zero_seq()),
{
    let mut i: usize = 0;
    while i < 32
        invariant
            i <= 32,
            d@.len() == 32,
            forall|j: int| 0 <= j < i ==> d@[j] == 0u8,
        decreases 32 - i,
    {
        if d[i] != 0u8 {
            assert(d@[i as int] != zero_seq()[i as int]);
            return false;
        }
        i = i + 1;
    }
    assert(d@ =~= zero_seq());
    true
}

/// The bytes of `first` followed by the bytes of `second`.
pub fn join_digests(first: &Digest, second: &Digest) -> (r: Vec<u8>)
    ensures
        r@ == first@ + second@,
{
    let mut out: Vec<u8> = Vec::new();
    let mut i: usize = 0;
    while i < 32
        invariant
            i <= 32,
            first@.len() == 32,
            out@ == first@.subrange(0, i as int),
        decreases 32 - i,
    {
        out.push(first[i]);
        i = i + 1;
    }
    let mut j: usize = 0;
    while j < 32
        invariant
            j <= 32,
            first@.len() == 32,
            second@.len() == 32,
            out@ == first@ + second@.subrange(0, j as int),
        decreases 32 - j,
    {
        out.push(second[j]);
        j = j + 1;
    }
    assert(first@.subrange(0, 32) =~= first@);
    assert(second@.subrange(0, 32) =~= second@);
    out
}

/// The digest of the child labelled `leaf` under `parent`.
pub fn derive(env: &soroban_sdk::Env, parent: &Digest, leaf: &Digest) -> (r: Digest)
    ensures
        r@ == derive_spec(parent@, leaf@),
{
    let bytes = join_digests(leaf, parent);
    sha256(env, &bytes)
}

} // verus!
