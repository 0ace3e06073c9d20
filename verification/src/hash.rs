//! SHA-256 through the `sha2` crate.
//!
//! The digest itself is not restated here: its value is named by
//! [`sha256_of`], and everything the library proves about hashes is proved
//! over that name.
use sha2::Digest;
use vstd::prelude::*;

verus! {

/// A running SHA-256 computation (`sha2::Sha256`).
///
/// `sha2::Sha256` is a type alias over generic wrappers that Verus cannot
/// declare, so the hasher is held in a field hidden from Verus. What the
/// library needs of it is named by [`hasher_input`].
#[verifier::external_body]
pub struct Hasher {
    inner: sha2::Sha256,
}

/// The bytes a hasher has absorbed so far, in order.
pub uninterp spec fn hasher_input(h: Hasher) -> Seq<u8>;

/// The SHA-256 digest of a byte sequence (32 bytes).
pub uninterp spec fn sha256_of(data: Seq<u8>) -> Seq<u8>;

/// `Sha256::new`: a hasher that has absorbed nothing.
#[verifier::external_body]
pub(crate) fn hasher_new() -> (r: Hasher)
    ensures
        hasher_input(r) == Seq::<u8>::empty(),
{
    Hasher { inner: sha2::Sha256::new() }
}

/// `Sha256::update` on `data[from..to]`: those bytes are appended to what
/// the hasher has absorbed.
#[verifier::external_body]
pub(crate) fn hasher_update(h: &mut Hasher, data: &[u8], from: usize, to: usize)
    requires
        from <= to <= data@.len(),
    ensures
        hasher_input(*final(h)) == hasher_input(*old(h)) + data@.subrange(from as int, to as int),
{
    h.inner.update(&data[from..to]);
}

/// `Sha256::finalize`: the digest of everything absorbed.
#[verifier::external_body]
pub(crate) fn hasher_finish(h: Hasher) -> (r: [u8; 32])
    ensures
        r@ == sha256_of(hasher_input(h)),
{
    h.inner.finalize().into()
}

/// The digest of `data[from..to]`.
pub fn sha256(data: &[u8], from: usize, to: usize) -> (r: [u8; 32])
    requires
        from <= to <= data@.len(),
    ensures
        r@ == sha256_of(data@.subrange(from as int, to as int)),
{
    let mut h = hasher_new();
    hasher_update(&mut h, data, from, to);
    proof {
        assert(Seq::<u8>::empty() + data@.subrange(from as int, to as int) =~= data@.subrange(
            from as int,
            to as int,
        ));
    }
    hasher_finish(h)
}

/// Whether two digests are equal.
pub fn same_digest(a: &[u8; 32], b: &[u8; 32]) -> (r: bool)
    ensures
        r == (a@ == b@),
{
    let mut i: usize = 0;
    while i < 32
        invariant
            i <= 32,
            a@.len() == 32,
            b@.len() == 32,
            forall|k: int| 0 <= k < i ==> a@[k] == b@[k],
        decreases 32 - i,
    {
        if a[i] != b[i] {
            return false;
        }
        i += 1;
    }
    proof {
        assert(a@ =~= b@);
    }
    true
}

} // verus!
