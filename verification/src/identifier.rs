use vstd::prelude::*;

verus! {

/// The digest that SHA-256 assigns to a byte sequence; a function of the
/// bytes alone, the same in every process and on every machine.
pub uninterp spec fn sha256_of(bytes: Seq<u8>) -> Seq<u8>;

/// Relies on sha2::Sha256 through the digest traits: the SHA-256 digest is a
/// pure, deterministic 32-byte function of the input bytes.
#[verifier::external_body]
fn sha256(bytes: &[u8]) -> (r: [u8; 32])
    ensures
        r@ == sha256_of(bytes@),
{
    let digest = <sha2::Sha256 as sha2::Digest>::digest(bytes);
    let mut out = [0u8; 32];
    out.copy_from_slice(&digest);
    out
}

/// Derives the canonical identity key from public-key bytes: a fixed-size
/// digest, recomputed by the server on every authentication and never
/// accepted from the wire.
pub fn fingerprint(public_key: &[u8]) -> (r: [u8; 32])
    ensures
        r@ == sha256_of(public_key@),
{
    sha256(public_key)
}

/// Fingerprint determinism: equal key bytes always yield equal fingerprints,
/// in one process or across restarts, because the digest is a function of the
/// bytes alone.
pub proof fn lemma_fingerprint_deterministic(k1: Seq<u8>, k2: Seq<u8>)
    requires
        k1 == k2,
    ensures
        sha256_of(k1) == sha256_of(k2),
{
}

/// The mathematical content of an `Identifier`.
pub struct IdentifierView {
    pub username: Seq<char>,
    pub fingerprint: Seq<u8>,
    pub public_key: Seq<u8>,
}

impl IdentifierView {
    /// The fingerprint is always derived from the public key, never taken
    /// in from outside.
    pub open spec fn derived(self) -> bool {
        self.fingerprint == sha256_of(self.public_key)
    }
}

/// Represents a unique user identity.
pub struct Identifier {
    /// The username associated with this identity.
    pub username: String,
    /// 256-bit identifier derived from the public key.
    pub fingerprint: [u8; 32],
    /// DER-encoded RSA public key bytes for transport and verification.
    pub public_key: Vec<u8>,
}

impl View for Identifier {
    type V = IdentifierView;

    open spec fn view(&self) -> IdentifierView {
        IdentifierView {
            username: self.username@,
            fingerprint: self.fingerprint@,
            public_key: self.public_key@,
        }
    }
}

impl DeepView for Identifier {
    type V = IdentifierView;

    open spec fn deep_view(&self) -> IdentifierView {
        self.view()
    }
}

impl Clone for Identifier {
    fn clone(&self) -> (res: Self)
        ensures
            res@ == self@,
    {
        Identifier {
            username: self.username.clone(),
            fingerprint: self.fingerprint,
            public_key: vstd::slice::slice_to_vec(self.public_key.as_slice()),
        }
    }
}

/// Compares two fingerprints byte for byte.
pub fn fingerprint_eq(a: &[u8; 32], b: &[u8; 32]) -> (r: bool)
    ensures
        r == (a@ == b@),
{
    let mut i: usize = 0;
    while i < 32
        invariant
            i <= 32,
            forall|j: int| 0 <= j < i ==> a@[j] == b@[j],
        decreases 32 - i,
    {
        if a[i] != b[i] {
            return false;
        }
        i += 1;
    }
    proof {
        assert(a@ =~= b@);
    }
    true
}

} // verus!
