use vstd::prelude::*;
use multihash_codetable::MultihashDigest;

verus! {

/// A content identifier, held in its binary form (version, codec and
/// multihash, as the CID specification lays them out).
#[derive(Debug)]
pub struct Cid {
    bytes: Vec<u8>,
}

impl View for Cid {
    type V = Seq<u8>;

    closed spec fn view(&self) -> Seq<u8> {
        self.bytes@
    }
}

impl Clone for Cid {
    fn clone(&self) -> (r: Cid)
        ensures
            r@ == self@,
    {
        Cid { bytes: self.bytes.clone() }
    }
}

impl PartialEq for Cid {
    fn eq(&self, other: &Cid) -> (r: bool) {
        self.same(other)
    }
}

impl vstd::std_specs::cmp::PartialEqSpecImpl for Cid {
    open spec fn obeys_eq_spec() -> bool {
        true
    }

    open spec fn eq_spec(&self, other: &Cid) -> bool {
        self@ == other@
    }
}

impl Cid {
    /// Wraps the binary form of a CID. The bytes are checked where they are
    /// read: by the digest check and when the CID is written as text.
    pub fn from_bytes(bytes: Vec<u8>) -> (r: Cid)
        ensures
            r@ == bytes@,
    {
        Cid { bytes }
    }

    pub fn as_bytes(&self) -> (r: &[u8])
        ensures
            r@ == self@,
    {
        self.bytes.as_slice()
    }

    pub fn len(&self) -> (r: usize)
        ensures
            r == self@.len(),
    {
        self.bytes.len()
    }

    /// Whether two identifiers are the same, byte for byte.
    pub fn same(&self, other: &Cid) -> (r: bool)
        ensures
            r == (self@ == other@),
    {
        bytes_equal(self.bytes.as_slice(), other.bytes.as_slice())
    }

    /// The CID as version-1 text in lower-case base32, as gateways expect it
    /// in a URL; `None` where the bytes are no CID.
    pub fn to_base32_v1(&self) -> (r: Option<String>)
        ensures
            r is Some <==> v1_base32_text(self@) is Some,
            r is Some ==> r->0@ == v1_base32_text(self@)->0,
    {
        read_v1_base32(self.bytes.as_slice())
    }
}

/// Byte-wise equality of two slices.
pub fn bytes_equal(a: &[u8], b: &[u8]) -> (r: bool)
    ensures
        r == (a@ == b@),
{
    if a.len() != b.len() {
        return false;
    }
    let mut i: usize = 0;
    while i < a.len()
        invariant
            a@.len() == b@.len(),
            0 <= i <= a@.len(),
            forall|j: int| 0 <= j < i ==> a@[j] == b@[j],
        decreases a@.len() - i,
    {
        if a[i] != b[i] {
            return false;
        }
        i = i + 1;
    }
    assert(a@ =~= b@);
    true
}

/// The version-1 text of a binary CID in lower-case base32 (multibase
/// prefix `b`), or `None` where the bytes do not read as a CID.
pub uninterp spec fn v1_base32_text(cid: Seq<u8>) -> Option<Seq<char>>;

/// The multihash (hash function code and digest) that a binary CID names,
/// or `None` where the bytes do not read as a CID.
pub uninterp spec fn multihash_of(cid: Seq<u8>) -> Option<(u64, Seq<u8>)>;

/// The digest of `data` under the hash function with the given multihash
/// code, or `None` where the code names no known hash function.
pub uninterp spec fn digest_with(code: u64, data: Seq<u8>) -> Option<Seq<u8>>;

/// Relies on `cid::Cid::try_from(&[u8])` to read the binary form, then
/// `Cid::into_v1` and `Cid::to_string_of_base(Base::Base32Lower)` to write it.
#[verifier::external_body]
fn read_v1_base32(bytes: &[u8]) -> (r: Option<String>)
    ensures
        r is Some <==> v1_base32_text(bytes@) is Some,
        r is Some ==> r->0@ == v1_base32_text(bytes@)->0,
{
    let parsed = ::cid::Cid::try_from(bytes).ok()?;
    parsed.into_v1().ok()?.to_string_of_base(::cid::multibase::Base::Base32Lower).ok()
}

/// Relies on `cid::Cid::try_from(&[u8])` and `Cid::hash`: the hash code and
/// digest of the multihash inside a binary CID.
#[verifier::external_body]
fn read_multihash(bytes: &[u8]) -> (r: Option<(u64, Vec<u8>)>)
    ensures
        match r {
            Some((code, digest)) => multihash_of(bytes@) == Some((code, digest@)),
            None => multihash_of(bytes@) is None,
        },
{
    match ::cid::Cid::try_from(bytes) {
        Ok(c) => Some((c.hash().code(), c.hash().digest().to_vec())),
        Err(_) => None,
    }
}

/// Relies on `multihash_codetable::Code::try_from(u64)` to find the hash
/// function of a code and `MultihashDigest::digest` to hash with it.
#[verifier::external_body]
fn compute_digest(code: u64, data: &[u8]) -> (r: Option<Vec<u8>>)
    ensures
        r is Some <==> digest_with(code, data@) is Some,
        r is Some ==> r->0@ == digest_with(code, data@)->0,
{
    match multihash_codetable::Code::try_from(code) {
        Ok(hasher) => Some(hasher.digest(data).digest().to_vec()),
        Err(_) => None,
    }
}

/// Whether `data` hashes to the digest that `cid` names: `None` where the
/// CID cannot be read or its hash function is unknown.
pub open spec fn hash_matches(cid: Seq<u8>, data: Seq<u8>) -> Option<bool> {
    match multihash_of(cid) {
        None => None,
        Some((code, digest)) => match digest_with(code, data) {
            None => None,
            Some(computed) => Some(computed == digest),
        },
    }
}

/// Recomputes the digest of `data` with the hash function that `cid` names
/// and compares it with the digest inside `cid`.
pub fn verify_hash(cid: &Cid, data: &[u8]) -> (r: Option<bool>)
    ensures
        r == hash_matches(cid@, data@),
{
    let (code, digest) = match read_multihash(cid.as_bytes()) {
        Some(parts) => parts,
        None => return None,
    };
    match compute_digest(code, data) {
        Some(computed) => Some(bytes_equal(computed.as_slice(), digest.as_slice())),
        None => None,
    }
}

} // verus!
