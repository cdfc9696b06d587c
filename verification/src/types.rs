//! Plain value types of the anchoring domain: 32-byte hashes, transaction
//! ids, compressed public keys and base58check address payloads. Each type
//! wraps raw bytes, views as a `Seq<u8>`, and carries a well-formedness
//! predicate fixing its length.

use vstd::prelude::*;

verus! {

/// Byte-for-byte equality of two byte vectors.
pub fn bytes_eq(a: &Vec<u8>, b: &Vec<u8>) -> (r: bool)
    ensures
        r == (a@ == b@),
{
    if a.len() != b.len() {
        return false;
    }
    let mut i: usize = 0;
    while i < a.len()
        invariant
            i <= a.len(),
            a.len() == b.len(),
            forall|j: int| 0 <= j < i ==> a@[j] == b@[j],
        decreases a.len() - i,
    {
        if a[i] != b[i] {
            return false;
        }
        i += 1;
    }
    proof {
        assert(a@ =~= b@);
    }
    true
}

/// Exact copy of a byte vector.
pub fn bytes_dup(a: &Vec<u8>) -> (r: Vec<u8>)
    ensures
        r@ == a@,
{
    let mut out: Vec<u8> = Vec::new();
    let mut i: usize = 0;
    while i < a.len()
        invariant
            i <= a.len(),
            out@ == a@.subrange(0, i as int),
        decreases a.len() - i,
    {
        out.push(a[i]);
        proof {
            assert(out@ =~= a@.subrange(0, i + 1));
        }
        i += 1;
    }
    proof {
        assert(a@.subrange(0, a@.len() as int) =~= a@);
    }
    out
}

/// The all-zero 32-byte hash: the sentinel origin of a genesis lect.
pub open spec fn zero_hash() -> Seq<u8> {
    Seq::new(32, |i: int| 0u8)
}

/// A 32-byte hash value, as the host ledger's message hashes use it.
pub struct Hash256 {
    pub bytes: Vec<u8>,
}

impl View for Hash256 {
    type V = Seq<u8>;

    open spec fn view(&self) -> Seq<u8> {
        self.bytes@
    }
}

impl Hash256 {
    pub open spec fn wf(&self) -> bool {
        self.bytes@.len() == 32
    }

    pub fn new(bytes: Vec<u8>) -> (r: Hash256)
        requires
            bytes@.len() == 32,
        ensures
            r@ == bytes@,
            r.wf(),
    {
        Hash256 { bytes }
    }

    /// The zero sentinel hash that backs a lect with no real origin message.
    pub fn zero() -> (r: Hash256)
        ensures
            r.wf(),
            r@ == zero_hash(),
    {
        let mut bytes: Vec<u8> = Vec::new();
        let mut i: usize = 0;
        while i < 32
            invariant
                i <= 32,
                bytes@.len() == i,
                forall|j: int| 0 <= j < i ==> bytes@[j] == 0u8,
            decreases 32 - i,
        {
            bytes.push(0u8);
            i += 1;
        }
        proof {
            assert(bytes@ =~= zero_hash());
        }
        Hash256 { bytes }
    }

    pub fn duplicate(&self) -> (r: Hash256)
        ensures
            r@ == self@,
    {
        Hash256 { bytes: bytes_dup(&self.bytes) }
    }

    pub fn same_as(&self, other: &Hash256) -> (r: bool)
        ensures
            r == (self@ == other@),
    {
        bytes_eq(&self.bytes, &other.bytes)
    }
}

/// A Bitcoin transaction id: the double-SHA256 digest of the transaction's
/// serialized form.
pub struct TxId {
    pub bytes: Vec<u8>,
}

impl View for TxId {
    type V = Seq<u8>;

    open spec fn view(&self) -> Seq<u8> {
        self.bytes@
    }
}

impl TxId {
    pub open spec fn wf(&self) -> bool {
        self.bytes@.len() == 32
    }

    pub fn new(bytes: Vec<u8>) -> (r: TxId)
        requires
            bytes@.len() == 32,
        ensures
            r@ == bytes@,
            r.wf(),
    {
        TxId { bytes }
    }

    pub fn duplicate(&self) -> (r: TxId)
        ensures
            r@ == self@,
    {
        TxId { bytes: bytes_dup(&self.bytes) }
    }

    pub fn same_as(&self, other: &TxId) -> (r: bool)
        ensures
            r == (self@ == other@),
    {
        bytes_eq(&self.bytes, &other.bytes)
    }
}

/// A validator's compressed secp256k1 public key (33 bytes).
pub struct PublicKey {
    pub bytes: Vec<u8>,
}

impl View for PublicKey {
    type V = Seq<u8>;

    open spec fn view(&self) -> Seq<u8> {
        self.bytes@
    }
}

impl PublicKey {
    pub open spec fn wf(&self) -> bool {
        self.bytes@.len() == 33
    }

    pub fn new(bytes: Vec<u8>) -> (r: PublicKey)
        requires
            bytes@.len() == 33,
        ensures
            r@ == bytes@,
            r.wf(),
    {
        PublicKey { bytes }
    }

    pub fn duplicate(&self) -> (r: PublicKey)
        ensures
            r@ == self@,
    {
        PublicKey { bytes: bytes_dup(&self.bytes) }
    }

    pub fn same_as(&self, other: &PublicKey) -> (r: bool)
        ensures
            r == (self@ == other@),
    {
        bytes_eq(&self.bytes, &other.bytes)
    }
}

/// A pay-to-script-hash address: one version byte followed by the 20-byte
/// hash160 of the redeem script. The base58check form shown to operators is
/// derived from this payload.
pub struct Address {
    pub payload: Vec<u8>,
}

impl View for Address {
    type V = Seq<u8>;

    open spec fn view(&self) -> Seq<u8> {
        self.payload@
    }
}

impl Address {
    pub open spec fn wf(&self) -> bool {
        self.payload@.len() == 21
    }

    pub fn new(payload: Vec<u8>) -> (r: Address)
        requires
            payload@.len() == 21,
        ensures
            r@ == payload@,
            r.wf(),
    {
        Address { payload }
    }

    pub fn duplicate(&self) -> (r: Address)
        ensures
            r@ == self@,
    {
        Address { payload: bytes_dup(&self.payload) }
    }

    pub fn same_as(&self, other: &Address) -> (r: bool)
        ensures
            r == (self@ == other@),
    {
        bytes_eq(&self.payload, &other.payload)
    }

    /// The base58check rendering of the address, as operators and the
    /// Bitcoin network spell it.
    pub fn to_base58check(&self) -> (r: String)
        ensures
            r@ == crate::digest::base58check_of(self@),
    {
        crate::digest::base58check(&self.payload)
    }
}

} // verus!
