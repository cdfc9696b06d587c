//! Anchoring transactions and the messages that carry them. A transaction is
//! modelled by what the protocol reads of it: the outputs it spends, the
//! single anchoring output it creates (value and pay-to address), and the
//! embedded checkpoint (ledger height and block hash). Its id is the
//! double-SHA256 digest of a deterministic byte encoding, so identical
//! transactions built independently by different validators carry the same
//! id.

use vstd::prelude::*;

use crate::digest::{sha256d, sha256d_of};
use crate::types::{bytes_dup, bytes_eq, Address, Hash256, TxId};

verus! {

/// Big-endian encoding of a `u32` in four bytes.
pub open spec fn be32(x: u32) -> Seq<u8> {
    seq![
        (x / 0x1000000) as u8,
        ((x / 0x10000) % 256) as u8,
        ((x / 0x100) % 256) as u8,
        (x % 256) as u8,
    ]
}

/// Big-endian encoding of a `u64` in eight bytes.
pub open spec fn be64(x: u64) -> Seq<u8> {
    seq![
        (x / 0x100000000000000) as u8,
        ((x / 0x1000000000000) % 256) as u8,
        ((x / 0x10000000000) % 256) as u8,
        ((x / 0x100000000) % 256) as u8,
        ((x / 0x1000000) % 256) as u8,
        ((x / 0x10000) % 256) as u8,
        ((x / 0x100) % 256) as u8,
        (x % 256) as u8,
    ]
}

/// Appends the big-endian bytes of `x` to `out`.
pub fn push_be32(out: &mut Vec<u8>, x: u32)
    ensures
        final(out)@ == old(out)@ + be32(x),
{
    out.push((x / 0x1000000) as u8);
    out.push(((x / 0x10000) % 256) as u8);
    out.push(((x / 0x100) % 256) as u8);
    out.push((x % 256) as u8);
    proof {
        assert(out@ =~= old(out)@ + be32(x));
    }
}

/// Appends the big-endian bytes of `x` to `out`.
pub fn push_be64(out: &mut Vec<u8>, x: u64)
    ensures
        final(out)@ == old(out)@ + be64(x),
{
    out.push((x / 0x100000000000000) as u8);
    out.push(((x / 0x1000000000000) % 256) as u8);
    out.push(((x / 0x10000000000) % 256) as u8);
    out.push(((x / 0x100000000) % 256) as u8);
    out.push(((x / 0x1000000) % 256) as u8);
    out.push(((x / 0x10000) % 256) as u8);
    out.push(((x / 0x100) % 256) as u8);
    out.push((x % 256) as u8);
    proof {
        assert(out@ =~= old(out)@ + be64(x));
    }
}

/// Appends all of `b` to `out`.
pub fn push_bytes(out: &mut Vec<u8>, b: &Vec<u8>)
    ensures
        final(out)@ == old(out)@ + b@,
{
    let mut i: usize = 0;
    while i < b.len()
        invariant
            i <= b.len(),
            out@ == old(out)@ + b@.subrange(0, i as int),
        decreases b.len() - i,
    {
        out.push(b[i]);
        proof {
            assert(out@ =~= old(out)@ + b@.subrange(0, i + 1));
        }
        i += 1;
    }
    proof {
        assert(b@.subrange(0, b@.len() as int) =~= b@);
    }
}

/// One spent output: the id of the transaction it comes from and the output
/// position inside it.
pub struct TxInput {
    pub prev_txid: TxId,
    pub prev_vout: u32,
}

#[verifier::ext_equal]
pub struct TxInputV {
    pub prev_txid: Seq<u8>,
    pub prev_vout: u32,
}

impl View for TxInput {
    type V = TxInputV;

    open spec fn view(&self) -> TxInputV {
        TxInputV { prev_txid: self.prev_txid@, prev_vout: self.prev_vout }
    }
}

impl TxInput {
    pub fn new(prev_txid: TxId, prev_vout: u32) -> (r: TxInput)
        ensures
            r@ == (TxInputV { prev_txid: prev_txid@, prev_vout }),
    {
        TxInput { prev_txid, prev_vout }
    }

    pub fn duplicate(&self) -> (r: TxInput)
        ensures
            r@ == self@,
    {
        TxInput { prev_txid: self.prev_txid.duplicate(), prev_vout: self.prev_vout }
    }
}

/// The checkpoint a transaction anchors: a ledger height and the hash of the
/// ledger block at that height.
pub struct AnchoringPayload {
    pub block_height: u64,
    pub block_hash: Hash256,
}

#[verifier::ext_equal]
pub struct PayloadV {
    pub block_height: u64,
    pub block_hash: Seq<u8>,
}

impl View for AnchoringPayload {
    type V = PayloadV;

    open spec fn view(&self) -> PayloadV {
        PayloadV { block_height: self.block_height, block_hash: self.block_hash@ }
    }
}

impl AnchoringPayload {
    pub fn duplicate(&self) -> (r: AnchoringPayload)
        ensures
            r@ == self@,
    {
        AnchoringPayload {
            block_height: self.block_height,
            block_hash: self.block_hash.duplicate(),
        }
    }
}

/// An anchoring-chain transaction: the outputs it spends, the value and
/// address of its single anchoring output, and the embedded checkpoint.
pub struct BitcoinTx {
    pub inputs: Vec<TxInput>,
    pub output_value: u64,
    pub payout: Address,
    pub payload: AnchoringPayload,
}

#[verifier::ext_equal]
pub struct TxV {
    pub inputs: Seq<TxInputV>,
    pub output_value: u64,
    pub payout: Seq<u8>,
    pub payload: PayloadV,
}

impl View for BitcoinTx {
    type V = TxV;

    open spec fn view(&self) -> TxV {
        TxV {
            inputs: self.inputs@.map_values(|i: TxInput| i@),
            output_value: self.output_value,
            payout: self.payout@,
            payload: self.payload@,
        }
    }
}

pub open spec fn tx_wf(t: TxV) -> bool {
    &&& t.inputs.len() <= 0xffffffff
    &&& forall|i: int| 0 <= i < t.inputs.len() ==> (#[trigger] t.inputs[i]).prev_txid.len() == 32
    &&& t.payout.len() == 21
    &&& t.payload.block_hash.len() == 32
}

/// Encoding of one spent output.
pub open spec fn enc_input(i: TxInputV) -> Seq<u8> {
    i.prev_txid + be32(i.prev_vout)
}

/// Encoding of the spent outputs, in order.
pub open spec fn enc_inputs(s: Seq<TxInputV>) -> Seq<u8>
    decreases s.len(),
{
    if s.len() == 0 {
        Seq::empty()
    } else {
        enc_inputs(s.drop_last()) + enc_input(s.last())
    }
}

/// The deterministic byte form of a transaction: input count, inputs,
/// output value, payout address payload, checkpoint height and block hash.
pub open spec fn enc_tx(t: TxV) -> Seq<u8> {
    be32(t.inputs.len() as u32) + enc_inputs(t.inputs) + be64(t.output_value) + t.payout + be64(
        t.payload.block_height,
    ) + t.payload.block_hash
}

/// The id of a transaction: the double-SHA256 digest of its byte form.
pub open spec fn txid_of(t: TxV) -> Seq<u8> {
    sha256d_of(enc_tx(t))
}

impl BitcoinTx {
    pub open spec fn wf(&self) -> bool {
        tx_wf(self@)
    }

    /// Serializes the transaction into its deterministic byte form.
    pub fn encode(&self) -> (r: Vec<u8>)
        requires
            self.wf(),
        ensures
            r@ == enc_tx(self@),
    {
        let ghost v = self@;
        let mut out: Vec<u8> = Vec::new();
        push_be32(&mut out, self.inputs.len() as u32);
        let mut i: usize = 0;
        while i < self.inputs.len()
            invariant
                i <= self.inputs.len(),
                self.wf(),
                v == self@,
                out@ == be32(v.inputs.len() as u32) + enc_inputs(v.inputs.subrange(0, i as int)),
            decreases self.inputs.len() - i,
        {
            let inp = &self.inputs[i];
            push_bytes(&mut out, &inp.prev_txid.bytes);
            push_be32(&mut out, inp.prev_vout);
            proof {
                let pre = v.inputs.subrange(0, i as int);
                let post = v.inputs.subrange(0, i + 1);
                assert(post.drop_last() =~= pre);
                assert(post.last() == v.inputs[i as int]);
                assert(out@ =~= be32(v.inputs.len() as u32) + enc_inputs(post));
            }
            i += 1;
        }
        proof {
            assert(v.inputs.subrange(0, v.inputs.len() as int) =~= v.inputs);
        }
        push_be64(&mut out, self.output_value);
        push_bytes(&mut out, &self.payout.payload);
        push_be64(&mut out, self.payload.block_height);
        push_bytes(&mut out, &self.payload.block_hash.bytes);
        proof {
            assert(out@ =~= enc_tx(v));
        }
        out
    }

    /// The transaction's content-derived id.
    pub fn id(&self) -> (r: TxId)
        requires
            self.wf(),
        ensures
            r@ == txid_of(self@),
            r.wf(),
    {
        let encoded = self.encode();
        let digest = sha256d(&encoded);
        TxId::new(digest)
    }

    /// The id of the transaction whose output this one spends first: the
    /// previous link of the anchoring chain.
    pub fn prev_tx_id(&self) -> (r: TxId)
        requires
            self.inputs@.len() > 0,
        ensures
            r@ == self@.inputs[0].prev_txid,
    {
        self.inputs[0].prev_txid.duplicate()
    }

    /// The embedded checkpoint together with the address the anchoring
    /// output pays to.
    pub fn anchoring_metadata(&self) -> (r: (Address, AnchoringPayload))
        ensures
            r.0@ == self@.payout,
            r.1@ == self@.payload,
    {
        (self.payout.duplicate(), self.payload.duplicate())
    }

    pub fn duplicate(&self) -> (r: BitcoinTx)
        ensures
            r@ == self@,
    {
        let mut inputs: Vec<TxInput> = Vec::new();
        let mut i: usize = 0;
        while i < self.inputs.len()
            invariant
                i <= self.inputs.len(),
                inputs@.len() == i,
                forall|j: int| 0 <= j < i ==> #[trigger] inputs@[j]@ == self.inputs@[j]@,
            decreases self.inputs.len() - i,
        {
            inputs.push(self.inputs[i].duplicate());
            i += 1;
        }
        let r = BitcoinTx {
            inputs,
            output_value: self.output_value,
            payout: self.payout.duplicate(),
            payload: self.payload.duplicate(),
        };
        proof {
            assert forall|j: int| 0 <= j < r@.inputs.len() implies r@.inputs[j] == self@.inputs[j]
            by {
                assert(r@.inputs[j] == inputs@[j]@);
                assert(self@.inputs[j] == self.inputs@[j]@);
            }
            assert(r@.inputs =~= self@.inputs);
            assert(r@ =~= self@);
        }
        r
    }

    /// Structural equality of transaction contents.
    pub fn same_as(&self, other: &BitcoinTx) -> (r: bool)
        ensures
            r == (self@ == other@),
    {
        if self.inputs.len() != other.inputs.len() {
            proof {
                assert(self@.inputs.len() == self.inputs@.len());
                assert(other@.inputs.len() == other.inputs@.len());
            }
            return false;
        }
        let mut i: usize = 0;
        while i < self.inputs.len()
            invariant
                i <= self.inputs.len(),
                self.inputs.len() == other.inputs.len(),
                forall|j: int| 0 <= j < i ==> self@.inputs[j] == other@.inputs[j],
            decreases self.inputs.len() - i,
        {
            let a = &self.inputs[i];
            let b = &other.inputs[i];
            proof {
                assert(self@.inputs[i as int] == self.inputs@[i as int]@);
                assert(other@.inputs[i as int] == other.inputs@[i as int]@);
            }
            if !bytes_eq(&a.prev_txid.bytes, &b.prev_txid.bytes) {
                return false;
            }
            if a.prev_vout != b.prev_vout {
                return false;
            }
            proof {
                assert(self@.inputs[i as int] =~= other@.inputs[i as int]);
            }
            i += 1;
        }
        if self.output_value != other.output_value {
            return false;
        }
        if !bytes_eq(&self.payout.payload, &other.payout.payload) {
            return false;
        }
        if self.payload.block_height != other.payload.block_height {
            return false;
        }
        if !bytes_eq(&self.payload.block_hash.bytes, &other.payload.block_hash.bytes) {
            return false;
        }
        proof {
            assert(self@.inputs =~= other@.inputs);
            assert(self@ =~= other@);
        }
        true
    }
}

/// One entry of a validator's lect log: the transaction it reported and the
/// hash of the ledger message that carried the report.
pub struct LectContent {
    pub msg_hash: Hash256,
    pub tx: BitcoinTx,
}

#[verifier::ext_equal]
pub struct LectContentV {
    pub msg_hash: Seq<u8>,
    pub tx: TxV,
}

impl View for LectContent {
    type V = LectContentV;

    open spec fn view(&self) -> LectContentV {
        LectContentV { msg_hash: self.msg_hash@, tx: self.tx@ }
    }
}

impl LectContent {
    pub fn new(msg_hash: &Hash256, tx: BitcoinTx) -> (r: LectContent)
        ensures
            r@ == (LectContentV { msg_hash: msg_hash@, tx: tx@ }),
    {
        LectContent { msg_hash: msg_hash.duplicate(), tx }
    }

    pub fn tx(&self) -> (r: BitcoinTx)
        ensures
            r@ == self@.tx,
    {
        self.tx.duplicate()
    }

    pub fn duplicate(&self) -> (r: LectContent)
        ensures
            r@ == self@,
    {
        LectContent { msg_hash: self.msg_hash.duplicate(), tx: self.tx.duplicate() }
    }
}

/// A validator's partial signature for one input of one proposed
/// transaction. Its uniqueness key is the triple (txid, validator, input).
pub struct MsgAnchoringSignature {
    pub validator: u32,
    pub input: u32,
    pub txid: TxId,
    pub signature: Vec<u8>,
}

#[verifier::ext_equal]
pub struct MsgSignatureV {
    pub validator: u32,
    pub input: u32,
    pub txid: Seq<u8>,
    pub signature: Seq<u8>,
}

impl View for MsgAnchoringSignature {
    type V = MsgSignatureV;

    open spec fn view(&self) -> MsgSignatureV {
        MsgSignatureV {
            validator: self.validator,
            input: self.input,
            txid: self.txid@,
            signature: self.signature@,
        }
    }
}

impl MsgAnchoringSignature {
    pub open spec fn wf(&self) -> bool {
        self.txid@.len() == 32
    }

    pub fn new(validator: u32, input: u32, txid: TxId, signature: Vec<u8>) -> (r:
        MsgAnchoringSignature)
        ensures
            r@ == (MsgSignatureV { validator, input, txid: txid@, signature: signature@ }),
    {
        MsgAnchoringSignature { validator, input, txid, signature }
    }

    pub fn duplicate(&self) -> (r: MsgAnchoringSignature)
        ensures
            r@ == self@,
    {
        MsgAnchoringSignature {
            validator: self.validator,
            input: self.input,
            txid: self.txid.duplicate(),
            signature: bytes_dup(&self.signature),
        }
    }
}

} // verus!
