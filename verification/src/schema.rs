//! The anchoring storage schema: the tables the protocol persists inside the
//! host ledger's transactional view. Per validator it keeps the append-only
//! lect log ("latest expected chain transaction" reports) and an index from
//! txid to log position; globally it keeps the known-address and known-
//! transaction registries, the deduplicated partial-signature tables, and
//! the activated configurations keyed by activation height.
//!
//! The schema owns its tables as plain values; the host ledger's storage
//! and transport stay outside. Every operation is specified against a
//! sequence-level model of the tables.

use vstd::prelude::*;

use crate::config::{config_wf, AnchoringConfig, ConfigV};
use crate::tx::{
    tx_wf, txid_of, BitcoinTx, LectContent, LectContentV, MsgAnchoringSignature, MsgSignatureV,
    TxV,
};
use crate::types::{bytes_eq, Address, Hash256, PublicKey, TxId};

verus! {

/// One row of a validator's lect index: where in the log the validator
/// reported the transaction with this id.
pub struct LectIndexEntry {
    pub txid: TxId,
    pub position: u64,
}

#[verifier::ext_equal]
pub struct LectIndexV {
    pub txid: Seq<u8>,
    pub position: u64,
}

impl View for LectIndexEntry {
    type V = LectIndexV;

    open spec fn view(&self) -> LectIndexV {
        LectIndexV { txid: self.txid@, position: self.position }
    }
}

/// Everything the schema keeps for one validator: its key, its lect log,
/// and the txid index over that log.
pub struct ValidatorSlot {
    pub key: PublicKey,
    pub lects: Vec<LectContent>,
    pub indexes: Vec<LectIndexEntry>,
}

#[verifier::ext_equal]
pub struct SlotV {
    pub key: Seq<u8>,
    pub lects: Seq<LectContentV>,
    pub indexes: Seq<LectIndexV>,
}

impl View for ValidatorSlot {
    type V = SlotV;

    open spec fn view(&self) -> SlotV {
        SlotV {
            key: self.key@,
            lects: self.lects@.map_values(|c: LectContent| c@),
            indexes: self.indexes@.map_values(|e: LectIndexEntry| e@),
        }
    }
}

/// Whether some slot carries this validator key.
pub open spec fn has_slot(vs: Seq<SlotV>, key: Seq<u8>) -> bool {
    exists|i: int| 0 <= i < vs.len() && vs[i].key == key
}

/// The position of the slot carrying this key (unique when keys are).
pub open spec fn slot_index(vs: Seq<SlotV>, key: Seq<u8>) -> int {
    choose|i: int| 0 <= i < vs.len() && vs[i].key == key
}

/// The lect log of a validator; empty when the validator never reported.
pub open spec fn lects_of(vs: Seq<SlotV>, key: Seq<u8>) -> Seq<LectContentV> {
    if has_slot(vs, key) {
        vs[slot_index(vs, key)].lects
    } else {
        Seq::empty()
    }
}

/// The lect index of a validator.
pub open spec fn indexes_of(vs: Seq<SlotV>, key: Seq<u8>) -> Seq<LectIndexV> {
    if has_slot(vs, key) {
        vs[slot_index(vs, key)].indexes
    } else {
        Seq::empty()
    }
}

pub open spec fn slots_unique(vs: Seq<SlotV>) -> bool {
    forall|i: int, j: int|
        0 <= i < j < vs.len() ==> (#[trigger] vs[i].key) != (#[trigger] vs[j].key)
}

pub proof fn lemma_slot_index(vs: Seq<SlotV>, key: Seq<u8>, i: int)
    requires
        slots_unique(vs),
        0 <= i < vs.len(),
        vs[i].key == key,
    ensures
        has_slot(vs, key),
        slot_index(vs, key) == i,
{
    assert(has_slot(vs, key));
    let j = slot_index(vs, key);
    if i < j {
        assert(vs[i].key != vs[j].key);
    } else if j < i {
        assert(vs[j].key != vs[i].key);
    }
}

/// Whether the index has a row for this txid.
pub open spec fn has_index(ixs: Seq<LectIndexV>, txid: Seq<u8>) -> bool {
    exists|i: int| 0 <= i < ixs.len() && ixs[i].txid == txid
}

pub open spec fn index_at(ixs: Seq<LectIndexV>, txid: Seq<u8>) -> int {
    choose|i: int| 0 <= i < ixs.len() && ixs[i].txid == txid
}

/// The position recorded for a txid, if any.
pub open spec fn index_lookup(ixs: Seq<LectIndexV>, txid: Seq<u8>) -> Option<u64> {
    if has_index(ixs, txid) {
        Option::Some(ixs[index_at(ixs, txid)].position)
    } else {
        Option::None
    }
}

/// Writes a row, replacing the row of the same txid if one exists.
pub open spec fn put_index(ixs: Seq<LectIndexV>, e: LectIndexV) -> Seq<LectIndexV> {
    if has_index(ixs, e.txid) {
        ixs.update(index_at(ixs, e.txid), e)
    } else {
        ixs.push(e)
    }
}

pub open spec fn indexes_unique(ixs: Seq<LectIndexV>) -> bool {
    forall|i: int, j: int|
        0 <= i < j < ixs.len() ==> (#[trigger] ixs[i].txid) != (#[trigger] ixs[j].txid)
}

pub proof fn lemma_index_at(ixs: Seq<LectIndexV>, txid: Seq<u8>, i: int)
    requires
        indexes_unique(ixs),
        0 <= i < ixs.len(),
        ixs[i].txid == txid,
    ensures
        has_index(ixs, txid),
        index_at(ixs, txid) == i,
{
    assert(has_index(ixs, txid));
    let j = index_at(ixs, txid);
    if i < j {
        assert(ixs[i].txid != ixs[j].txid);
    } else if j < i {
        assert(ixs[j].txid != ixs[i].txid);
    }
}

/// One row of the known-transaction registry.
pub struct KnownTxEntry {
    pub txid: TxId,
    pub tx: BitcoinTx,
}

#[verifier::ext_equal]
pub struct KnownTxV {
    pub txid: Seq<u8>,
    pub tx: TxV,
}

impl View for KnownTxEntry {
    type V = KnownTxV;

    open spec fn view(&self) -> KnownTxV {
        KnownTxV { txid: self.txid@, tx: self.tx@ }
    }
}

pub open spec fn has_known_tx(ks: Seq<KnownTxV>, txid: Seq<u8>) -> bool {
    exists|i: int| 0 <= i < ks.len() && ks[i].txid == txid
}

pub open spec fn known_tx_at(ks: Seq<KnownTxV>, txid: Seq<u8>) -> int {
    choose|i: int| 0 <= i < ks.len() && ks[i].txid == txid
}

/// The registered transaction of a txid, if any.
pub open spec fn known_tx_lookup(ks: Seq<KnownTxV>, txid: Seq<u8>) -> Option<TxV> {
    if has_known_tx(ks, txid) {
        Option::Some(ks[known_tx_at(ks, txid)].tx)
    } else {
        Option::None
    }
}

/// Writes a row, replacing the row of the same txid if one exists.
pub open spec fn put_known_tx(ks: Seq<KnownTxV>, txid: Seq<u8>, tx: TxV) -> Seq<KnownTxV> {
    let e = KnownTxV { txid, tx };
    if has_known_tx(ks, txid) {
        ks.update(known_tx_at(ks, txid), e)
    } else {
        ks.push(e)
    }
}

pub open spec fn known_txs_unique(ks: Seq<KnownTxV>) -> bool {
    forall|i: int, j: int|
        0 <= i < j < ks.len() ==> (#[trigger] ks[i].txid) != (#[trigger] ks[j].txid)
}

pub proof fn lemma_known_tx_at(ks: Seq<KnownTxV>, txid: Seq<u8>, i: int)
    requires
        known_txs_unique(ks),
        0 <= i < ks.len(),
        ks[i].txid == txid,
    ensures
        has_known_tx(ks, txid),
        known_tx_at(ks, txid) == i,
{
    assert(has_known_tx(ks, txid));
    let j = known_tx_at(ks, txid);
    if i < j {
        assert(ks[i].txid != ks[j].txid);
    } else if j < i {
        assert(ks[j].txid != ks[i].txid);
    }
}

/// The signatures collected for one proposed transaction, in arrival order.
pub struct SignatureList {
    pub txid: TxId,
    pub msgs: Vec<MsgAnchoringSignature>,
}

#[verifier::ext_equal]
pub struct SigListV {
    pub txid: Seq<u8>,
    pub msgs: Seq<MsgSignatureV>,
}

impl View for SignatureList {
    type V = SigListV;

    open spec fn view(&self) -> SigListV {
        SigListV { txid: self.txid@, msgs: self.msgs@.map_values(|m: MsgAnchoringSignature| m@) }
    }
}

pub open spec fn has_sig_list(ls: Seq<SigListV>, txid: Seq<u8>) -> bool {
    exists|i: int| 0 <= i < ls.len() && ls[i].txid == txid
}

pub open spec fn sig_list_at(ls: Seq<SigListV>, txid: Seq<u8>) -> int {
    choose|i: int| 0 <= i < ls.len() && ls[i].txid == txid
}

/// The signatures collected so far for a proposal; empty when none arrived.
pub open spec fn sigs_of(ls: Seq<SigListV>, txid: Seq<u8>) -> Seq<MsgSignatureV> {
    if has_sig_list(ls, txid) {
        ls[sig_list_at(ls, txid)].msgs
    } else {
        Seq::empty()
    }
}

/// Appends a signature to its proposal's list, creating the list if absent.
pub open spec fn push_sig(ls: Seq<SigListV>, m: MsgSignatureV) -> Seq<SigListV> {
    if has_sig_list(ls, m.txid) {
        let i = sig_list_at(ls, m.txid);
        ls.update(i, SigListV { txid: m.txid, msgs: ls[i].msgs.push(m) })
    } else {
        ls.push(SigListV { txid: m.txid, msgs: seq![m] })
    }
}

pub open spec fn sig_lists_unique(ls: Seq<SigListV>) -> bool {
    forall|i: int, j: int|
        0 <= i < j < ls.len() ==> (#[trigger] ls[i].txid) != (#[trigger] ls[j].txid)
}

pub proof fn lemma_sig_list_at(ls: Seq<SigListV>, txid: Seq<u8>, i: int)
    requires
        sig_lists_unique(ls),
        0 <= i < ls.len(),
        ls[i].txid == txid,
    ensures
        has_sig_list(ls, txid),
        sig_list_at(ls, txid) == i,
{
    assert(has_sig_list(ls, txid));
    let j = sig_list_at(ls, txid);
    if i < j {
        assert(ls[i].txid != ls[j].txid);
    } else if j < i {
        assert(ls[j].txid != ls[i].txid);
    }
}

/// The uniqueness key of a partial signature: (txid, validator, input).
pub open spec fn sig_key_matches(a: MsgSignatureV, b: MsgSignatureV) -> bool {
    a.txid == b.txid && a.validator == b.validator && a.input == b.input
}

/// Whether a signature under the same uniqueness key is already registered.
pub open spec fn has_sig_key(ss: Seq<MsgSignatureV>, m: MsgSignatureV) -> bool {
    exists|i: int| 0 <= i < ss.len() && sig_key_matches(#[trigger] ss[i], m)
}

/// The state after a partial-signature submission: dropped when its
/// uniqueness key is already taken, otherwise appended to its proposal's
/// list and registered under the key.
pub open spec fn spec_add_known_signature(s: SchemaV, m: MsgSignatureV) -> SchemaV {
    if has_sig_key(s.known_signatures, m) {
        s
    } else {
        SchemaV {
            known_signatures: s.known_signatures.push(m),
            sig_lists: push_sig(s.sig_lists, m),
            ..s
        }
    }
}

/// Per uniqueness key, only the first submission counts: a second signature
/// whose (txid, validator, input) key matches an already-submitted one
/// leaves the schema exactly as the first submission left it, whatever its
/// signature bytes say.
pub proof fn lemma_known_signature_idempotent(s: SchemaV, m1: MsgSignatureV, m2: MsgSignatureV)
    requires
        sig_key_matches(m2, m1),
    ensures
        spec_add_known_signature(spec_add_known_signature(s, m1), m2) == spec_add_known_signature(
            s,
            m1,
        ),
{
    let s1 = spec_add_known_signature(s, m1);
    if has_sig_key(s.known_signatures, m1) {
        let i = choose|i: int|
            0 <= i < s.known_signatures.len() && sig_key_matches(s.known_signatures[i], m1);
        assert(sig_key_matches(s1.known_signatures[i], m2));
        assert(has_sig_key(s1.known_signatures, m2));
    } else {
        let n = s.known_signatures.len() as int;
        assert(s1.known_signatures[n] == m1);
        assert(sig_key_matches(s1.known_signatures[n], m2));
        assert(has_sig_key(s1.known_signatures, m2));
    }
}

/// One activated configuration with the ledger height it took effect at.
pub struct ConfigEntry {
    pub actual_from: u64,
    pub cfg: AnchoringConfig,
}

#[verifier::ext_equal]
pub struct ConfigEntryV {
    pub actual_from: u64,
    pub cfg: ConfigV,
}

impl View for ConfigEntry {
    type V = ConfigEntryV;

    open spec fn view(&self) -> ConfigEntryV {
        ConfigEntryV { actual_from: self.actual_from, cfg: self.cfg@ }
    }
}

/// The whole schema state, at the level contracts speak of.
#[verifier::ext_equal]
pub struct SchemaV {
    pub slots: Seq<SlotV>,
    pub known_addresses: Seq<Seq<u8>>,
    pub known_signatures: Seq<MsgSignatureV>,
    pub sig_lists: Seq<SigListV>,
    pub known_txs: Seq<KnownTxV>,
    pub configs: Seq<ConfigEntryV>,
    pub height: u64,
}

pub open spec fn schema_wf(s: SchemaV) -> bool {
    &&& slots_unique(s.slots)
    &&& forall|i: int|
        0 <= i < s.slots.len() ==> {
            let sl = #[trigger] s.slots[i];
            &&& sl.key.len() == 33
            &&& indexes_unique(sl.indexes)
            &&& forall|j: int|
                0 <= j < sl.lects.len() ==> {
                    &&& tx_wf((#[trigger] sl.lects[j]).tx)
                    &&& sl.lects[j].msg_hash.len() == 32
                }
        }
    &&& forall|i: int, j: int|
        0 <= i < j < s.known_addresses.len() ==> s.known_addresses[i] != s.known_addresses[j]
    &&& forall|i: int| 0 <= i < s.known_addresses.len() ==> (#[trigger] s.known_addresses[i]).len()
        == 21
    &&& forall|i: int, j: int|
        0 <= i < j < s.known_signatures.len() ==> !sig_key_matches(
            s.known_signatures[i],
            s.known_signatures[j],
        )
    &&& sig_lists_unique(s.sig_lists)
    &&& known_txs_unique(s.known_txs)
    &&& forall|i: int| 0 <= i < s.known_txs.len() ==> tx_wf((#[trigger] s.known_txs[i]).tx)
    &&& forall|i: int, j: int|
        0 <= i < j < s.configs.len() ==> (#[trigger] s.configs[i]).actual_from < (
        #[trigger] s.configs[j]).actual_from
    &&& forall|i: int| 0 <= i < s.configs.len() ==> config_wf((#[trigger] s.configs[i]).cfg)
}

/// The persistent schema of the anchoring service.
pub struct AnchoringSchema {
    pub slots: Vec<ValidatorSlot>,
    pub known_addresses: Vec<Vec<u8>>,
    pub known_signatures: Vec<MsgAnchoringSignature>,
    pub sig_lists: Vec<SignatureList>,
    pub known_txs: Vec<KnownTxEntry>,
    pub configs: Vec<ConfigEntry>,
    pub height: u64,
}

impl View for AnchoringSchema {
    type V = SchemaV;

    open spec fn view(&self) -> SchemaV {
        SchemaV {
            slots: self.slots@.map_values(|s: ValidatorSlot| s@),
            known_addresses: self.known_addresses@.map_values(|a: Vec<u8>| a@),
            known_signatures: self.known_signatures@.map_values(|m: MsgAnchoringSignature| m@),
            sig_lists: self.sig_lists@.map_values(|l: SignatureList| l@),
            known_txs: self.known_txs@.map_values(|k: KnownTxEntry| k@),
            configs: self.configs@.map_values(|c: ConfigEntry| c@),
            height: self.height,
        }
    }
}

/// A run of lect reports for one validator, applied oldest first.
pub open spec fn spec_add_lects(s: SchemaV, key: Seq<u8>, entries: Seq<LectContentV>) -> SchemaV
    decreases entries.len(),
{
    if entries.len() == 0 {
        s
    } else {
        spec_add_lect(
            spec_add_lects(s, key, entries.drop_last()),
            key,
            entries.last().tx,
            entries.last().msg_hash,
        )
    }
}

/// The lect log is append-only: a run of k reports for a validator leaves
/// its log exactly k entries longer, the new entries standing at the end
/// in call order and every earlier entry untouched; no other validator's
/// log moves.
pub proof fn lemma_lect_log_append_only(s: SchemaV, key: Seq<u8>, entries: Seq<LectContentV>)
    requires
        schema_wf(s),
        key.len() == 33,
        forall|i: int|
            0 <= i < entries.len() ==> tx_wf((#[trigger] entries[i]).tx) && entries[i].msg_hash.len()
                == 32,
    ensures
        schema_wf(spec_add_lects(s, key, entries)),
        lects_of(spec_add_lects(s, key, entries).slots, key) == lects_of(s.slots, key) + entries,
        forall|k: Seq<u8>|
            k != key ==> lects_of(spec_add_lects(s, key, entries).slots, k) == lects_of(
                s.slots,
                k,
            ),
    decreases entries.len(),
{
    if entries.len() == 0 {
        assert(lects_of(s.slots, key) + entries =~= lects_of(s.slots, key));
    } else {
        let pre = entries.drop_last();
        let e = entries.last();
        lemma_lect_log_append_only(s, key, pre);
        let mid = spec_add_lects(s, key, pre);
        lemma_add_lect_effect(mid, key, e.tx, e.msg_hash);
        assert(lects_of(spec_add_lects(s, key, entries).slots, key) == (lects_of(s.slots, key)
            + pre).push(LectContentV { msg_hash: e.msg_hash, tx: e.tx }));
        assert(e == (LectContentV { msg_hash: e.msg_hash, tx: e.tx }));
        assert((lects_of(s.slots, key) + pre).push(e) =~= lects_of(s.slots, key) + entries);
    }
}

/// The known-address registry after a registration: unchanged when the
/// address is already present, extended by it otherwise.
pub open spec fn spec_add_known_address(addrs: Seq<Seq<u8>>, a: Seq<u8>) -> Seq<Seq<u8>> {
    if addrs.contains(a) {
        addrs
    } else {
        addrs.push(a)
    }
}

/// The lect entry genesis seeds every validator's log with: the funding
/// transaction under the zero origin hash, since no real report backs it.
pub open spec fn genesis_lect(c: ConfigV) -> LectContentV {
    LectContentV { msg_hash: crate::types::zero_hash(), tx: c.funding_tx->0 }
}

/// The state after a lect report: the entry appended to the reporting
/// validator's log, its position recorded in that validator's index, and
/// the transaction registered globally.
pub open spec fn spec_add_lect(s: SchemaV, key: Seq<u8>, tx: TxV, msg_hash: Seq<u8>) -> SchemaV {
    let entry = LectContentV { msg_hash, tx };
    let pos = lects_of(s.slots, key).len() as u64;
    let row = LectIndexV { txid: txid_of(tx), position: pos };
    let slots = if has_slot(s.slots, key) {
        let i = slot_index(s.slots, key);
        s.slots.update(
            i,
            SlotV {
                key,
                lects: s.slots[i].lects.push(entry),
                indexes: put_index(s.slots[i].indexes, row),
            },
        )
    } else {
        s.slots.push(SlotV { key, lects: seq![entry], indexes: seq![row] })
    };
    SchemaV { slots, known_txs: put_known_tx(s.known_txs, txid_of(tx), tx), ..s }
}

pub proof fn lemma_put_index_unique(ixs: Seq<LectIndexV>, e: LectIndexV)
    requires
        indexes_unique(ixs),
    ensures
        indexes_unique(put_index(ixs, e)),
        has_index(put_index(ixs, e), e.txid),
        index_lookup(put_index(ixs, e), e.txid) == Option::Some(e.position),
{
    let out = put_index(ixs, e);
    if has_index(ixs, e.txid) {
        let i = index_at(ixs, e.txid);
        assert(out =~= ixs.update(i, e));
        assert forall|a: int, b: int| 0 <= a < b < out.len() implies (#[trigger] out[a].txid) != (
        #[trigger] out[b].txid) by {
            assert(ixs[a].txid != ixs[b].txid);
        }
        lemma_index_at(out, e.txid, i);
    } else {
        assert forall|a: int, b: int| 0 <= a < b < out.len() implies (#[trigger] out[a].txid) != (
        #[trigger] out[b].txid) by {
            if b < ixs.len() {
                assert(ixs[a].txid != ixs[b].txid);
            } else {
                assert(!(exists|k: int| 0 <= k < ixs.len() && ixs[k].txid == e.txid));
                assert(ixs[a].txid != e.txid);
            }
        }
        lemma_index_at(out, e.txid, ixs.len() as int);
    }
}

pub proof fn lemma_put_known_tx_unique(ks: Seq<KnownTxV>, txid: Seq<u8>, tx: TxV)
    requires
        known_txs_unique(ks),
    ensures
        known_txs_unique(put_known_tx(ks, txid, tx)),
        known_tx_lookup(put_known_tx(ks, txid, tx), txid) == Option::Some(tx),
        forall|t: Seq<u8>|
            t != txid ==> known_tx_lookup(put_known_tx(ks, txid, tx), t) == known_tx_lookup(ks, t),
        forall|i: int|
            0 <= i < put_known_tx(ks, txid, tx).len() ==> (#[trigger] put_known_tx(
                ks,
                txid,
                tx,
            )[i]).tx == tx || (exists|j: int|
                0 <= j < ks.len() && put_known_tx(ks, txid, tx)[i] == #[trigger] ks[j]),
{
    let out = put_known_tx(ks, txid, tx);
    let e = KnownTxV { txid, tx };
    if has_known_tx(ks, txid) {
        let i = known_tx_at(ks, txid);
        assert forall|a: int, b: int| 0 <= a < b < out.len() implies (#[trigger] out[a].txid) != (
        #[trigger] out[b].txid) by {
            assert(ks[a].txid != ks[b].txid);
        }
        lemma_known_tx_at(out, txid, i);
        assert forall|t: Seq<u8>| t != txid implies known_tx_lookup(out, t) == known_tx_lookup(
            ks,
            t,
        ) by {
            if has_known_tx(ks, t) {
                let j = known_tx_at(ks, t);
                assert(j != i);
                assert(out[j].txid == t);
                lemma_known_tx_at(out, t, j);
            } else {
                if has_known_tx(out, t) {
                    let j = known_tx_at(out, t);
                    assert(out[j].txid == t);
                    assert(j != i);
                    assert(ks[j].txid == t);
                }
            }
        }
    } else {
        assert forall|a: int, b: int| 0 <= a < b < out.len() implies (#[trigger] out[a].txid) != (
        #[trigger] out[b].txid) by {
            if b < ks.len() {
                assert(ks[a].txid != ks[b].txid);
            } else {
                assert(!(exists|k: int| 0 <= k < ks.len() && ks[k].txid == txid));
                assert(ks[a].txid != txid);
            }
        }
        lemma_known_tx_at(out, txid, ks.len() as int);
        assert forall|t: Seq<u8>| t != txid implies known_tx_lookup(out, t) == known_tx_lookup(
            ks,
            t,
        ) by {
            if has_known_tx(ks, t) {
                let j = known_tx_at(ks, t);
                assert(out[j].txid == t);
                lemma_known_tx_at(out, t, j);
            } else {
                if has_known_tx(out, t) {
                    let j = known_tx_at(out, t);
                    assert(out[j].txid == t);
                    assert(j < ks.len());
                }
            }
        }
    }
}

/// What one lect report does, stated over the model: the entry lands at the
/// end of exactly one log, the index row points at it, the transaction is
/// registered, and every other table and every other validator's log stay
/// as they were.
pub proof fn lemma_add_lect_effect(s: SchemaV, key: Seq<u8>, tx: TxV, h: Seq<u8>)
    requires
        schema_wf(s),
        key.len() == 33,
        tx_wf(tx),
        h.len() == 32,
    ensures
        schema_wf(spec_add_lect(s, key, tx, h)),
        lects_of(spec_add_lect(s, key, tx, h).slots, key) == lects_of(s.slots, key).push(
            LectContentV { msg_hash: h, tx },
        ),
        forall|k: Seq<u8>|
            k != key ==> lects_of(spec_add_lect(s, key, tx, h).slots, k) == lects_of(s.slots, k),
        forall|k: Seq<u8>|
            k != key ==> indexes_of(spec_add_lect(s, key, tx, h).slots, k) == indexes_of(
                s.slots,
                k,
            ),
        index_lookup(indexes_of(spec_add_lect(s, key, tx, h).slots, key), txid_of(tx))
            == Option::Some(lects_of(s.slots, key).len() as u64),
        known_tx_lookup(spec_add_lect(s, key, tx, h).known_txs, txid_of(tx)) == Option::Some(tx),
        forall|t: Seq<u8>|
            t != txid_of(tx) ==> known_tx_lookup(spec_add_lect(s, key, tx, h).known_txs, t)
                == known_tx_lookup(s.known_txs, t),
{
    let out = spec_add_lect(s, key, tx, h);
    let entry = LectContentV { msg_hash: h, tx };
    let pos = lects_of(s.slots, key).len() as u64;
    let row = LectIndexV { txid: txid_of(tx), position: pos };
    lemma_put_known_tx_unique(s.known_txs, txid_of(tx), tx);
    if has_slot(s.slots, key) {
        let i = slot_index(s.slots, key);
        lemma_slot_index(s.slots, key, i);
        let new_slot = SlotV {
            key,
            lects: s.slots[i].lects.push(entry),
            indexes: put_index(s.slots[i].indexes, row),
        };
        assert(out.slots =~= s.slots.update(i, new_slot));
        assert forall|a: int, b: int| 0 <= a < b < out.slots.len() implies (
        #[trigger] out.slots[a].key) != (#[trigger] out.slots[b].key) by {
            assert(s.slots[a].key != s.slots[b].key);
        }
        lemma_put_index_unique(s.slots[i].indexes, row);
        lemma_slot_index(out.slots, key, i);
        assert forall|k: Seq<u8>| k != key implies lects_of(out.slots, k) == lects_of(s.slots, k)
            && indexes_of(out.slots, k) == indexes_of(s.slots, k) by {
            if has_slot(s.slots, k) {
                let j = slot_index(s.slots, k);
                lemma_slot_index(s.slots, k, j);
                assert(j != i);
                assert(out.slots[j] == s.slots[j]);
                lemma_slot_index(out.slots, k, j);
            } else {
                if has_slot(out.slots, k) {
                    let j = slot_index(out.slots, k);
                    assert(out.slots[j].key == k);
                    assert(j != i);
                    assert(s.slots[j].key == k);
                }
            }
        }
    } else {
        let i = s.slots.len() as int;
        assert(out.slots =~= s.slots.push(SlotV { key, lects: seq![entry], indexes: seq![row] }));
        assert forall|a: int, b: int| 0 <= a < b < out.slots.len() implies (
        #[trigger] out.slots[a].key) != (#[trigger] out.slots[b].key) by {
            if b < s.slots.len() {
                assert(s.slots[a].key != s.slots[b].key);
            } else {
                assert(!(exists|k: int| 0 <= k < s.slots.len() && s.slots[k].key == key));
                assert(s.slots[a].key != key);
            }
        }
        lemma_slot_index(out.slots, key, i);
        assert(lects_of(s.slots, key) =~= Seq::<LectContentV>::empty());
        assert(lects_of(out.slots, key) =~= lects_of(s.slots, key).push(entry));
        lemma_index_at(seq![row], txid_of(tx), 0);
        assert forall|k: Seq<u8>| k != key implies lects_of(out.slots, k) == lects_of(s.slots, k)
            && indexes_of(out.slots, k) == indexes_of(s.slots, k) by {
            if has_slot(s.slots, k) {
                let j = slot_index(s.slots, k);
                lemma_slot_index(s.slots, k, j);
                assert(out.slots[j] == s.slots[j]);
                lemma_slot_index(out.slots, k, j);
            } else {
                if has_slot(out.slots, k) {
                    let j = slot_index(out.slots, k);
                    assert(out.slots[j].key == k);
                    assert(j != i);
                    assert(s.slots[j].key == k);
                }
            }
        }
    }
}

impl ValidatorSlot {
    /// Position of the index row for this txid, if one exists.
    fn find_index_row(&self, txid: &TxId) -> (r: Option<usize>)
        requires
            indexes_unique(self@.indexes),
        ensures
            match r {
                Option::Some(p) => has_index(self@.indexes, txid@) && p < self@.indexes.len()
                    && index_at(self@.indexes, txid@) == p,
                Option::None => !has_index(self@.indexes, txid@),
            },
    {
        let mut j: usize = 0;
        while j < self.indexes.len()
            invariant
                j <= self.indexes.len(),
                indexes_unique(self@.indexes),
                forall|k: int| 0 <= k < j ==> (#[trigger] self@.indexes[k]).txid != txid@,
            decreases self.indexes.len() - j,
        {
            proof {
                assert(self@.indexes[j as int] == self.indexes@[j as int]@);
            }
            if bytes_eq(&self.indexes[j].txid.bytes, &txid.bytes) {
                proof {
                    lemma_index_at(self@.indexes, txid@, j as int);
                }
                return Option::Some(j);
            }
            j += 1;
        }
        Option::None
    }

    /// Appends one lect entry and records its index row.
    fn append_lect(&mut self, entry: LectContent, txid: &TxId, pos: u64)
        requires
            indexes_unique(old(self)@.indexes),
            txid.wf(),
        ensures
            final(self)@.key == old(self)@.key,
            final(self)@.lects == old(self)@.lects.push(entry@),
            final(self)@.indexes == put_index(
                old(self)@.indexes,
                LectIndexV { txid: txid@, position: pos },
            ),
    {
        let ghost row = LectIndexV { txid: txid@, position: pos };
        let ghost ixs0 = self@.indexes;
        match self.find_index_row(txid) {
            Option::Some(p) => {
                self.indexes[p] = LectIndexEntry { txid: txid.duplicate(), position: pos };
                proof {
                    assert(self@.indexes =~= put_index(ixs0, row));
                }
            },
            Option::None => {
                self.indexes.push(LectIndexEntry { txid: txid.duplicate(), position: pos });
                proof {
                    assert(self@.indexes =~= put_index(ixs0, row));
                }
            },
        }
        let ghost lects0 = self@.lects;
        self.lects.push(entry);
        proof {
            assert(self@.lects =~= lects0.push(entry@));
        }
    }
}

impl AnchoringSchema {
    pub open spec fn wf(&self) -> bool {
        schema_wf(self@)
    }

    /// A fresh schema with every table empty, at ledger height zero.
    pub fn new() -> (r: AnchoringSchema)
        ensures
            r.wf(),
            r@.slots == Seq::<SlotV>::empty(),
            r@.known_addresses == Seq::<Seq<u8>>::empty(),
            r@.known_signatures == Seq::<MsgSignatureV>::empty(),
            r@.sig_lists == Seq::<SigListV>::empty(),
            r@.known_txs == Seq::<KnownTxV>::empty(),
            r@.configs == Seq::<ConfigEntryV>::empty(),
            r@.height == 0,
    {
        let r = AnchoringSchema {
            slots: Vec::new(),
            known_addresses: Vec::new(),
            known_signatures: Vec::new(),
            sig_lists: Vec::new(),
            known_txs: Vec::new(),
            configs: Vec::new(),
            height: 0,
        };
        proof {
            assert(r@.slots =~= Seq::<SlotV>::empty());
            assert(r@.known_addresses =~= Seq::<Seq<u8>>::empty());
            assert(r@.known_signatures =~= Seq::<MsgSignatureV>::empty());
            assert(r@.sig_lists =~= Seq::<SigListV>::empty());
            assert(r@.known_txs =~= Seq::<KnownTxV>::empty());
            assert(r@.configs =~= Seq::<ConfigEntryV>::empty());
        }
        r
    }

    /// Position of the slot carrying this key, if the validator has one.
    fn find_slot(&self, validator_key: &PublicKey) -> (r: Option<usize>)
        requires
            self.wf(),
        ensures
            match r {
                Option::Some(i) => has_slot(self@.slots, validator_key@) && i < self@.slots.len()
                    && slot_index(self@.slots, validator_key@) == i,
                Option::None => !has_slot(self@.slots, validator_key@),
            },
    {
        let mut i: usize = 0;
        while i < self.slots.len()
            invariant
                self.wf(),
                i <= self.slots.len(),
                forall|j: int| 0 <= j < i ==> (#[trigger] self@.slots[j]).key != validator_key@,
            decreases self.slots.len() - i,
        {
            proof {
                assert(self@.slots[i as int] == self.slots@[i as int]@);
            }
            if bytes_eq(&self.slots[i].key.bytes, &validator_key.bytes) {
                proof {
                    lemma_slot_index(self@.slots, validator_key@, i as int);
                }
                return Option::Some(i);
            }
            i += 1;
        }
        Option::None
    }

    /// Registers a transaction under its id, overwriting any previous row.
    fn register_known_tx(&mut self, txid: TxId, tx: BitcoinTx)
        requires
            known_txs_unique(old(self)@.known_txs),
            txid.wf(),
        ensures
            final(self)@ == (SchemaV {
                known_txs: put_known_tx(old(self)@.known_txs, txid@, tx@),
                ..old(self)@
            }),
    {
        let ghost ks0 = self@.known_txs;
        let mut i: usize = 0;
        while i < self.known_txs.len()
            invariant
                i <= self.known_txs.len(),
                self@ == old(self)@,
                ks0 == self@.known_txs,
                known_txs_unique(ks0),
                forall|k: int| 0 <= k < i ==> (#[trigger] ks0[k]).txid != txid@,
            decreases self.known_txs.len() - i,
        {
            proof {
                assert(ks0[i as int] == self.known_txs@[i as int]@);
            }
            if bytes_eq(&self.known_txs[i].txid.bytes, &txid.bytes) {
                proof {
                    lemma_known_tx_at(ks0, txid@, i as int);
                }
                self.known_txs[i] = KnownTxEntry { txid, tx };
                proof {
                    assert(self@.known_txs =~= put_known_tx(ks0, txid@, tx@));
                    assert(self@ =~= (SchemaV {
                        known_txs: put_known_tx(ks0, txid@, tx@),
                        ..old(self)@
                    }));
                }
                return ;
            }
            i += 1;
        }
        proof {
            assert(!has_known_tx(ks0, txid@));
        }
        self.known_txs.push(KnownTxEntry { txid, tx });
        proof {
            assert(self@.known_txs =~= put_known_tx(ks0, txid@, tx@));
            assert(self@ =~= (SchemaV { known_txs: put_known_tx(ks0, txid@, tx@), ..old(self)@ }));
        }
    }

    /// Appends `tx` to the validator's lect log, records the log position
    /// under the transaction's id, and registers the transaction globally.
    /// Duplicate content for the same validator is permitted: every call
    /// appends.
    pub fn add_lect(&mut self, validator_key: &PublicKey, tx: BitcoinTx, msg_hash: Hash256)
        requires
            old(self).wf(),
            validator_key.wf(),
            tx.wf(),
            msg_hash.wf(),
        ensures
            final(self).wf(),
            final(self)@ == spec_add_lect(old(self)@, validator_key@, tx@, msg_hash@),
    {
        proof {
            lemma_add_lect_effect(old(self)@, validator_key@, tx@, msg_hash@);
        }
        let ghost s0 = self@;
        let txid = tx.id();
        let registry_tx = tx.duplicate();
        let registry_txid = txid.duplicate();
        match self.find_slot(validator_key) {
            Option::Some(i) => {
                proof {
                    assert(s0.slots[i as int] == self.slots@[i as int]@);
                    assert(lects_of(s0.slots, validator_key@) == s0.slots[i as int].lects);
                }
                let pos = self.slots[i].lects.len() as u64;
                let entry = LectContent::new(&msg_hash, tx);
                self.slots[i].append_lect(entry, &txid, pos);
                proof {
                    assert(self@.slots =~= spec_add_lect(s0, validator_key@, tx@, msg_hash@).slots);
                }
            },
            Option::None => {
                let entry = LectContent::new(&msg_hash, tx);
                let ghost ev = entry@;
                let mut slot = ValidatorSlot {
                    key: validator_key.duplicate(),
                    lects: Vec::new(),
                    indexes: Vec::new(),
                };
                slot.lects.push(entry);
                slot.indexes.push(LectIndexEntry { txid: txid.duplicate(), position: 0 });
                proof {
                    assert(lects_of(s0.slots, validator_key@) =~= Seq::<LectContentV>::empty());
                    assert(slot@.lects =~= seq![ev]);
                    assert(slot@.indexes =~= seq![LectIndexV { txid: txid@, position: 0u64 }]);
                }
                self.slots.push(slot);
                proof {
                    assert(self@.slots =~= spec_add_lect(s0, validator_key@, tx@, msg_hash@).slots);
                }
            },
        }
        self.register_known_tx(registry_txid, registry_tx);
        proof {
            assert(self@ =~= spec_add_lect(s0, validator_key@, tx@, msg_hash@));
        }
    }

    /// A copy of the validator's lect log, oldest entry first.
    pub fn lects(&self, validator_key: &PublicKey) -> (r: Vec<LectContent>)
        requires
            self.wf(),
        ensures
            r@.map_values(|c: LectContent| c@) == lects_of(self@.slots, validator_key@),
    {
        match self.find_slot(validator_key) {
            Option::Some(i) => {
                let ghost log = lects_of(self@.slots, validator_key@);
                proof {
                    assert(self@.slots[i as int] == self.slots@[i as int]@);
                }
                let mut out: Vec<LectContent> = Vec::new();
                let mut j: usize = 0;
                while j < self.slots[i].lects.len()
                    invariant
                        self.wf(),
                        i < self.slots@.len(),
                        log == self.slots@[i as int]@.lects,
                        j <= self.slots@[i as int]@.lects.len(),
                        out@.len() == j,
                        forall|k: int| 0 <= k < j ==> (#[trigger] out@[k])@ == log[k],
                    decreases self.slots[i as int].lects.len() - j,
                {
                    proof {
                        assert(log[j as int] == self.slots@[i as int].lects@[j as int]@);
                    }
                    out.push(self.slots[i].lects[j].duplicate());
                    j += 1;
                }
                proof {
                    assert(out@.map_values(|c: LectContent| c@) =~= log);
                }
                out
            },
            Option::None => {
                let out: Vec<LectContent> = Vec::new();
                proof {
                    assert(out@.map_values(|c: LectContent| c@) =~= lects_of(
                        self@.slots,
                        validator_key@,
                    ));
                }
                out
            },
        }
    }

    /// The validator's current lect: the most recently appended entry of its
    /// log, or none if the validator never reported one.
    pub fn lect(&self, validator_key: &PublicKey) -> (r: Option<BitcoinTx>)
        requires
            self.wf(),
        ensures
            ({
                let log = lects_of(self@.slots, validator_key@);
                match r {
                    Option::Some(t) => log.len() > 0 && t@ == log.last().tx && tx_wf(t@),
                    Option::None => log.len() == 0,
                }
            }),
    {
        match self.find_slot(validator_key) {
            Option::Some(i) => {
                proof {
                    assert(self@.slots[i as int] == self.slots@[i as int]@);
                }
                let n = self.slots[i].lects.len();
                if n == 0 {
                    Option::None
                } else {
                    proof {
                        assert(lects_of(self@.slots, validator_key@)[n - 1] == self.slots@[
                            i as int].lects@[n - 1]@);
                    }
                    Option::Some(self.slots[i].lects[n - 1].tx())
                }
            },
            Option::None => Option::None,
        }
    }

    /// The validator's previous lect: the second most recently appended
    /// entry, or none if fewer than two exist. Comparing it against the
    /// current lect exposes unilateral rollback or duplicate reporting.
    pub fn prev_lect(&self, validator_key: &PublicKey) -> (r: Option<BitcoinTx>)
        requires
            self.wf(),
        ensures
            ({
                let log = lects_of(self@.slots, validator_key@);
                match r {
                    Option::Some(t) => log.len() >= 2 && t@ == log[log.len() - 2].tx && tx_wf(t@),
                    Option::None => log.len() < 2,
                }
            }),
    {
        match self.find_slot(validator_key) {
            Option::Some(i) => {
                proof {
                    assert(self@.slots[i as int] == self.slots@[i as int]@);
                }
                let n = self.slots[i].lects.len();
                if n < 2 {
                    Option::None
                } else {
                    proof {
                        assert(lects_of(self@.slots, validator_key@)[n - 2] == self.slots@[
                            i as int].lects@[n - 2]@);
                    }
                    Option::Some(self.slots[i].lects[n - 2].tx())
                }
            },
            Option::None => Option::None,
        }
    }

    /// A copy of the validator's txid index.
    pub fn lect_indexes(&self, validator_key: &PublicKey) -> (r: Vec<LectIndexEntry>)
        requires
            self.wf(),
        ensures
            r@.map_values(|e: LectIndexEntry| e@) == indexes_of(self@.slots, validator_key@),
    {
        match self.find_slot(validator_key) {
            Option::Some(i) => {
                let ghost ixs = indexes_of(self@.slots, validator_key@);
                proof {
                    assert(self@.slots[i as int] == self.slots@[i as int]@);
                }
                let mut out: Vec<LectIndexEntry> = Vec::new();
                let mut j: usize = 0;
                while j < self.slots[i].indexes.len()
                    invariant
                        self.wf(),
                        i < self.slots@.len(),
                        ixs == self.slots@[i as int]@.indexes,
                        j <= self.slots@[i as int]@.indexes.len(),
                        out@.len() == j,
                        forall|k: int| 0 <= k < j ==> (#[trigger] out@[k])@ == ixs[k],
                    decreases self.slots[i as int].indexes.len() - j,
                {
                    proof {
                        assert(ixs[j as int] == self.slots@[i as int].indexes@[j as int]@);
                    }
                    let e = &self.slots[i].indexes[j];
                    out.push(LectIndexEntry { txid: e.txid.duplicate(), position: e.position });
                    j += 1;
                }
                proof {
                    assert(out@.map_values(|e: LectIndexEntry| e@) =~= ixs);
                }
                out
            },
            Option::None => {
                let out: Vec<LectIndexEntry> = Vec::new();
                proof {
                    assert(out@.map_values(|e: LectIndexEntry| e@) =~= indexes_of(
                        self@.slots,
                        validator_key@,
                    ));
                }
                out
            },
        }
    }

    /// Registers an anchoring address the service has controlled. The write
    /// is idempotent: a known address leaves the registry unchanged.
    pub fn add_known_address(&mut self, addr: &Address)
        requires
            old(self).wf(),
            addr.wf(),
        ensures
            final(self).wf(),
            final(self)@ == (SchemaV {
                known_addresses: spec_add_known_address(old(self)@.known_addresses, addr@),
                ..old(self)@
            }),
            final(self)@.known_addresses.contains(addr@),
    {
        let ghost s0 = self@;
        let mut i: usize = 0;
        while i < self.known_addresses.len()
            invariant
                self@ == s0,
                schema_wf(s0),
                i <= self.known_addresses.len(),
                forall|k: int| 0 <= k < i ==> #[trigger] s0.known_addresses[k] != addr@,
            decreases self.known_addresses.len() - i,
        {
            proof {
                assert(s0.known_addresses[i as int] == self.known_addresses@[i as int]@);
            }
            if bytes_eq(&self.known_addresses[i], &addr.payload) {
                proof {
                    assert(s0.known_addresses.contains(addr@));
                    assert(self@ =~= (SchemaV {
                        known_addresses: spec_add_known_address(s0.known_addresses, addr@),
                        ..s0
                    }));
                }
                return ;
            }
            i += 1;
        }
        proof {
            assert(!s0.known_addresses.contains(addr@));
        }
        self.known_addresses.push(crate::types::bytes_dup(&addr.payload));
        proof {
            assert(self@.known_addresses =~= s0.known_addresses.push(addr@));
            assert(self@ =~= (SchemaV {
                known_addresses: spec_add_known_address(s0.known_addresses, addr@),
                ..s0
            }));
            let n = s0.known_addresses.len() as int;
            assert(self@.known_addresses[n] == addr@);
            assert forall|a: int, b: int| 0 <= a < b < self@.known_addresses.len() implies
                self@.known_addresses[a] != self@.known_addresses[b] by {
                if b < n {
                    assert(s0.known_addresses[a] != s0.known_addresses[b]);
                } else {
                    assert(s0.known_addresses[a] != addr@);
                }
            }
        }
    }

    /// Whether this address is one the service has controlled.
    pub fn is_address_known(&self, addr: &Address) -> (r: bool)
        requires
            self.wf(),
        ensures
            r == self@.known_addresses.contains(addr@),
    {
        let mut i: usize = 0;
        while i < self.known_addresses.len()
            invariant
                self.wf(),
                i <= self.known_addresses.len(),
                forall|k: int| 0 <= k < i ==> #[trigger] self@.known_addresses[k] != addr@,
            decreases self.known_addresses.len() - i,
        {
            proof {
                assert(self@.known_addresses[i as int] == self.known_addresses@[i as int]@);
            }
            if bytes_eq(&self.known_addresses[i], &addr.payload) {
                proof {
                    assert(self@.known_addresses.contains(addr@));
                }
                return true;
            }
            i += 1;
        }
        false
    }

    /// Seeds the schema from the initial configuration: registers the
    /// redeem-script address as known and gives every validator a lect log
    /// holding the funding transaction as its first entry, under the zero
    /// origin hash.
    pub fn create_genesis_config(&mut self, cfg: &AnchoringConfig)
        requires
            old(self).wf(),
            cfg.wf(),
            cfg.funding_tx is Some,
        ensures
            final(self).wf(),
            final(self)@.known_addresses == spec_add_known_address(
                old(self)@.known_addresses,
                crate::config::addr_payload_of(cfg@.validators),
            ),
            final(self)@.known_addresses.contains(crate::config::addr_payload_of(cfg@.validators)),
            forall|i: int|
                0 <= i < cfg@.validators.len() ==> lects_of(
                    final(self)@.slots,
                    #[trigger] cfg@.validators[i],
                ) == lects_of(old(self)@.slots, cfg@.validators[i]).push(genesis_lect(cfg@)),
            forall|k: Seq<u8>|
                !cfg@.validators.contains(k) ==> lects_of(final(self)@.slots, k) == lects_of(
                    old(self)@.slots,
                    k,
                ),
            known_tx_lookup(final(self)@.known_txs, txid_of(cfg@.funding_tx->0)) == Option::Some(
                cfg@.funding_tx->0,
            ),
            final(self)@.known_signatures == old(self)@.known_signatures,
            final(self)@.sig_lists == old(self)@.sig_lists,
            final(self)@.configs == old(self)@.configs,
            final(self)@.height == old(self)@.height,
            old(self)@.slots.len() == 0 ==> forall|i: int|
                0 <= i < cfg@.validators.len() ==> lects_of(
                    final(self)@.slots,
                    #[trigger] cfg@.validators[i],
                ).len() == 1 && lects_of(final(self)@.slots, cfg@.validators[i])[0]
                    == genesis_lect(cfg@),
    {
        let ghost s0 = self@;
        let (_script, addr) = cfg.redeem_script();
        self.add_known_address(&addr);
        let ghost s1 = self@;
        let funding: &BitcoinTx = cfg.funding_tx.as_ref().unwrap();
        proof {
            assert(funding@ == cfg@.funding_tx->0);
        }
        let n = cfg.validators.len();
        let mut i: usize = 0;
        while i < n
            invariant
                self.wf(),
                cfg.wf(),
                cfg.funding_tx is Some,
                funding@ == cfg@.funding_tx->0,
                tx_wf(funding@),
                n == cfg@.validators.len(),
                i <= n,
                self@.known_addresses == s1.known_addresses,
                self@.known_signatures == s1.known_signatures,
                self@.sig_lists == s1.sig_lists,
                self@.configs == s1.configs,
                self@.height == s1.height,
                forall|j: int|
                    0 <= j < i ==> lects_of(self@.slots, #[trigger] cfg@.validators[j]) == lects_of(
                        s1.slots,
                        cfg@.validators[j],
                    ).push(genesis_lect(cfg@)),
                forall|k: Seq<u8>|
                    !(exists|j: int| 0 <= j < i && cfg@.validators[j] == k) ==> lects_of(
                        self@.slots,
                        k,
                    ) == lects_of(s1.slots, k),
                i > 0 ==> known_tx_lookup(self@.known_txs, txid_of(cfg@.funding_tx->0))
                    == Option::Some(cfg@.funding_tx->0),
                forall|t: Seq<u8>|
                    t != txid_of(cfg@.funding_tx->0) ==> known_tx_lookup(self@.known_txs, t)
                        == known_tx_lookup(s1.known_txs, t),
            decreases n - i,
        {
            let ghost sp = self@;
            let key = &cfg.validators[i];
            proof {
                assert(cfg@.validators[i as int] == cfg.validators@[i as int]@);
                lemma_add_lect_effect(sp, cfg@.validators[i as int], funding@, crate::types::zero_hash());
            }
            self.add_lect(key, funding.duplicate(), Hash256::zero());
            proof {
                assert forall|j: int| 0 <= j < i + 1 implies lects_of(
                    self@.slots,
                    #[trigger] cfg@.validators[j],
                ) == lects_of(s1.slots, cfg@.validators[j]).push(genesis_lect(cfg@)) by {
                    if j < i {
                        assert(cfg@.validators[j] != cfg@.validators[i as int]);
                    } else {
                        assert(!(exists|m: int|
                            0 <= m < i && cfg@.validators[m] == cfg@.validators[i as int]));
                    }
                }
            }
            i += 1;
        }
        proof {
            assert forall|k: Seq<u8>| !cfg@.validators.contains(k) implies lects_of(
                self@.slots,
                k,
            ) == lects_of(s1.slots, k) by {
                assert(!(exists|j: int| 0 <= j < n && cfg@.validators[j] == k));
            }
        }
    }

    /// Where in the validator's log the transaction with this id was
    /// reported, if it ever was.
    pub fn find_lect_position(&self, validator_key: &PublicKey, txid: &TxId) -> (r: Option<u64>)
        requires
            self.wf(),
        ensures
            r == index_lookup(indexes_of(self@.slots, validator_key@), txid@),
    {
        match self.find_slot(validator_key) {
            Option::Some(i) => {
                proof {
                    assert(self@.slots[i as int] == self.slots@[i as int]@);
                }
                match self.slots[i].find_index_row(txid) {
                    Option::Some(p) => {
                        proof {
                            assert(indexes_of(self@.slots, validator_key@)[p as int]
                                == self.slots@[i as int].indexes@[p as int]@);
                        }
                        Option::Some(self.slots[i].indexes[p].position)
                    },
                    Option::None => Option::None,
                }
            },
            Option::None => Option::None,
        }
    }

    /// Appends a signature to its proposal's list, creating the list.
    fn append_sig_list(&mut self, msg: MsgAnchoringSignature)
        requires
            sig_lists_unique(old(self)@.sig_lists),
            msg.wf(),
        ensures
            final(self)@ == (SchemaV {
                sig_lists: push_sig(old(self)@.sig_lists, msg@),
                ..old(self)@
            }),
            sig_lists_unique(final(self)@.sig_lists),
    {
        let ghost ls0 = self@.sig_lists;
        let ghost mv = msg@;
        let mut i: usize = 0;
        while i < self.sig_lists.len()
            invariant
                self@ == old(self)@,
                ls0 == self@.sig_lists,
                sig_lists_unique(ls0),
                mv == msg@,
                i <= self.sig_lists.len(),
                forall|k: int| 0 <= k < i ==> (#[trigger] ls0[k]).txid != mv.txid,
            decreases self.sig_lists.len() - i,
        {
            proof {
                assert(ls0[i as int] == self.sig_lists@[i as int]@);
            }
            if bytes_eq(&self.sig_lists[i].txid.bytes, &msg.txid.bytes) {
                proof {
                    lemma_sig_list_at(ls0, mv.txid, i as int);
                }
                self.sig_lists[i].msgs.push(msg);
                proof {
                    assert(self@.sig_lists[i as int].msgs =~= ls0[i as int].msgs.push(mv));
                    assert(self@.sig_lists =~= push_sig(ls0, mv));
                    assert(self@ =~= (SchemaV { sig_lists: push_sig(ls0, mv), ..old(self)@ }));
                    assert forall|a: int, b: int|
                        0 <= a < b < self@.sig_lists.len() implies (
                    #[trigger] self@.sig_lists[a].txid) != (#[trigger] self@.sig_lists[b].txid) by {
                        assert(ls0[a].txid != ls0[b].txid);
                    }
                }
                return ;
            }
            i += 1;
        }
        proof {
            assert(!has_sig_list(ls0, mv.txid));
        }
        let txid = msg.txid.duplicate();
        let mut msgs: Vec<MsgAnchoringSignature> = Vec::new();
        msgs.push(msg);
        let list = SignatureList { txid, msgs };
        proof {
            assert(list@.msgs =~= seq![mv]);
        }
        self.sig_lists.push(list);
        proof {
            assert(self@.sig_lists =~= push_sig(ls0, mv));
            assert(self@ =~= (SchemaV { sig_lists: push_sig(ls0, mv), ..old(self)@ }));
            assert forall|a: int, b: int| 0 <= a < b < self@.sig_lists.len() implies (
            #[trigger] self@.sig_lists[a].txid) != (#[trigger] self@.sig_lists[b].txid) by {
                if b < ls0.len() {
                    assert(ls0[a].txid != ls0[b].txid);
                } else {
                    assert(ls0[a].txid != mv.txid);
                }
            }
        }
    }

    /// Accepts a validator's partial signature. The first submission under
    /// a given (txid, validator, input) key is stored, both in the
    /// proposal's list and in the key registry; any later submission under
    /// the same key is discarded, whatever its signature bytes.
    pub fn add_known_signature(&mut self, msg: MsgAnchoringSignature)
        requires
            old(self).wf(),
            msg.wf(),
        ensures
            final(self).wf(),
            final(self)@ == spec_add_known_signature(old(self)@, msg@),
    {
        let ghost s0 = self@;
        let ghost mv = msg@;
        let mut i: usize = 0;
        while i < self.known_signatures.len()
            invariant
                self@ == s0,
                schema_wf(s0),
                mv == msg@,
                i <= self.known_signatures.len(),
                forall|k: int|
                    0 <= k < i ==> !sig_key_matches(#[trigger] s0.known_signatures[k], mv),
            decreases self.known_signatures.len() - i,
        {
            proof {
                assert(s0.known_signatures[i as int] == self.known_signatures@[i as int]@);
            }
            let m = &self.known_signatures[i];
            if m.validator == msg.validator && m.input == msg.input && bytes_eq(
                &m.txid.bytes,
                &msg.txid.bytes,
            ) {
                proof {
                    assert(sig_key_matches(s0.known_signatures[i as int], mv));
                    assert(has_sig_key(s0.known_signatures, mv));
                }
                return ;
            }
            i += 1;
        }
        proof {
            assert(!has_sig_key(s0.known_signatures, mv));
        }
        let registered = msg.duplicate();
        self.append_sig_list(msg);
        self.known_signatures.push(registered);
        proof {
            assert(self@.known_signatures =~= s0.known_signatures.push(mv));
            assert(self@ =~= spec_add_known_signature(s0, mv));
            let ks = self@.known_signatures;
            assert forall|a: int, b: int| 0 <= a < b < ks.len() implies !sig_key_matches(
                ks[a],
                ks[b],
            ) by {
                if b < s0.known_signatures.len() {
                    assert(!sig_key_matches(s0.known_signatures[a], s0.known_signatures[b]));
                } else {
                    assert(!sig_key_matches(s0.known_signatures[a], mv));
                }
            }
        }
    }

    /// Accepts a partial signature only if its validator index resolves
    /// against the given active configuration; a signature from outside
    /// the validator set is rejected without any state change. Returns
    /// whether the message was taken in.
    pub fn accept_signature(&mut self, cfg: &AnchoringConfig, msg: MsgAnchoringSignature) -> (r:
        bool)
        requires
            old(self).wf(),
            cfg.wf(),
            msg.wf(),
        ensures
            final(self).wf(),
            r == (msg@.validator < cfg@.validators.len()),
            r ==> final(self)@ == spec_add_known_signature(old(self)@, msg@),
            !r ==> final(self)@ == old(self)@,
    {
        if (msg.validator as usize) < cfg.validators.len() {
            self.add_known_signature(msg);
            true
        } else {
            false
        }
    }

    /// A copy of the signatures collected for the proposal with this txid,
    /// in arrival order.
    pub fn signatures(&self, txid: &TxId) -> (r: Vec<MsgAnchoringSignature>)
        requires
            self.wf(),
        ensures
            r@.map_values(|m: MsgAnchoringSignature| m@) == sigs_of(self@.sig_lists, txid@),
    {
        let mut i: usize = 0;
        while i < self.sig_lists.len()
            invariant
                self.wf(),
                i <= self.sig_lists.len(),
                forall|k: int| 0 <= k < i ==> (#[trigger] self@.sig_lists[k]).txid != txid@,
            decreases self.sig_lists.len() - i,
        {
            proof {
                assert(self@.sig_lists[i as int] == self.sig_lists@[i as int]@);
            }
            if bytes_eq(&self.sig_lists[i].txid.bytes, &txid.bytes) {
                proof {
                    lemma_sig_list_at(self@.sig_lists, txid@, i as int);
                }
                let ghost msgs = sigs_of(self@.sig_lists, txid@);
                let mut out: Vec<MsgAnchoringSignature> = Vec::new();
                let mut j: usize = 0;
                while j < self.sig_lists[i].msgs.len()
                    invariant
                        self.wf(),
                        i < self.sig_lists@.len(),
                        msgs == self.sig_lists@[i as int]@.msgs,
                        j <= self.sig_lists@[i as int]@.msgs.len(),
                        out@.len() == j,
                        forall|k: int| 0 <= k < j ==> (#[trigger] out@[k])@ == msgs[k],
                    decreases self.sig_lists[i as int].msgs.len() - j,
                {
                    proof {
                        assert(msgs[j as int] == self.sig_lists@[i as int].msgs@[j as int]@);
                    }
                    out.push(self.sig_lists[i].msgs[j].duplicate());
                    j += 1;
                }
                proof {
                    assert(out@.map_values(|m: MsgAnchoringSignature| m@) =~= msgs);
                }
                return out;
            }
            i += 1;
        }
        proof {
            assert(!has_sig_list(self@.sig_lists, txid@));
        }
        let out: Vec<MsgAnchoringSignature> = Vec::new();
        proof {
            assert(out@.map_values(|m: MsgAnchoringSignature| m@) =~= sigs_of(
                self@.sig_lists,
                txid@,
            ));
        }
        out
    }

    /// A copy of the uniqueness-key registry: every stored signature, in
    /// registration order.
    pub fn known_signatures(&self) -> (r: Vec<MsgAnchoringSignature>)
        requires
            self.wf(),
        ensures
            r@.map_values(|m: MsgAnchoringSignature| m@) == self@.known_signatures,
    {
        let mut out: Vec<MsgAnchoringSignature> = Vec::new();
        let mut i: usize = 0;
        while i < self.known_signatures.len()
            invariant
                self.wf(),
                i <= self.known_signatures.len(),
                out@.len() == i,
                forall|k: int| 0 <= k < i ==> (#[trigger] out@[k])@ == self@.known_signatures[k],
            decreases self.known_signatures.len() - i,
        {
            proof {
                assert(self@.known_signatures[i as int] == self.known_signatures@[i as int]@);
            }
            out.push(self.known_signatures[i].duplicate());
            i += 1;
        }
        proof {
            assert(out@.map_values(|m: MsgAnchoringSignature| m@) =~= self@.known_signatures);
        }
        out
    }

    /// A copy of the known-transaction registry.
    pub fn known_txs(&self) -> (r: Vec<KnownTxEntry>)
        requires
            self.wf(),
        ensures
            r@.map_values(|k: KnownTxEntry| k@) == self@.known_txs,
    {
        let mut out: Vec<KnownTxEntry> = Vec::new();
        let mut i: usize = 0;
        while i < self.known_txs.len()
            invariant
                self.wf(),
                i <= self.known_txs.len(),
                out@.len() == i,
                forall|k: int| 0 <= k < i ==> (#[trigger] out@[k])@ == self@.known_txs[k],
            decreases self.known_txs.len() - i,
        {
            proof {
                assert(self@.known_txs[i as int] == self.known_txs@[i as int]@);
            }
            let e = &self.known_txs[i];
            out.push(KnownTxEntry { txid: e.txid.duplicate(), tx: e.tx.duplicate() });
            i += 1;
        }
        proof {
            assert(out@.map_values(|k: KnownTxEntry| k@) =~= self@.known_txs);
        }
        out
    }

    /// A copy of the known-address registry: each anchoring address payload
    /// the service has controlled, in registration order.
    pub fn known_addresses(&self) -> (r: Vec<Vec<u8>>)
        requires
            self.wf(),
        ensures
            r@.map_values(|a: Vec<u8>| a@) == self@.known_addresses,
    {
        let mut out: Vec<Vec<u8>> = Vec::new();
        let mut i: usize = 0;
        while i < self.known_addresses.len()
            invariant
                self.wf(),
                i <= self.known_addresses.len(),
                out@.len() == i,
                forall|k: int| 0 <= k < i ==> (#[trigger] out@[k])@ == self@.known_addresses[k],
            decreases self.known_addresses.len() - i,
        {
            proof {
                assert(self@.known_addresses[i as int] == self.known_addresses@[i as int]@);
            }
            out.push(crate::types::bytes_dup(&self.known_addresses[i]));
            i += 1;
        }
        proof {
            assert(out@.map_values(|a: Vec<u8>| a@) =~= self@.known_addresses);
        }
        out
    }
}

/// The one failure the schema surfaces: no configuration is active yet.
/// An anchoring service without a valid configuration cannot safely build
/// transactions, so callers must treat this as fatal.
#[derive(Clone, Copy, Debug, PartialEq, Eq, Structural)]
pub enum SchemaError {
    ConfigMissing,
}

impl AnchoringSchema {
    /// Advances the schema's view of the ledger height. Heights only grow.
    pub fn set_height(&mut self, height: u64)
        requires
            old(self).wf(),
            height >= old(self)@.height,
        ensures
            final(self).wf(),
            final(self)@ == (SchemaV { height, ..old(self)@ }),
    {
        self.height = height;
        proof {
            assert(self@ =~= (SchemaV { height, ..old(self)@ }));
        }
    }

    /// Records a configuration activating at the given height. Activation
    /// heights strictly increase across commits.
    pub fn commit_anchoring_config(&mut self, actual_from: u64, cfg: AnchoringConfig)
        requires
            old(self).wf(),
            cfg.wf(),
            old(self)@.configs.len() > 0 ==> actual_from > old(self)@.configs.last().actual_from,
        ensures
            final(self).wf(),
            final(self)@ == (SchemaV {
                configs: old(self)@.configs.push(ConfigEntryV { actual_from, cfg: cfg@ }),
                ..old(self)@
            }),
    {
        let ghost cs0 = self@.configs;
        self.configs.push(ConfigEntry { actual_from, cfg });
        proof {
            assert(self@.configs =~= cs0.push(ConfigEntryV { actual_from, cfg: cfg@ }));
            assert(self@ =~= (SchemaV {
                configs: cs0.push(ConfigEntryV { actual_from, cfg: cfg@ }),
                ..old(self)@
            }));
            let cs = self@.configs;
            assert forall|i: int, j: int| 0 <= i < j < cs.len() implies (
            #[trigger] cs[i]).actual_from < (#[trigger] cs[j]).actual_from by {
                if j < cs0.len() {
                    assert(cs0[i].actual_from < cs0[j].actual_from);
                } else if cs0.len() > 0 && i < cs0.len() - 1 {
                    assert(cs0[i].actual_from < cs0[cs0.len() - 1].actual_from);
                }
            }
        }
    }

    /// The configuration active at the given ledger height: the one with
    /// the largest activation height not above it.
    pub fn anchoring_config_by_height(&self, height: u64) -> (r: Result<
        AnchoringConfig,
        SchemaError,
    >)
        requires
            self.wf(),
        ensures
            ({
                let cs = self@.configs;
                match r {
                    Result::Ok(c) => config_wf(c@) && exists|i: int|
                        0 <= i < cs.len() && (#[trigger] cs[i]).actual_from <= height && c@
                            == cs[i].cfg && (forall|j: int|
                            i < j < cs.len() ==> (#[trigger] cs[j]).actual_from > height),
                    Result::Err(e) => e == SchemaError::ConfigMissing && forall|i: int|
                        0 <= i < cs.len() ==> (#[trigger] cs[i]).actual_from > height,
                }
            }),
    {
        let ghost cs = self@.configs;
        let mut i: usize = self.configs.len();
        while i > 0
            invariant
                self.wf(),
                cs == self@.configs,
                i <= cs.len(),
                forall|j: int| i <= j < cs.len() ==> (#[trigger] cs[j]).actual_from > height,
            decreases i,
        {
            i -= 1;
            proof {
                assert(cs[i as int] == self.configs@[i as int]@);
            }
            if self.configs[i].actual_from <= height {
                return Result::Ok(self.configs[i].cfg.duplicate());
            }
        }
        Result::Err(SchemaError::ConfigMissing)
    }

    /// The configuration active at the schema's current height.
    pub fn current_anchoring_config(&self) -> (r: Result<AnchoringConfig, SchemaError>)
        requires
            self.wf(),
        ensures
            ({
                let cs = self@.configs;
                let h = self@.height;
                match r {
                    Result::Ok(c) => config_wf(c@) && exists|i: int|
                        0 <= i < cs.len() && (#[trigger] cs[i]).actual_from <= h && c@ == cs[i].cfg
                            && (forall|j: int|
                            i < j < cs.len() ==> (#[trigger] cs[j]).actual_from > h),
                    Result::Err(e) => e == SchemaError::ConfigMissing && forall|i: int|
                        0 <= i < cs.len() ==> (#[trigger] cs[i]).actual_from > h,
                }
            }),
    {
        self.anchoring_config_by_height(self.height)
    }

    /// The configuration scheduled to activate after the current height, if
    /// one has been committed.
    pub fn following_anchoring_config(&self) -> (r: Option<AnchoringConfig>)
        requires
            self.wf(),
        ensures
            ({
                let cs = self@.configs;
                let h = self@.height;
                match r {
                    Option::Some(c) => config_wf(c@) && exists|i: int|
                        0 <= i < cs.len() && (#[trigger] cs[i]).actual_from > h && c@ == cs[i].cfg
                            && (forall|j: int|
                            0 <= j < i ==> (#[trigger] cs[j]).actual_from <= h),
                    Option::None => forall|i: int|
                        0 <= i < cs.len() ==> (#[trigger] cs[i]).actual_from <= h,
                }
            }),
    {
        let ghost cs = self@.configs;
        let mut i: usize = 0;
        while i < self.configs.len()
            invariant
                self.wf(),
                cs == self@.configs,
                i <= cs.len(),
                forall|j: int| 0 <= j < i ==> (#[trigger] cs[j]).actual_from <= self@.height,
            decreases cs.len() - i,
        {
            proof {
                assert(cs[i as int] == self.configs@[i as int]@);
            }
            if self.configs[i].actual_from > self.height {
                return Option::Some(self.configs[i].cfg.duplicate());
            }
            i += 1;
        }
        Option::None
    }

    /// The configuration that was active before the current one, if the
    /// current one has a predecessor.
    pub fn previous_anchoring_config(&self) -> (r: Option<AnchoringConfig>)
        requires
            self.wf(),
        ensures
            ({
                let cs = self@.configs;
                let h = self@.height;
                match r {
                    Option::Some(c) => config_wf(c@) && exists|i: int|
                        0 <= i + 1 < cs.len() && (#[trigger] cs[i + 1]).actual_from <= h && c@
                            == cs[i].cfg && (forall|j: int|
                            i + 1 < j < cs.len() ==> (#[trigger] cs[j]).actual_from > h),
                    Option::None => forall|j: int|
                        1 <= j < cs.len() ==> (#[trigger] cs[j]).actual_from > h,
                }
            }),
    {
        let ghost cs = self@.configs;
        let mut i: usize = self.configs.len();
        while i > 0
            invariant
                self.wf(),
                cs == self@.configs,
                i <= cs.len(),
                forall|j: int| i <= j < cs.len() ==> (#[trigger] cs[j]).actual_from
                    > self@.height,
            decreases i,
        {
            i -= 1;
            proof {
                assert(cs[i as int] == self.configs@[i as int]@);
            }
            if self.configs[i].actual_from <= self.height {
                if i == 0 {
                    return Option::None;
                }
                proof {
                    assert(cs[i - 1] == self.configs@[i - 1]@);
                    let k = i as int - 1;
                    assert(cs[k + 1].actual_from <= self@.height);
                    assert(config_wf(cs[k].cfg));
                    assert(forall|j: int|
                        k + 1 < j < cs.len() ==> (#[trigger] cs[j]).actual_from > self@.height);
                }
                return Option::Some(self.configs[i - 1].cfg.duplicate());
            }
        }
        Option::None
    }
}

/// The validator's current lect content, if it reported any.
pub open spec fn last_lect(s: SchemaV, key: Seq<u8>) -> Option<TxV> {
    let log = lects_of(s.slots, key);
    if log.len() > 0 {
        Option::Some(log.last().tx)
    } else {
        Option::None
    }
}

/// How many of the given validators currently report this content as their
/// lect.
pub open spec fn vote_count(s: SchemaV, keys: Seq<Seq<u8>>, t: TxV) -> nat
    decreases keys.len(),
{
    if keys.len() == 0 {
        0
    } else {
        vote_count(s, keys.drop_last(), t) + (if last_lect(s, keys.last()) == Option::Some(t) {
            1nat
        } else {
            0nat
        })
    }
}

pub proof fn lemma_vote_count_le_len(s: SchemaV, keys: Seq<Seq<u8>>, t: TxV)
    ensures
        vote_count(s, keys, t) <= keys.len(),
    decreases keys.len(),
{
    if keys.len() > 0 {
        lemma_vote_count_le_len(s, keys.drop_last(), t);
    }
}

/// Each validator reports at most one lect, so two distinct contents split
/// the validator set between them.
pub proof fn lemma_vote_count_disjoint(s: SchemaV, keys: Seq<Seq<u8>>, t1: TxV, t2: TxV)
    requires
        t1 != t2,
    ensures
        vote_count(s, keys, t1) + vote_count(s, keys, t2) <= keys.len(),
    decreases keys.len(),
{
    if keys.len() > 0 {
        lemma_vote_count_disjoint(s, keys.drop_last(), t1, t2);
    }
}

/// Two distinct contents can never both reach the supermajority threshold:
/// thresholds above half the validator set cannot be met twice over
/// validators that each report a single lect.
pub proof fn lemma_consensus_unique(s: SchemaV, keys: Seq<Seq<u8>>, t1: TxV, t2: TxV)
    requires
        vote_count(s, keys, t1) >= crate::spec_majority_count(keys.len() as int),
        vote_count(s, keys, t2) >= crate::spec_majority_count(keys.len() as int),
    ensures
        t1 == t2,
{
    if t1 != t2 {
        lemma_vote_count_disjoint(s, keys, t1, t2);
        crate::lemma_majority_count_bounds(keys.len() as int);
    }
}

pub proof fn lemma_vote_count_step(s: SchemaV, keys: Seq<Seq<u8>>, t: TxV, i: int)
    requires
        0 <= i < keys.len(),
    ensures
        vote_count(s, keys.subrange(0, i + 1), t) == vote_count(s, keys.subrange(0, i), t) + (
        if last_lect(s, keys[i]) == Option::Some(t) {
            1int
        } else {
            0int
        }),
{
    let post = keys.subrange(0, i + 1);
    assert(post.drop_last() =~= keys.subrange(0, i));
    assert(post.last() == keys[i]);
}

/// One row of the running tally `collect_lects` keeps: a reported content
/// and how many validators currently report it.
struct TallyEntry {
    tx: BitcoinTx,
    count: u32,
}

#[verifier::ext_equal]
struct TallyV {
    tx: TxV,
    count: u32,
}

spec fn tv_of(e: TallyEntry) -> TallyV {
    TallyV { tx: e.tx@, count: e.count }
}

spec fn tally_has(ts: Seq<TallyV>, t: TxV) -> bool {
    exists|i: int| 0 <= i < ts.len() && ts[i].tx == t
}

spec fn tally_at(ts: Seq<TallyV>, t: TxV) -> int {
    choose|i: int| 0 <= i < ts.len() && ts[i].tx == t
}

spec fn tally_count(ts: Seq<TallyV>, t: TxV) -> nat {
    if tally_has(ts, t) {
        ts[tally_at(ts, t)].count as nat
    } else {
        0
    }
}

spec fn bump(ts: Seq<TallyV>, t: TxV) -> Seq<TallyV> {
    if tally_has(ts, t) {
        let i = tally_at(ts, t);
        ts.update(i, TallyV { tx: t, count: (ts[i].count + 1) as u32 })
    } else {
        ts.push(TallyV { tx: t, count: 1 })
    }
}

spec fn tally_unique(ts: Seq<TallyV>) -> bool {
    forall|i: int, j: int|
        0 <= i < j < ts.len() ==> (#[trigger] ts[i].tx) != (#[trigger] ts[j].tx)
}

proof fn lemma_tally_at(ts: Seq<TallyV>, t: TxV, i: int)
    requires
        tally_unique(ts),
        0 <= i < ts.len(),
        ts[i].tx == t,
    ensures
        tally_has(ts, t),
        tally_at(ts, t) == i,
{
    assert(tally_has(ts, t));
    let j = tally_at(ts, t);
    if i < j {
        assert(ts[i].tx != ts[j].tx);
    } else if j < i {
        assert(ts[j].tx != ts[i].tx);
    }
}

proof fn lemma_bump(ts: Seq<TallyV>, t: TxV)
    requires
        tally_unique(ts),
        forall|j: int| 0 <= j < ts.len() ==> (#[trigger] ts[j]).count < 0xffffffffu32,
    ensures
        tally_unique(bump(ts, t)),
        tally_count(bump(ts, t), t) == tally_count(ts, t) + 1,
        forall|u: TxV| u != t ==> tally_count(bump(ts, t), u) == tally_count(ts, u),
        forall|j: int|
            0 <= j < bump(ts, t).len() ==> (#[trigger] bump(ts, t)[j]).tx == t || (exists|k: int|
                0 <= k < ts.len() && bump(ts, t)[j].tx == (#[trigger] ts[k]).tx),
{
    let out = bump(ts, t);
    if tally_has(ts, t) {
        let i = tally_at(ts, t);
        assert forall|a: int, b: int| 0 <= a < b < out.len() implies (#[trigger] out[a].tx) != (
        #[trigger] out[b].tx) by {
            assert(ts[a].tx != ts[b].tx);
        }
        lemma_tally_at(out, t, i);
        assert forall|u: TxV| u != t implies tally_count(out, u) == tally_count(ts, u) by {
            if tally_has(ts, u) {
                let j = tally_at(ts, u);
                lemma_tally_at(ts, u, j);
                assert(j != i);
                assert(out[j].tx == u);
                lemma_tally_at(out, u, j);
            } else {
                if tally_has(out, u) {
                    let j = tally_at(out, u);
                    assert(out[j].tx == u);
                    assert(j != i);
                    assert(ts[j].tx == u);
                }
            }
        }
        assert forall|j: int| 0 <= j < out.len() implies (#[trigger] out[j]).tx == t || (exists|
            k: int,
        |
            0 <= k < ts.len() && out[j].tx == (#[trigger] ts[k]).tx) by {
            if j != i {
                assert(out[j].tx == ts[j].tx);
            }
        }
    } else {
        let i = ts.len() as int;
        assert forall|a: int, b: int| 0 <= a < b < out.len() implies (#[trigger] out[a].tx) != (
        #[trigger] out[b].tx) by {
            if b < ts.len() {
                assert(ts[a].tx != ts[b].tx);
            } else {
                assert(!(exists|k: int| 0 <= k < ts.len() && ts[k].tx == t));
                assert(ts[a].tx != t);
            }
        }
        lemma_tally_at(out, t, i);
        assert forall|u: TxV| u != t implies tally_count(out, u) == tally_count(ts, u) by {
            if tally_has(ts, u) {
                let j = tally_at(ts, u);
                lemma_tally_at(ts, u, j);
                assert(out[j].tx == u);
                lemma_tally_at(out, u, j);
            } else {
                if tally_has(out, u) {
                    let j = tally_at(out, u);
                    assert(out[j].tx == u);
                    assert(j < ts.len());
                }
            }
        }
        assert forall|j: int| 0 <= j < out.len() implies (#[trigger] out[j]).tx == t || (exists|
            k: int,
        |
            0 <= k < ts.len() && out[j].tx == (#[trigger] ts[k]).tx) by {
            if j < ts.len() {
                assert(out[j].tx == ts[j].tx);
            }
        }
    }
}

/// Counts one more report of content `t` in the running tally.
fn bump_tally(tally: &mut Vec<TallyEntry>, t: BitcoinTx)
    requires
        tally_unique(old(tally)@.map_values(|e: TallyEntry| tv_of(e))),
        forall|j: int| 0 <= j < old(tally)@.len() ==> (#[trigger] old(tally)@[j]).count
            < 0xffffffffu32,
        tx_wf(t@),
    ensures
        final(tally)@.map_values(|e: TallyEntry| tv_of(e)) == bump(
            old(tally)@.map_values(|e: TallyEntry| tv_of(e)),
            t@,
        ),
{
    let ghost tv0 = tally@.map_values(|e: TallyEntry| tv_of(e));
    let mut j: usize = 0;
    while j < tally.len()
        invariant
            tally@.map_values(|e: TallyEntry| tv_of(e)) == tv0,
            tally@ == old(tally)@,
            tally_unique(tv0),
            forall|k: int| 0 <= k < tv0.len() ==> (#[trigger] tv0[k]).count < 0xffffffffu32,
            j <= tally@.len(),
            forall|k: int| 0 <= k < j ==> (#[trigger] tv0[k]).tx != t@,
        decreases tally@.len() - j,
    {
        proof {
            assert(tv0[j as int] == tv_of(tally@[j as int]));
        }
        if tally[j].tx.same_as(&t) {
            proof {
                lemma_tally_at(tv0, t@, j as int);
            }
            let c = tally[j].count;
            tally[j].count = c + 1;
            proof {
                assert(tally@.map_values(|e: TallyEntry| tv_of(e)) =~= bump(tv0, t@));
            }
            return ;
        }
        j += 1;
    }
    proof {
        assert(!tally_has(tv0, t@));
    }
    tally.push(TallyEntry { tx: t, count: 1 });
    proof {
        assert(tally@.map_values(|e: TallyEntry| tv_of(e)) =~= bump(tv0, t@));
    }
}

impl AnchoringSchema {
    /// Resolves the validators' lect reports into the canonical anchoring
    /// transaction: the content that at least a supermajority of the
    /// configured validators currently report, or none while no content has
    /// reached that threshold. Reads only; never mutates storage.
    pub fn collect_lects(&self, cfg: &AnchoringConfig) -> (r: Option<BitcoinTx>)
        requires
            self.wf(),
            cfg.wf(),
        ensures
            ({
                let keys = cfg@.validators;
                let m = crate::spec_majority_count(keys.len() as int);
                match r {
                    Option::Some(t) => tx_wf(t@) && vote_count(self@, keys, t@) >= m && (forall|
                        u: TxV,
                    |
                        #[trigger] vote_count(self@, keys, u) <= vote_count(self@, keys, t@)),
                    Option::None => forall|u: TxV| #[trigger] vote_count(self@, keys, u) < m,
                }
            }),
    {
        let ghost keys = cfg@.validators;
        let n = cfg.validators.len();
        let mut tally: Vec<TallyEntry> = Vec::new();
        let ghost mut tv0 = tally@.map_values(|e: TallyEntry| tv_of(e));
        proof {
            assert(tv0 =~= Seq::<TallyV>::empty());
            assert forall|u: TxV| #[trigger] tally_count(tv0, u) == vote_count(
                self@,
                keys.subrange(0, 0),
                u,
            ) by {
                assert(keys.subrange(0, 0).len() == 0);
            }
        }
        let mut i: usize = 0;
        while i < n
            invariant
                self.wf(),
                cfg.wf(),
                keys == cfg@.validators,
                n == keys.len(),
                i <= n,
                tv0 == tally@.map_values(|e: TallyEntry| tv_of(e)),
                tally_unique(tv0),
                forall|j: int| 0 <= j < tv0.len() ==> tx_wf((#[trigger] tv0[j]).tx),
                forall|u: TxV|
                    #[trigger] tally_count(tv0, u) == vote_count(
                        self@,
                        keys.subrange(0, i as int),
                        u,
                    ),
            decreases n - i,
        {
            proof {
                assert(keys[i as int] == cfg.validators@[i as int]@);
            }
            let lopt = self.lect(&cfg.validators[i]);
            match lopt {
                Option::Some(t) => {
                    proof {
                        assert(last_lect(self@, keys[i as int]) == Option::Some(t@));
                        assert(tv0.len() == tally@.len());
                        assert forall|j: int| 0 <= j < tally@.len() implies (
                        #[trigger] tally@[j]).count < 0xffffffffu32 by {
                            assert(tv0[j] == tv_of(tally@[j]));
                            lemma_tally_at(tv0, tv0[j].tx, j);
                            assert(tally_count(tv0, tv0[j].tx) == tv0[j].count);
                            lemma_vote_count_le_len(self@, keys.subrange(0, i as int), tv0[j].tx);
                            assert(tv0[j].count <= keys.subrange(0, i as int).len());
                        }
                        lemma_bump(tv0, t@);
                    }
                    let ghost tvpre = tv0;
                    bump_tally(&mut tally, t);
                    proof {
                        let tvnew = tally@.map_values(|e: TallyEntry| tv_of(e));
                        assert(tvnew == bump(tvpre, t@));
                        assert forall|u: TxV| #[trigger] tally_count(tvnew, u) == vote_count(
                            self@,
                            keys.subrange(0, i + 1),
                            u,
                        ) by {
                            lemma_vote_count_step(self@, keys, u, i as int);
                            assert(tally_count(tvpre, u) == vote_count(
                                self@,
                                keys.subrange(0, i as int),
                                u,
                            ));
                            if u == t@ {
                                assert(tally_count(tvnew, u) == tally_count(tvpre, u) + 1);
                            } else {
                                assert(tally_count(tvnew, u) == tally_count(tvpre, u));
                            }
                        }
                        assert forall|j: int| 0 <= j < tvnew.len() implies tx_wf(
                            (#[trigger] tvnew[j]).tx,
                        ) by {
                            if tvnew[j].tx != t@ {
                                let k = choose|k: int|
                                    0 <= k < tvpre.len() && tvnew[j].tx == (#[trigger] tvpre[k]).tx;
                                assert(tx_wf(tvpre[k].tx));
                            }
                        }
                        tv0 = tvnew;
                    }
                },
                Option::None => {
                    proof {
                        assert(last_lect(self@, keys[i as int]) == Option::<TxV>::None);
                        assert forall|u: TxV| #[trigger] tally_count(tv0, u) == vote_count(
                            self@,
                            keys.subrange(0, i + 1),
                            u,
                        ) by {
                            lemma_vote_count_step(self@, keys, u, i as int);
                        }
                    }
                },
            }
            i += 1;
        }
        proof {
            assert(keys.subrange(0, n as int) =~= keys);
        }
        let ghost tv = tally@.map_values(|e: TallyEntry| tv_of(e));
        if tally.len() == 0 {
            proof {
                assert forall|u: TxV| #[trigger] vote_count(self@, keys, u) < crate::
                spec_majority_count(keys.len() as int) by {
                    assert(!tally_has(tv, u));
                    assert(tally_count(tv, u) == 0);
                }
            }
            return Option::None;
        }
        let mut best: usize = 0;
        let mut j: usize = 1;
        while j < tally.len()
            invariant
                tv == tally@.map_values(|e: TallyEntry| tv_of(e)),
                tally@.len() > 0,
                best < j,
                j <= tally@.len(),
                forall|k: int| 0 <= k < j ==> (#[trigger] tv[k]).count <= tv[best as int].count,
            decreases tally@.len() - j,
        {
            if tally[j].count > tally[best].count {
                best = j;
            }
            j += 1;
        }
        let threshold = crate::majority_count(n as u8);
        proof {
            assert forall|u: TxV| #[trigger] vote_count(self@, keys, u) <= tv[best as int].count
                as nat by {
                assert(tally_count(tv, u) == vote_count(self@, keys.subrange(0, i as int), u));
                assert(vote_count(self@, keys, u) == tally_count(tv, u));
                if tally_has(tv, u) {
                    let k = tally_at(tv, u);
                    assert(tally_count(tv, u) == tv[k].count as nat);
                    assert(tv[k].count <= tv[best as int].count);
                } else {
                    assert(tally_count(tv, u) == 0);
                }
            }
        }
        proof {
            assert(n <= 255);
            assert(tv[best as int] == tv_of(tally@[best as int]));
        }
        if tally[best].count >= threshold {
            proof {
                lemma_tally_at(tv, tv[best as int].tx, best as int);
                assert(tally_count(tv, tv[best as int].tx) == tv[best as int].count as nat);
                assert(tally_count(tv, tv[best as int].tx) == vote_count(
                    self@,
                    keys.subrange(0, i as int),
                    tv[best as int].tx,
                ));
                assert(vote_count(self@, keys, tv[best as int].tx) >= threshold);
            }
            Option::Some(tally[best].tx.duplicate())
        } else {
            Option::None
        }
    }
}

/// Whether some registered transaction spends an output of the transaction
/// with this id.
pub open spec fn spec_funding_consumed(ks: Seq<KnownTxV>, txid: Seq<u8>) -> bool {
    exists|i: int, j: int|
        0 <= i < ks.len() && 0 <= j < ks[i].tx.inputs.len() && (
        #[trigger] ks[i].tx.inputs[j]).prev_txid == txid
}

/// Encoding of one lect log entry: the origin hash, then the transaction.
pub open spec fn enc_lect_entry(c: LectContentV) -> Seq<u8> {
    c.msg_hash + crate::tx::enc_tx(c.tx)
}

/// Encoding of a whole lect log, oldest entry first.
pub open spec fn enc_lect_log(log: Seq<LectContentV>) -> Seq<u8>
    decreases log.len(),
{
    if log.len() == 0 {
        Seq::empty()
    } else {
        enc_lect_log(log.drop_last()) + enc_lect_entry(log.last())
    }
}

/// Serializes a lect log into its byte form.
fn encode_lect_log(log: &Vec<LectContent>) -> (r: Vec<u8>)
    requires
        forall|i: int| 0 <= i < log@.len() ==> tx_wf((#[trigger] log@[i])@.tx),
    ensures
        r@ == enc_lect_log(log@.map_values(|c: LectContent| c@)),
{
    let ghost lv = log@.map_values(|c: LectContent| c@);
    let mut out: Vec<u8> = Vec::new();
    let mut i: usize = 0;
    while i < log.len()
        invariant
            i <= log@.len(),
            lv == log@.map_values(|c: LectContent| c@),
            forall|k: int| 0 <= k < log@.len() ==> tx_wf((#[trigger] log@[k])@.tx),
            out@ == enc_lect_log(lv.subrange(0, i as int)),
        decreases log@.len() - i,
    {
        proof {
            assert(lv[i as int] == log@[i as int]@);
        }
        let entry = &log[i];
        crate::tx::push_bytes(&mut out, &entry.msg_hash.bytes);
        let encoded = entry.tx.encode();
        crate::tx::push_bytes(&mut out, &encoded);
        proof {
            let pre = lv.subrange(0, i as int);
            let post = lv.subrange(0, i + 1);
            assert(post.drop_last() =~= pre);
            assert(post.last() == lv[i as int]);
            assert(out@ =~= enc_lect_log(post));
        }
        i += 1;
    }
    proof {
        assert(lv.subrange(0, lv.len() as int) =~= lv);
    }
    out
}

impl AnchoringSchema {
    /// Whether the funding transaction with this id has already been spent
    /// by a transaction the schema knows.
    pub fn is_funding_consumed(&self, txid: &TxId) -> (r: bool)
        requires
            self.wf(),
        ensures
            r == spec_funding_consumed(self@.known_txs, txid@),
    {
        let mut i: usize = 0;
        while i < self.known_txs.len()
            invariant
                self.wf(),
                i <= self.known_txs.len(),
                forall|a: int, b: int|
                    0 <= a < i && 0 <= b < self@.known_txs[a].tx.inputs.len() ==> (
                    #[trigger] self@.known_txs[a].tx.inputs[b]).prev_txid != txid@,
            decreases self.known_txs.len() - i,
        {
            proof {
                assert(self@.known_txs[i as int] == self.known_txs@[i as int]@);
            }
            let tx = &self.known_txs[i].tx;
            let mut j: usize = 0;
            while j < tx.inputs.len()
                invariant
                    self.wf(),
                    i < self.known_txs@.len(),
                    tx@ == self@.known_txs[i as int].tx,
                    j <= tx@.inputs.len(),
                    forall|b: int| 0 <= b < j ==> (#[trigger] tx@.inputs[b]).prev_txid != txid@,
                decreases tx@.inputs.len() - j,
            {
                proof {
                    assert(tx@.inputs[j as int] == tx.inputs@[j as int]@);
                }
                if bytes_eq(&tx.inputs[j].prev_txid.bytes, &txid.bytes) {
                    proof {
                        assert((#[trigger] self@.known_txs[i as int].tx.inputs[j as int]).prev_txid
                            == txid@);
                    }
                    return true;
                }
                j += 1;
            }
            i += 1;
        }
        false
    }

    /// The funding transaction the chain builder may consume right now:
    /// the configured one, unless none is configured, it is itself the
    /// canonical lect, or a known transaction already spends it.
    pub fn available_funding_tx(&self, cfg: &AnchoringConfig, lect: &BitcoinTx) -> (r: Option<
        BitcoinTx,
    >)
        requires
            self.wf(),
            cfg.wf(),
            lect.wf(),
        ensures
            match r {
                Option::Some(f) => {
                    &&& cfg@.funding_tx == Option::Some(f@)
                    &&& tx_wf(f@)
                    &&& txid_of(f@) != txid_of(lect@)
                    &&& !spec_funding_consumed(self@.known_txs, txid_of(f@))
                },
                Option::None => cfg@.funding_tx is None || txid_of(cfg@.funding_tx->0) == txid_of(
                    lect@,
                ) || spec_funding_consumed(self@.known_txs, txid_of(cfg@.funding_tx->0)),
            },
    {
        match &cfg.funding_tx {
            Option::Some(f) => {
                let fid = f.id();
                let lect_id = lect.id();
                if fid.same_as(&lect_id) {
                    return Option::None;
                }
                if self.is_funding_consumed(&fid) {
                    return Option::None;
                }
                Option::Some(f.duplicate())
            },
            Option::None => Option::None,
        }
    }

    /// One digest per validator of the active configuration, each
    /// summarizing that validator's lect log, for the host ledger's state
    /// commitment.
    pub fn state_hash(&self) -> (r: Result<Vec<Hash256>, SchemaError>)
        requires
            self.wf(),
        ensures
            ({
                let cs = self@.configs;
                let h = self@.height;
                match r {
                    Result::Ok(hs) => exists|i: int|
                        0 <= i < cs.len() && (#[trigger] cs[i]).actual_from <= h && (forall|j: int|
                            i < j < cs.len() ==> (#[trigger] cs[j]).actual_from > h) && hs@.len()
                            == cs[i].cfg.validators.len() && (forall|v: int|
                            0 <= v < hs@.len() ==> (#[trigger] hs@[v])@ == crate::digest::sha256d_of(
                                enc_lect_log(lects_of(self@.slots, cs[i].cfg.validators[v])),
                            )),
                    Result::Err(e) => e == SchemaError::ConfigMissing && forall|i: int|
                        0 <= i < cs.len() ==> (#[trigger] cs[i]).actual_from > h,
                }
            }),
    {
        let cfg = match self.current_anchoring_config() {
            Result::Ok(c) => c,
            Result::Err(e) => {
                return Result::Err(e);
            },
        };
        let mut out: Vec<Hash256> = Vec::new();
        let mut v: usize = 0;
        while v < cfg.validators.len()
            invariant
                self.wf(),
                cfg.wf(),
                v <= cfg@.validators.len(),
                out@.len() == v,
                forall|k: int|
                    0 <= k < v ==> (#[trigger] out@[k])@ == crate::digest::sha256d_of(
                        enc_lect_log(lects_of(self@.slots, cfg@.validators[k])),
                    ),
            decreases cfg@.validators.len() - v,
        {
            proof {
                assert(cfg@.validators[v as int] == cfg.validators@[v as int]@);
            }
            let log = self.lects(&cfg.validators[v]);
            proof {
                let lv = log@.map_values(|c: LectContent| c@);
                let key = cfg@.validators[v as int];
                assert(lv == lects_of(self@.slots, key));
                assert forall|k: int| 0 <= k < log@.len() implies tx_wf(
                    (#[trigger] log@[k])@.tx,
                ) by {
                    assert(log@[k]@ == lv[k]);
                    if has_slot(self@.slots, key) {
                        let si = slot_index(self@.slots, key);
                        assert(0 <= si < self@.slots.len());
                        assert(lv == self@.slots[si].lects);
                        assert(lv[k] == self@.slots[si].lects[k]);
                        assert(tx_wf(self@.slots[si].lects[k].tx));
                    } else {
                        assert(lv.len() == 0);
                    }
                }
            }
            let encoded = encode_lect_log(&log);
            let digest = crate::digest::sha256d(&encoded);
            out.push(Hash256::new(digest));
            v += 1;
        }
        Result::Ok(out)
    }
}

/// The 40-byte storage key of a partial signature: its proposal's txid
/// followed by the validator and input indices, big-endian.
pub open spec fn known_signature_id_of(m: MsgSignatureV) -> Seq<u8> {
    m.txid + crate::tx::be32(m.validator) + crate::tx::be32(m.input)
}

/// The storage key a signature is registered under.
pub fn known_signature_id(msg: &MsgAnchoringSignature) -> (r: Vec<u8>)
    ensures
        r@ == known_signature_id_of(msg@),
{
    let mut id: Vec<u8> = Vec::new();
    crate::tx::push_bytes(&mut id, &msg.txid.bytes);
    crate::tx::push_be32(&mut id, msg.validator);
    crate::tx::push_be32(&mut id, msg.input);
    proof {
        assert(id@ =~= known_signature_id_of(msg@));
    }
    id
}

} // verus!
