//! Deterministic construction of the next transaction of the anchoring
//! chain. Given the canonical lect, the active configuration, and the
//! checkpoint to anchor, every validator must arrive at byte-identical
//! unsigned transactions — otherwise they could not co-sign one txid. A
//! *periodic* anchor spends the lect's output (plus an available funding
//! transaction) and advances the checkpoint; a *transition* anchor only
//! moves the funds to a changed redeem-script address, leaving the
//! checkpoint where it was, so anchoring pauses until the transition
//! confirms.

use vstd::prelude::*;

use crate::config::{addr_payload_of, AnchoringConfig, ConfigV};
use crate::tx::{enc_tx, tx_wf, txid_of, AnchoringPayload, BitcoinTx, PayloadV, TxInput, TxInputV, TxV};
use crate::types::Hash256;

verus! {

/// The transaction the chain rules prescribe. The first input always
/// spends the canonical lect's anchoring output. When the active address
/// differs from the lect's payout address, the result is a transition: one
/// input, the old checkpoint, the funds moved to the new address. Otherwise
/// it is a periodic anchor carrying the new checkpoint, consuming the
/// offered funding transaction as a second input when one is offered.
pub open spec fn spec_build(
    cfg: ConfigV,
    lect: TxV,
    target_height: u64,
    block_hash: Seq<u8>,
    funding: Option<TxV>,
) -> TxV {
    let addr = addr_payload_of(cfg.validators);
    let lect_input = TxInputV { prev_txid: txid_of(lect), prev_vout: 0 };
    if lect.payout != addr {
        TxV {
            inputs: seq![lect_input],
            output_value: (lect.output_value - cfg.fee) as u64,
            payout: addr,
            payload: lect.payload,
        }
    } else {
        match funding {
            Option::Some(f) => TxV {
                inputs: seq![
                    lect_input,
                    TxInputV { prev_txid: txid_of(f), prev_vout: 0 },
                ],
                output_value: (lect.output_value + f.output_value - cfg.fee) as u64,
                payout: addr,
                payload: PayloadV { block_height: target_height, block_hash },
            },
            Option::None => TxV {
                inputs: seq![lect_input],
                output_value: (lect.output_value - cfg.fee) as u64,
                payout: addr,
                payload: PayloadV { block_height: target_height, block_hash },
            },
        }
    }
}

/// Builds the next anchoring transaction after the given lect.
pub fn build_anchoring_tx(
    cfg: &AnchoringConfig,
    lect: &BitcoinTx,
    target_height: u64,
    block_hash: &Hash256,
    funding: Option<&BitcoinTx>,
) -> (r: BitcoinTx)
    requires
        cfg.wf(),
        lect.wf(),
        block_hash.wf(),
        cfg@.fee <= lect@.output_value,
        match funding {
            Option::Some(f) => f.wf() && lect@.output_value + f@.output_value <= u64::MAX,
            Option::None => true,
        },
    ensures
        r@ == spec_build(
            cfg@,
            lect@,
            target_height,
            block_hash@,
            match funding {
                Option::Some(f) => Option::Some(f@),
                Option::None => Option::<TxV>::None,
            },
        ),
        r.wf(),
{
    let (_script, addr) = cfg.redeem_script();
    let lect_id = lect.id();
    let is_transition = !lect.payout.same_as(&addr);
    let mut inputs: Vec<TxInput> = Vec::new();
    inputs.push(TxInput { prev_txid: lect_id, prev_vout: 0 });
    if is_transition {
        let r = BitcoinTx {
            inputs,
            output_value: lect.output_value - cfg.fee,
            payout: addr,
            payload: lect.payload.duplicate(),
        };
        proof {
            assert(r@.inputs =~= seq![
                TxInputV { prev_txid: txid_of(lect@), prev_vout: 0u32 },
            ]);
        }
        r
    } else {
        match funding {
            Option::Some(f) => {
                let funding_id = f.id();
                inputs.push(TxInput { prev_txid: funding_id, prev_vout: 0 });
                let r = BitcoinTx {
                    inputs,
                    output_value: lect.output_value + f.output_value - cfg.fee,
                    payout: addr,
                    payload: AnchoringPayload {
                        block_height: target_height,
                        block_hash: block_hash.duplicate(),
                    },
                };
                proof {
                    assert(r@.inputs =~= seq![
                        TxInputV { prev_txid: txid_of(lect@), prev_vout: 0u32 },
                        TxInputV { prev_txid: txid_of(f@), prev_vout: 0u32 },
                    ]);
                }
                r
            },
            Option::None => {
                let r = BitcoinTx {
                    inputs,
                    output_value: lect.output_value - cfg.fee,
                    payout: addr,
                    payload: AnchoringPayload {
                        block_height: target_height,
                        block_hash: block_hash.duplicate(),
                    },
                };
                proof {
                    assert(r@.inputs =~= seq![
                        TxInputV { prev_txid: txid_of(lect@), prev_vout: 0u32 },
                    ]);
                }
                r
            },
        }
    }
}

/// Chain construction is a function of its inputs alone: validators that
/// agree on the lect, the configuration, the checkpoint and the available
/// funding build byte-identical transactions, and so agree on the txid
/// they must co-sign. In particular, while nothing among those inputs
/// changes — as during a pending address transition — repeated builds
/// keep producing the same transaction.
pub proof fn lemma_build_deterministic(
    cfg1: ConfigV,
    cfg2: ConfigV,
    lect1: TxV,
    lect2: TxV,
    height1: u64,
    height2: u64,
    hash1: Seq<u8>,
    hash2: Seq<u8>,
    funding1: Option<TxV>,
    funding2: Option<TxV>,
)
    requires
        cfg1 == cfg2,
        lect1 == lect2,
        height1 == height2,
        hash1 == hash2,
        funding1 == funding2,
    ensures
        spec_build(cfg1, lect1, height1, hash1, funding1) == spec_build(
            cfg2,
            lect2,
            height2,
            hash2,
            funding2,
        ),
        enc_tx(spec_build(cfg1, lect1, height1, hash1, funding1)) == enc_tx(
            spec_build(cfg2, lect2, height2, hash2, funding2),
        ),
        txid_of(spec_build(cfg1, lect1, height1, hash1, funding1)) == txid_of(
            spec_build(cfg2, lect2, height2, hash2, funding2),
        ),
{
}

/// Chain continuity: a periodic anchor built after a canonical lect spends
/// that lect's anchoring output first — its previous-transaction reference
/// is the lect's id — and embeds exactly the checkpoint it was asked to
/// anchor, paid to the active redeem-script address.
pub proof fn lemma_chain_continuity(
    cfg: ConfigV,
    lect: TxV,
    target_height: u64,
    block_hash: Seq<u8>,
    funding: Option<TxV>,
)
    requires
        lect.payout == addr_payload_of(cfg.validators),
    ensures
        ({
            let t = spec_build(cfg, lect, target_height, block_hash, funding);
            &&& t.inputs.len() >= 1
            &&& t.inputs[0].prev_txid == txid_of(lect)
            &&& t.payload == (PayloadV { block_height: target_height, block_hash })
            &&& t.payout == addr_payload_of(cfg.validators)
        }),
{
}

/// A transition transaction consumes no funding: while the payout address
/// is changing, the built transaction spends only the previous anchoring
/// output, whatever funding is offered; once the transition has confirmed
/// and become the lect at the new address, the first periodic anchor takes
/// the funding transaction as its second input.
pub proof fn lemma_funding_consumption(
    cfg: ConfigV,
    lect: TxV,
    target_height: u64,
    block_hash: Seq<u8>,
    f: TxV,
)
    ensures
        lect.payout != addr_payload_of(cfg.validators) ==> {
            let t = spec_build(cfg, lect, target_height, block_hash, Option::Some(f));
            &&& t.inputs.len() == 1
            &&& t.inputs[0].prev_txid == txid_of(lect)
            &&& t.payload == lect.payload
        },
        lect.payout == addr_payload_of(cfg.validators) ==> {
            let t = spec_build(cfg, lect, target_height, block_hash, Option::Some(f));
            &&& t.inputs.len() == 2
            &&& t.inputs[0].prev_txid == txid_of(lect)
            &&& t.inputs[1].prev_txid == txid_of(f)
            &&& t.payload == (PayloadV { block_height: target_height, block_hash })
        },
{
}

} // verus!
