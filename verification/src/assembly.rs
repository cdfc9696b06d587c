//! Assembly of a fully-signed anchoring transaction from collected partial
//! signatures. Completeness is a derived predicate, recomputed from the
//! proposal's signature list: every input needs signatures from a
//! supermajority of distinct validators. When more validators than needed
//! have signed an input, the threshold-sized subset is chosen
//! deterministically: lowest validator index first.

use vstd::prelude::*;

use crate::tx::{BitcoinTx, MsgAnchoringSignature, MsgSignatureV};

verus! {

/// Whether some collected message signs this input on behalf of this
/// validator.
pub open spec fn has_sig_for(msgs: Seq<MsgSignatureV>, validator: u32, input: u32) -> bool {
    exists|i: int|
        0 <= i < msgs.len() && (#[trigger] msgs[i]).validator == validator && msgs[i].input
            == input
}

/// How many of the validators below `upto` have signed this input.
pub open spec fn sig_count(msgs: Seq<MsgSignatureV>, input: u32, upto: int) -> nat
    decreases upto,
{
    if upto <= 0 {
        0
    } else {
        sig_count(msgs, input, upto - 1) + (if has_sig_for(msgs, (upto - 1) as u32, input) {
            1nat
        } else {
            0nat
        })
    }
}

/// The validator indices whose signatures the assembled input carries:
/// walking validators from the lowest index up, every signer joins until
/// `want` slots are filled.
pub open spec fn chosen_validators(
    msgs: Seq<MsgSignatureV>,
    input: u32,
    upto: int,
    want: nat,
) -> Seq<u32>
    decreases upto,
{
    if upto <= 0 {
        Seq::empty()
    } else {
        let pre = chosen_validators(msgs, input, upto - 1, want);
        if pre.len() < want && has_sig_for(msgs, (upto - 1) as u32, input) {
            pre.push((upto - 1) as u32)
        } else {
            pre
        }
    }
}

/// An input is complete when a supermajority of distinct validators among
/// the first `n_validators` signed it.
pub open spec fn input_complete(
    msgs: Seq<MsgSignatureV>,
    input: u32,
    n_validators: int,
    threshold: int,
) -> bool {
    sig_count(msgs, input, n_validators) >= threshold
}

/// Where a proposed transaction stands in the signing state machine. The
/// state is derived from the collected signatures, never stored.
#[derive(Clone, Copy, Debug, PartialEq, Eq, Structural)]
pub enum ProposalState {
    Proposed,
    PartiallySigned,
    Complete,
}

/// A proposal together with, for each of its inputs, the deterministic
/// threshold-sized set of partial signatures that finishes it.
pub struct FinalizedTx {
    pub tx: BitcoinTx,
    pub input_signatures: Vec<Vec<MsgAnchoringSignature>>,
}

/// Whether validator `v` signed `input` in one of the collected messages.
fn find_sig(msgs: &Vec<MsgAnchoringSignature>, validator: u32, input: u32) -> (r: Option<usize>)
    ensures
        ({
            let mv = msgs@.map_values(|m: MsgAnchoringSignature| m@);
            match r {
                Option::Some(i) => i < mv.len() && mv[i as int].validator == validator
                    && mv[i as int].input == input && has_sig_for(mv, validator, input),
                Option::None => !has_sig_for(mv, validator, input),
            }
        }),
{
    let ghost mv = msgs@.map_values(|m: MsgAnchoringSignature| m@);
    let mut i: usize = 0;
    while i < msgs.len()
        invariant
            mv == msgs@.map_values(|m: MsgAnchoringSignature| m@),
            i <= msgs@.len(),
            forall|k: int|
                0 <= k < i ==> !((#[trigger] mv[k]).validator == validator && mv[k].input
                    == input),
        decreases msgs@.len() - i,
    {
        proof {
            assert(mv[i as int] == msgs@[i as int]@);
        }
        if msgs[i].validator == validator && msgs[i].input == input {
            return Option::Some(i);
        }
        i += 1;
    }
    Option::None
}

/// How many distinct validators among the first `n_validators` signed this
/// input.
pub fn input_sig_count(msgs: &Vec<MsgAnchoringSignature>, input: u32, n_validators: u8) -> (r:
    u32)
    ensures
        r == sig_count(
            msgs@.map_values(|m: MsgAnchoringSignature| m@),
            input,
            n_validators as int,
        ),
{
    let ghost mv = msgs@.map_values(|m: MsgAnchoringSignature| m@);
    let mut count: u32 = 0;
    let mut v: u32 = 0;
    while v < n_validators as u32
        invariant
            mv == msgs@.map_values(|m: MsgAnchoringSignature| m@),
            v <= n_validators as u32,
            count == sig_count(mv, input, v as int),
            count <= v,
        decreases n_validators as u32 - v,
    {
        if let Option::Some(_i) = find_sig(msgs, v, input) {
            count = count + 1;
        }
        v = v + 1;
    }
    count
}

/// The signatures that finish one input, lowest validator index first, at
/// most `threshold` of them, each one a collected message for this input.
pub fn collect_input_signatures(
    msgs: &Vec<MsgAnchoringSignature>,
    input: u32,
    n_validators: u8,
    threshold: u32,
) -> (r: Vec<MsgAnchoringSignature>)
    ensures
        ({
            let mv = msgs@.map_values(|m: MsgAnchoringSignature| m@);
            let picked = chosen_validators(mv, input, n_validators as int, threshold as nat);
            &&& r@.len() == picked.len()
            &&& forall|i: int|
                0 <= i < r@.len() ==> (#[trigger] r@[i])@.validator == picked[i] && r@[i]@.input
                    == input && mv.contains(r@[i]@)
        }),
{
    let ghost mv = msgs@.map_values(|m: MsgAnchoringSignature| m@);
    let mut out: Vec<MsgAnchoringSignature> = Vec::new();
    let mut v: u32 = 0;
    while v < n_validators as u32
        invariant
            mv == msgs@.map_values(|m: MsgAnchoringSignature| m@),
            v <= n_validators as u32,
            out@.len() <= threshold as nat,
            out@.len() == chosen_validators(mv, input, v as int, threshold as nat).len(),
            forall|i: int|
                0 <= i < out@.len() ==> (#[trigger] out@[i])@.validator == chosen_validators(
                    mv,
                    input,
                    v as int,
                    threshold as nat,
                )[i] && out@[i]@.input == input && mv.contains(out@[i]@),
        decreases n_validators as u32 - v,
    {
        let ghost pre = chosen_validators(mv, input, v as int, threshold as nat);
        if (out.len() as u32) < threshold {
            if let Option::Some(i) = find_sig(msgs, v, input) {
                proof {
                    assert(mv[i as int] == msgs@[i as int]@);
                    assert(mv.contains(mv[i as int]));
                }
                out.push(msgs[i].duplicate());
                proof {
                    assert(chosen_validators(mv, input, v as int + 1, threshold as nat)
                        == pre.push(v));
                }
            } else {
                proof {
                    assert(chosen_validators(mv, input, v as int + 1, threshold as nat) == pre);
                }
            }
        } else {
            proof {
                assert(chosen_validators(mv, input, v as int + 1, threshold as nat) == pre);
            }
        }
        v = v + 1;
    }
    out
}

/// Where the proposal with these collected signatures stands: complete
/// once every input carries a supermajority of distinct validator
/// signatures, untouched while no signature arrived, partially signed in
/// between.
pub fn signature_state(
    msgs: &Vec<MsgAnchoringSignature>,
    n_inputs: u32,
    n_validators: u8,
    threshold: u32,
) -> (r: ProposalState)
    ensures
        ({
            let mv = msgs@.map_values(|m: MsgAnchoringSignature| m@);
            let complete = forall|inp: u32|
                inp < n_inputs ==> input_complete(
                    mv,
                    inp,
                    n_validators as int,
                    threshold as int,
                );
            match r {
                ProposalState::Complete => complete,
                ProposalState::Proposed => !complete && msgs@.len() == 0,
                ProposalState::PartiallySigned => !complete && msgs@.len() > 0,
            }
        }),
{
    let ghost mv = msgs@.map_values(|m: MsgAnchoringSignature| m@);
    let mut inp: u32 = 0;
    while inp < n_inputs
        invariant
            mv == msgs@.map_values(|m: MsgAnchoringSignature| m@),
            inp <= n_inputs,
            forall|k: u32|
                k < inp ==> input_complete(mv, k, n_validators as int, threshold as int),
        decreases n_inputs - inp,
    {
        if input_sig_count(msgs, inp, n_validators) < threshold {
            proof {
                assert(!input_complete(mv, inp, n_validators as int, threshold as int));
            }
            if msgs.len() == 0 {
                return ProposalState::Proposed;
            }
            return ProposalState::PartiallySigned;
        }
        inp = inp + 1;
    }
    ProposalState::Complete
}

/// Assembles the finished transaction once every input is complete: for
/// each input, the threshold-sized, lowest-validator-first set of
/// collected signatures. None while any input still waits.
pub fn assemble_tx(
    tx: BitcoinTx,
    msgs: &Vec<MsgAnchoringSignature>,
    n_validators: u8,
    threshold: u32,
) -> (r: Option<FinalizedTx>)
    requires
        tx@.inputs.len() <= 0xffffffff,
    ensures
        ({
            let mv = msgs@.map_values(|m: MsgAnchoringSignature| m@);
            let n_inputs = tx@.inputs.len() as u32;
            let complete = forall|inp: u32|
                inp < n_inputs ==> input_complete(
                    mv,
                    inp,
                    n_validators as int,
                    threshold as int,
                );
            match r {
                Option::Some(f) => ({
                    &&& complete
                    &&& f.tx@ == tx@
                    &&& f.input_signatures@.len() == tx@.inputs.len()
                    &&& forall|inp: int|
                        0 <= inp < f.input_signatures@.len() ==> ({
                            let picked = chosen_validators(
                                mv,
                                inp as u32,
                                n_validators as int,
                                threshold as nat,
                            );
                            let ws = (#[trigger] f.input_signatures@[inp])@.map_values(
                                |m: MsgAnchoringSignature| m@,
                            );
                            &&& ws.len() == picked.len()
                            &&& forall|i: int|
                                0 <= i < ws.len() ==> (#[trigger] ws[i]).validator == picked[i]
                                    && ws[i].input == inp as u32 && mv.contains(ws[i])
                        })
                }),
                Option::None => !complete,
            }
        }),
{
    let ghost mv = msgs@.map_values(|m: MsgAnchoringSignature| m@);
    let n_inputs = tx.inputs.len() as u32;
    match signature_state(msgs, n_inputs, n_validators, threshold) {
        ProposalState::Complete => {
            let mut input_signatures: Vec<Vec<MsgAnchoringSignature>> = Vec::new();
            let mut inp: u32 = 0;
            while inp < n_inputs
                invariant
                    mv == msgs@.map_values(|m: MsgAnchoringSignature| m@),
                    inp <= n_inputs,
                    input_signatures@.len() == inp,
                    forall|k: int|
                        0 <= k < inp ==> ({
                            let picked = chosen_validators(
                                mv,
                                k as u32,
                                n_validators as int,
                                threshold as nat,
                            );
                            let ws = (#[trigger] input_signatures@[k])@.map_values(
                                |m: MsgAnchoringSignature| m@,
                            );
                            &&& ws.len() == picked.len()
                            &&& forall|i: int|
                                0 <= i < ws.len() ==> (#[trigger] ws[i]).validator == picked[i]
                                    && ws[i].input == k as u32 && mv.contains(ws[i])
                        }),
                decreases n_inputs - inp,
            {
                let sigs = collect_input_signatures(msgs, inp, n_validators, threshold);
                proof {
                    let ws = sigs@.map_values(|m: MsgAnchoringSignature| m@);
                    assert forall|i: int| 0 <= i < ws.len() implies (#[trigger] ws[i]).validator
                        == chosen_validators(mv, inp as u32, n_validators as int, threshold as nat)[i]
                        && ws[i].input == inp as u32 && mv.contains(ws[i]) by {
                        assert(ws[i] == sigs@[i]@);
                    }
                }
                input_signatures.push(sigs);
                inp = inp + 1;
            }
            Option::Some(FinalizedTx { tx, input_signatures })
        },
        ProposalState::Proposed => Option::None,
        ProposalState::PartiallySigned => Option::None,
    }
}

} // verus!
