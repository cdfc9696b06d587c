//! The anchoring configuration: the ordered validator set, the optional
//! funding transaction that tops up the anchoring wallet, and the fee each
//! anchoring transaction pays. The redeem script — the threshold multisig
//! script over the validator keys — and its pay-to-script-hash address are
//! derived deterministically from the validator set alone.

use vstd::prelude::*;

use crate::digest::{hash160, hash160_of};
use crate::spec_majority_count;
use crate::tx::{tx_wf, BitcoinTx, TxV};
use crate::types::{Address, PublicKey};

verus! {

/// Version byte that prefixes a pay-to-script-hash address payload.
pub const ADDRESS_VERSION: u8 = 5;

/// Marker that ends the redeem script, after the key count.
pub const SCRIPT_CHECKMULTISIG: u8 = 0xae;

/// The validator keys laid out back to back, in validator order.
pub open spec fn concat_keys(keys: Seq<Seq<u8>>) -> Seq<u8>
    decreases keys.len(),
{
    if keys.len() == 0 {
        Seq::empty()
    } else {
        concat_keys(keys.drop_last()) + keys.last()
    }
}

/// The redeem script over a validator set: the signature threshold, the
/// keys in order, the key count, and the closing multisig marker.
pub open spec fn script_of(keys: Seq<Seq<u8>>) -> Seq<u8> {
    seq![spec_majority_count(keys.len() as int) as u8] + concat_keys(keys) + seq![
        keys.len() as u8,
        SCRIPT_CHECKMULTISIG,
    ]
}

/// The address payload the redeem script pays to: the address version byte
/// followed by the script's hash160.
pub open spec fn addr_payload_of(keys: Seq<Seq<u8>>) -> Seq<u8> {
    seq![ADDRESS_VERSION] + hash160_of(script_of(keys))
}

/// One activated anchoring configuration.
pub struct AnchoringConfig {
    pub validators: Vec<PublicKey>,
    pub funding_tx: Option<BitcoinTx>,
    pub fee: u64,
}

#[verifier::ext_equal]
pub struct ConfigV {
    pub validators: Seq<Seq<u8>>,
    pub funding_tx: Option<TxV>,
    pub fee: u64,
}

impl View for AnchoringConfig {
    type V = ConfigV;

    open spec fn view(&self) -> ConfigV {
        ConfigV {
            validators: self.validators@.map_values(|k: PublicKey| k@),
            funding_tx: match self.funding_tx {
                Option::Some(t) => Option::Some(t@),
                Option::None => Option::None,
            },
            fee: self.fee,
        }
    }
}

pub open spec fn config_wf(c: ConfigV) -> bool {
    &&& 1 <= c.validators.len() <= 255
    &&& forall|i: int| 0 <= i < c.validators.len() ==> (#[trigger] c.validators[i]).len() == 33
    &&& forall|i: int, j: int|
        0 <= i < j < c.validators.len() ==> c.validators[i] != c.validators[j]
    &&& match c.funding_tx {
        Option::Some(t) => tx_wf(t),
        Option::None => true,
    }
}

impl AnchoringConfig {
    pub open spec fn wf(&self) -> bool {
        config_wf(self@)
    }

    pub fn new(validators: Vec<PublicKey>, funding_tx: Option<BitcoinTx>, fee: u64) -> (r:
        AnchoringConfig)
        ensures
            r@.validators == validators@.map_values(|k: PublicKey| k@),
            r@.funding_tx == (match funding_tx {
                Option::Some(t) => Option::Some(t@),
                Option::None => Option::<TxV>::None,
            }),
            r@.fee == fee,
    {
        AnchoringConfig { validators, funding_tx, fee }
    }

    /// The signature threshold of this validator set.
    pub fn majority_count(&self) -> (r: u32)
        requires
            self.wf(),
        ensures
            r == spec_majority_count(self@.validators.len() as int),
    {
        crate::majority_count(self.validators.len() as u8)
    }

    /// The redeem script over the validator set, and the address it pays to.
    pub fn redeem_script(&self) -> (r: (Vec<u8>, Address))
        requires
            self.wf(),
        ensures
            r.0@ == script_of(self@.validators),
            r.1@ == addr_payload_of(self@.validators),
            r.1.wf(),
    {
        let ghost keys = self@.validators;
        let m = crate::majority_count(self.validators.len() as u8);
        proof {
            crate::lemma_majority_count_bounds(keys.len() as int);
        }
        let mut script: Vec<u8> = Vec::new();
        script.push(m as u8);
        let mut i: usize = 0;
        while i < self.validators.len()
            invariant
                i <= self.validators.len(),
                keys == self@.validators,
                self.wf(),
                script@ == seq![spec_majority_count(keys.len() as int) as u8] + concat_keys(
                    keys.subrange(0, i as int),
                ),
            decreases self.validators.len() - i,
        {
            proof {
                assert(keys[i as int] == self.validators@[i as int]@);
            }
            crate::tx::push_bytes(&mut script, &self.validators[i].bytes);
            proof {
                let pre = keys.subrange(0, i as int);
                let post = keys.subrange(0, i + 1);
                assert(post.drop_last() =~= pre);
                assert(post.last() == keys[i as int]);
                assert(script@ =~= seq![spec_majority_count(keys.len() as int) as u8]
                    + concat_keys(post));
            }
            i += 1;
        }
        proof {
            assert(keys.subrange(0, keys.len() as int) =~= keys);
        }
        script.push(self.validators.len() as u8);
        script.push(SCRIPT_CHECKMULTISIG);
        proof {
            assert(script@ =~= script_of(keys));
        }
        let script_hash = hash160(&script);
        let mut payload: Vec<u8> = Vec::new();
        payload.push(ADDRESS_VERSION);
        crate::tx::push_bytes(&mut payload, &script_hash);
        proof {
            assert(payload@ =~= addr_payload_of(keys));
        }
        (script, Address::new(payload))
    }

    pub fn duplicate(&self) -> (r: AnchoringConfig)
        ensures
            r@ == self@,
    {
        let mut validators: Vec<PublicKey> = Vec::new();
        let mut i: usize = 0;
        while i < self.validators.len()
            invariant
                i <= self.validators.len(),
                validators@.len() == i,
                forall|j: int| 0 <= j < i ==> #[trigger] validators@[j]@ == self.validators@[j]@,
            decreases self.validators.len() - i,
        {
            validators.push(self.validators[i].duplicate());
            i += 1;
        }
        let funding_tx = match &self.funding_tx {
            Option::Some(t) => Option::Some(t.duplicate()),
            Option::None => Option::None,
        };
        let r = AnchoringConfig { validators, funding_tx, fee: self.fee };
        proof {
            assert forall|j: int| 0 <= j < r@.validators.len() implies r@.validators[j]
                == self@.validators[j] by {
                assert(r@.validators[j] == validators@[j]@);
                assert(self@.validators[j] == self.validators@[j]@);
            }
            assert(r@.validators =~= self@.validators);
            assert(r@ =~= self@);
        }
        r
    }
}

} // verus!
