use btc_anchoring::assembly::{
    assemble_tx, collect_input_signatures, input_sig_count, signature_state, ProposalState,
};
use btc_anchoring::config::AnchoringConfig;
use btc_anchoring::majority_count;
use btc_anchoring::schema::{known_signature_id, AnchoringSchema, SchemaError};
use btc_anchoring::tx::{
    push_be32, push_be64, AnchoringPayload, BitcoinTx, MsgAnchoringSignature, TxInput,
};
use btc_anchoring::types::{Address, Hash256, PublicKey, TxId};

fn h256(b: u8) -> Hash256 {
    Hash256::new(vec![b; 32])
}

fn txid(b: u8) -> TxId {
    TxId::new(vec![b; 32])
}

fn pk(b: u8) -> PublicKey {
    PublicKey::new(vec![b; 33])
}

fn keys(n: u8) -> Vec<PublicKey> {
    (0..n).map(|i| pk(i + 1)).collect()
}

fn funding_for(cfg_addr: &Address, value: u64) -> BitcoinTx {
    BitcoinTx {
        inputs: vec![TxInput { prev_txid: txid(0xfe), prev_vout: 0 }],
        output_value: value,
        payout: cfg_addr.duplicate(),
        payload: AnchoringPayload { block_height: 0, block_hash: h256(0) },
    }
}

fn config_with_funding(n: u8, value: u64, fee: u64) -> AnchoringConfig {
    let without = AnchoringConfig::new(keys(n), None, fee);
    let (_script, addr) = without.redeem_script();
    AnchoringConfig::new(keys(n), Some(funding_for(&addr, value)), fee)
}

fn sig_msg(validator: u32, input: u32, proposal: &TxId, byte: u8) -> MsgAnchoringSignature {
    MsgAnchoringSignature::new(validator, input, proposal.duplicate(), vec![byte; 70])
}

#[test]
fn majority_count_thresholds() {
    // strictly more than two thirds, attainable by the set itself
    assert_eq!(majority_count(1), 1);
    assert_eq!(majority_count(2), 2);
    assert_eq!(majority_count(3), 3);
    assert_eq!(majority_count(4), 3);
    assert_eq!(majority_count(5), 4);
    assert_eq!(majority_count(6), 5);
    assert_eq!(majority_count(10), 7);
    assert_eq!(majority_count(255), 171);
    for n in 1..=255u32 {
        let m = majority_count(n as u8);
        assert!(3 * m > 2 * n);
        assert!(m <= n);
    }
}

#[test]
fn lect_log_append_only() {
    let mut schema = AnchoringSchema::new();
    let cfg = config_with_funding(4, 70000, 1000);
    let v = pk(1);
    assert!(schema.lect(&v).is_none());
    assert!(schema.prev_lect(&v).is_none());

    let t1 = funding_for(&cfg.redeem_script().1, 100);
    let t2 = funding_for(&cfg.redeem_script().1, 200);
    let t3 = funding_for(&cfg.redeem_script().1, 300);
    schema.add_lect(&v, t1.duplicate(), h256(1));
    assert_eq!(schema.lects(&v).len(), 1);
    assert!(schema.lect(&v).unwrap().same_as(&t1));
    assert!(schema.prev_lect(&v).is_none());

    schema.add_lect(&v, t2.duplicate(), h256(2));
    schema.add_lect(&v, t3.duplicate(), h256(3));
    let log = schema.lects(&v);
    assert_eq!(log.len(), 3);
    assert!(log[0].tx().same_as(&t1));
    assert!(log[1].tx().same_as(&t2));
    assert!(log[2].tx().same_as(&t3));
    // prev_lect after k calls returns entry k - 2
    assert!(schema.prev_lect(&v).unwrap().same_as(&t2));

    // the index knows where each reported txid sits
    assert_eq!(schema.find_lect_position(&v, &t1.id()), Some(0));
    assert_eq!(schema.find_lect_position(&v, &t3.id()), Some(2));
    assert_eq!(schema.find_lect_position(&v, &txid(9)), None);
    // other validators' logs stay empty
    assert!(schema.lect(&pk(2)).is_none());
}

#[test]
fn known_signature_dedup() {
    let mut schema = AnchoringSchema::new();
    let proposal = txid(7);
    let first = sig_msg(1, 0, &proposal, 0xaa);
    let second_same_key = sig_msg(1, 0, &proposal, 0xbb);
    let other_input = sig_msg(1, 1, &proposal, 0xcc);

    schema.add_known_signature(first);
    schema.add_known_signature(second_same_key);
    schema.add_known_signature(other_input);

    let stored = schema.signatures(&proposal);
    assert_eq!(stored.len(), 2);
    // only the first payload under the duplicated key was kept
    assert_eq!(stored[0].signature, vec![0xaa; 70]);
    assert_eq!(stored[1].signature, vec![0xcc; 70]);
    assert_eq!(schema.known_signatures().len(), 2);
}

#[test]
fn signature_from_outside_config_rejected() {
    let mut schema = AnchoringSchema::new();
    let cfg = config_with_funding(4, 70000, 1000);
    let proposal = txid(7);
    // validator indices 0..3 belong to the config, 4 does not
    assert!(schema.accept_signature(&cfg, sig_msg(3, 0, &proposal, 1)));
    assert!(!schema.accept_signature(&cfg, sig_msg(4, 0, &proposal, 2)));
    assert_eq!(schema.signatures(&proposal).len(), 1);
    assert_eq!(schema.signatures(&proposal)[0].validator, 3);
}

#[test]
fn known_signature_id_layout() {
    let msg = sig_msg(0x01020304, 0x0a0b0c0d, &txid(0x11), 0);
    let id = known_signature_id(&msg);
    let mut expected = vec![0x11u8; 32];
    expected.extend_from_slice(&[0x01, 0x02, 0x03, 0x04]);
    expected.extend_from_slice(&[0x0a, 0x0b, 0x0c, 0x0d]);
    assert_eq!(id, expected);
}

#[test]
fn genesis_seeds_every_validator() {
    let mut schema = AnchoringSchema::new();
    let cfg = config_with_funding(4, 70000, 1000);
    let (_script, addr) = cfg.redeem_script();
    assert!(!schema.is_address_known(&addr));

    schema.create_genesis_config(&cfg);

    assert!(schema.is_address_known(&addr));
    let funding = cfg.funding_tx.as_ref().unwrap();
    for i in 0..4u8 {
        let v = pk(i + 1);
        let log = schema.lects(&v);
        assert_eq!(log.len(), 1);
        assert!(log[0].tx().same_as(funding));
        assert!(schema.lect(&v).unwrap().same_as(funding));
    }
    assert_eq!(schema.known_txs().len(), 1);
}

#[test]
fn known_addresses_idempotent() {
    let mut schema = AnchoringSchema::new();
    let a = Address::new(vec![5u8; 21]);
    let b = Address::new(vec![6u8; 21]);
    schema.add_known_address(&a);
    schema.add_known_address(&a);
    schema.add_known_address(&b);
    assert_eq!(schema.known_addresses().len(), 2);
    assert!(schema.is_address_known(&a));
    assert!(schema.is_address_known(&b));
    assert!(!schema.is_address_known(&Address::new(vec![7u8; 21])));
}

#[test]
fn collect_lects_needs_supermajority() {
    let mut schema = AnchoringSchema::new();
    let cfg = config_with_funding(4, 70000, 1000);
    let (_script, addr) = cfg.redeem_script();
    let content = funding_for(&addr, 12345);
    let rival = funding_for(&addr, 54321);

    // no reports at all: no consensus
    assert!(schema.collect_lects(&cfg).is_none());

    // two identical reports out of four: below majority_count(4) == 3
    schema.add_lect(&pk(1), content.duplicate(), h256(1));
    schema.add_lect(&pk(2), content.duplicate(), h256(2));
    schema.add_lect(&pk(3), rival.duplicate(), h256(3));
    assert!(schema.collect_lects(&cfg).is_none());

    // a third identical report reaches the threshold
    schema.add_lect(&pk(4), content.duplicate(), h256(4));
    let canonical = schema.collect_lects(&cfg).unwrap();
    assert!(canonical.same_as(&content));
}

#[test]
fn config_versioning() {
    let mut schema = AnchoringSchema::new();
    match schema.current_anchoring_config() {
        Err(e) => assert_eq!(e, SchemaError::ConfigMissing),
        Ok(_) => panic!("no configuration was committed yet"),
    }

    let cfg0 = config_with_funding(4, 70000, 1000);
    let cfg1 = config_with_funding(5, 70000, 1000);
    let cfg2 = config_with_funding(6, 70000, 1000);
    schema.commit_anchoring_config(0, cfg0);
    schema.commit_anchoring_config(10, cfg1);
    schema.commit_anchoring_config(20, cfg2);

    schema.set_height(5);
    assert_eq!(schema.current_anchoring_config().unwrap().validators.len(), 4);
    assert_eq!(schema.following_anchoring_config().unwrap().validators.len(), 5);
    assert!(schema.previous_anchoring_config().is_none());

    schema.set_height(15);
    assert_eq!(schema.current_anchoring_config().unwrap().validators.len(), 5);
    assert_eq!(schema.following_anchoring_config().unwrap().validators.len(), 6);
    assert_eq!(schema.previous_anchoring_config().unwrap().validators.len(), 4);

    schema.set_height(25);
    assert_eq!(schema.current_anchoring_config().unwrap().validators.len(), 6);
    assert!(schema.following_anchoring_config().is_none());
    assert_eq!(schema.previous_anchoring_config().unwrap().validators.len(), 5);

    assert_eq!(schema.anchoring_config_by_height(12).unwrap().validators.len(), 5);
}

#[test]
fn state_hash_per_validator() {
    let mut schema = AnchoringSchema::new();
    assert!(schema.state_hash().is_err());
    let cfg = config_with_funding(4, 70000, 1000);
    schema.commit_anchoring_config(0, cfg.duplicate());
    schema.create_genesis_config(&cfg);
    let hashes = schema.state_hash().unwrap();
    assert_eq!(hashes.len(), 4);
    // genesis gives every validator the same log, so the same digest
    assert!(hashes[0].same_as(&hashes[1]));
    assert!(hashes[0].same_as(&hashes[3]));
    // a fresh report for one validator moves only that validator's digest
    schema.add_lect(&pk(1), funding_for(&cfg.redeem_script().1, 1), h256(9));
    let moved = schema.state_hash().unwrap();
    assert!(!moved[0].same_as(&hashes[0]));
    assert!(moved[1].same_as(&hashes[1]));
}

#[test]
fn tx_encoding_layout() {
    let tx = BitcoinTx {
        inputs: vec![TxInput { prev_txid: txid(0xaa), prev_vout: 1 }],
        output_value: 5,
        payout: Address::new(vec![0x05; 21]),
        payload: AnchoringPayload { block_height: 7, block_hash: h256(0xbb) },
    };
    let mut expected: Vec<u8> = Vec::new();
    push_be32(&mut expected, 1);
    expected.extend_from_slice(&[0xaa; 32]);
    push_be32(&mut expected, 1);
    push_be64(&mut expected, 5);
    expected.extend_from_slice(&[0x05; 21]);
    push_be64(&mut expected, 7);
    expected.extend_from_slice(&[0xbb; 32]);
    assert_eq!(tx.encode(), expected);

    // the id is the double-SHA256 of exactly these bytes
    let reference =
        <bitcoin::hashes::sha256d::Hash as bitcoin::hashes::Hash>::hash(&expected);
    let reference_bytes = bitcoin::hashes::Hash::to_byte_array(reference).to_vec();
    assert_eq!(tx.id().bytes, reference_bytes);
    assert_ne!(tx.id().bytes, expected);
}

#[test]
fn redeem_script_and_address_derivation() {
    let cfg = config_with_funding(4, 70000, 1000);
    let (script, addr) = cfg.redeem_script();
    // threshold, four 33-byte keys, key count, multisig marker
    assert_eq!(script.len(), 1 + 4 * 33 + 2);
    assert_eq!(script[0], 3);
    assert_eq!(script[script.len() - 2], 4);
    assert_eq!(script[script.len() - 1], 0xae);
    // the address payload is the version byte plus the script's hash160
    let reference = <bitcoin::hashes::hash160::Hash as bitcoin::hashes::Hash>::hash(&script);
    let reference_bytes = bitcoin::hashes::Hash::to_byte_array(reference);
    assert_eq!(addr.payload[0], 5);
    assert_eq!(&addr.payload[1..], &reference_bytes[..]);
}

#[test]
fn base58check_rendering() {
    // the all-zero payload renders to the well-known burn address
    let addr = Address::new(vec![0u8; 21]);
    assert_eq!(addr.to_base58check(), "1111111111111111111114oLvT2");
}

#[test]
fn signature_assembly_threshold() {
    let proposal = txid(3);
    let n_validators = 4u8;
    let threshold = majority_count(n_validators);
    let mut msgs: Vec<MsgAnchoringSignature> = Vec::new();
    // validators 3, 1, 0 sign input 0 (out of order); validator 2 abstains
    msgs.push(sig_msg(3, 0, &proposal, 3));
    msgs.push(sig_msg(1, 0, &proposal, 1));
    msgs.push(sig_msg(0, 0, &proposal, 0));

    assert_eq!(input_sig_count(&msgs, 0, n_validators), 3);
    assert_eq!(input_sig_count(&msgs, 1, n_validators), 0);

    // lowest validator indices first, capped at the threshold
    let picked = collect_input_signatures(&msgs, 0, n_validators, threshold);
    assert_eq!(picked.len(), 3);
    assert_eq!(picked[0].validator, 0);
    assert_eq!(picked[1].validator, 1);
    assert_eq!(picked[2].validator, 3);
    let capped = collect_input_signatures(&msgs, 0, n_validators, 2);
    assert_eq!(capped.len(), 2);
    assert_eq!(capped[0].validator, 0);
    assert_eq!(capped[1].validator, 1);

    let one_input_tx = BitcoinTx {
        inputs: vec![TxInput { prev_txid: txid(0xaa), prev_vout: 0 }],
        output_value: 5,
        payout: Address::new(vec![0x05; 21]),
        payload: AnchoringPayload { block_height: 7, block_hash: h256(0xbb) },
    };
    assert_eq!(
        signature_state(&msgs, 1, n_validators, threshold),
        ProposalState::Complete
    );
    let finished = assemble_tx(one_input_tx, &msgs, n_validators, threshold).unwrap();
    assert_eq!(finished.input_signatures.len(), 1);
    assert_eq!(finished.input_signatures[0].len(), threshold as usize);

    // a proposal with an unsigned second input stays incomplete
    let two_input_tx = BitcoinTx {
        inputs: vec![
            TxInput { prev_txid: txid(0xaa), prev_vout: 0 },
            TxInput { prev_txid: txid(0xcc), prev_vout: 0 },
        ],
        output_value: 5,
        payout: Address::new(vec![0x05; 21]),
        payload: AnchoringPayload { block_height: 7, block_hash: h256(0xbb) },
    };
    assert_eq!(
        signature_state(&msgs, 2, n_validators, threshold),
        ProposalState::PartiallySigned
    );
    assert!(assemble_tx(two_input_tx, &msgs, n_validators, threshold).is_none());

    let empty: Vec<MsgAnchoringSignature> = Vec::new();
    assert_eq!(signature_state(&empty, 1, n_validators, threshold), ProposalState::Proposed);
}
