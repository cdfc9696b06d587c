use btc_anchoring::builder::build_anchoring_tx;
use btc_anchoring::config::AnchoringConfig;
use btc_anchoring::majority_count;
use btc_anchoring::relay::{
    BitcoinRpcConfig, Expectation, FakeBtcRelay, FakeRelayRequest, FakeRelayResponse,
    TestRequests,
};
use btc_anchoring::schema::AnchoringSchema;
use btc_anchoring::tx::{AnchoringPayload, BitcoinTx, MsgAnchoringSignature, TxInput};
use btc_anchoring::types::{Address, Hash256, PublicKey, TxId};

const FEE: u64 = 1000;

fn h256(b: u8) -> Hash256 {
    Hash256::new(vec![b; 32])
}

fn txid(b: u8) -> TxId {
    TxId::new(vec![b; 32])
}

fn pk(b: u8) -> PublicKey {
    PublicKey::new(vec![b; 33])
}

fn keys(n: u8) -> Vec<PublicKey> {
    (0..n).map(|i| pk(i + 1)).collect()
}

fn funding_for(addr: &Address, value: u64, tag: u8) -> BitcoinTx {
    BitcoinTx {
        inputs: vec![TxInput { prev_txid: txid(tag), prev_vout: 0 }],
        output_value: value,
        payout: addr.duplicate(),
        payload: AnchoringPayload { block_height: 0, block_hash: h256(0) },
    }
}

fn config_with_funding(n: u8, value: u64, tag: u8) -> AnchoringConfig {
    let without = AnchoringConfig::new(keys(n), None, FEE);
    let (_script, addr) = without.redeem_script();
    AnchoringConfig::new(keys(n), Some(funding_for(&addr, value, tag)), FEE)
}

fn report_all(schema: &mut AnchoringSchema, n: u8, tx: &BitcoinTx, tag: u8) {
    for i in 0..n {
        schema.add_lect(&pk(i + 1), tx.duplicate(), h256(tag));
    }
}

#[test]
fn simple() {
    let validators_num = 4u8;
    let mut schema = AnchoringSchema::new();
    let cfg = config_with_funding(validators_num, 70000, 0xf0);
    schema.commit_anchoring_config(0, cfg.duplicate());
    schema.create_genesis_config(&cfg);

    // before any anchoring round the canonical lect is still the funding tx
    let genesis_lect = schema.collect_lects(&cfg).unwrap();
    assert!(genesis_lect.same_as(cfg.funding_tx.as_ref().unwrap()));

    // first round: anchor checkpoint 0; the lect is the funding tx itself,
    // so no extra funding input is added
    let funding = schema.available_funding_tx(&cfg, &genesis_lect);
    assert!(funding.is_none());
    let tx0 = build_anchoring_tx(&cfg, &genesis_lect, 0, &h256(0x10), None);

    // a supermajority of validators co-signs the proposal
    let threshold = majority_count(validators_num);
    let tx0_id = tx0.id();
    for v in 0..threshold {
        schema.add_known_signature(MsgAnchoringSignature::new(
            v,
            0,
            tx0_id.duplicate(),
            vec![v as u8; 70],
        ));
    }
    assert_eq!(schema.signatures(&tx0_id).len(), threshold as usize);

    report_all(&mut schema, validators_num, &tx0, 0x20);
    schema.set_height(4);

    let canonical = schema.collect_lects(&cfg).unwrap();
    assert!(canonical.same_as(&tx0));
    let tx0_meta = tx0.anchoring_metadata();
    assert_eq!(tx0_meta.1.block_height, 0);

    // second round: the initial funding output is spent by tx0 already
    let funding = schema.available_funding_tx(&cfg, &canonical);
    assert!(funding.is_none());
    let tx1 = build_anchoring_tx(&cfg, &canonical, 4, &h256(0x11), None);
    let tx1_meta = tx1.anchoring_metadata();

    assert!(tx0.id().same_as(&tx1.prev_tx_id()));
    // the payout script stays the same while the validator set does
    assert!(tx0_meta.0.same_as(&tx1_meta.0));
    assert_eq!(tx1_meta.1.block_height, 4);
}

#[test]
fn additional_funding() {
    let validators_num = 4u8;
    let initial_sum = 50000u64;
    let mut schema = AnchoringSchema::new();
    let cfg = config_with_funding(validators_num, initial_sum, 0xf0);
    schema.commit_anchoring_config(0, cfg.duplicate());
    schema.create_genesis_config(&cfg);

    let genesis_lect = schema.collect_lects(&cfg).unwrap();
    let tx0 = build_anchoring_tx(&cfg, &genesis_lect, 0, &h256(0x10), None);
    report_all(&mut schema, validators_num, &tx0, 0x20);
    schema.set_height(4);

    assert_eq!(tx0.inputs.len(), 1);
    let output_val0 = tx0.output_value;
    assert!(output_val0 < initial_sum);

    // a new funding transaction arrives with a config change at height 6
    let (_script, addr) = cfg.redeem_script();
    let new_funding = funding_for(&addr, initial_sum, 0xf1);
    let cfg2 = AnchoringConfig::new(keys(validators_num), Some(new_funding), FEE);
    schema.commit_anchoring_config(6, cfg2.duplicate());
    schema.set_height(6);

    let canonical = schema.collect_lects(&cfg2).unwrap();
    assert!(canonical.same_as(&tx0));
    let funding = schema.available_funding_tx(&cfg2, &canonical);
    assert!(funding.is_some());
    let tx1 = build_anchoring_tx(&cfg2, &canonical, 4, &h256(0x11), funding.as_ref());
    let tx1_meta = tx1.anchoring_metadata();
    assert_eq!(tx1_meta.1.block_height, 4);

    assert_eq!(tx1.inputs.len(), 2);

    let output_val1 = tx1.output_value;
    assert!(output_val1 > output_val0);
    assert!(output_val1 > initial_sum);
}

#[test]
fn address_changed() {
    let validators_num = 5u8;
    let mut schema = AnchoringSchema::new();
    let cfg = config_with_funding(validators_num, 150000, 0xf0);
    schema.commit_anchoring_config(0, cfg.duplicate());
    schema.create_genesis_config(&cfg);

    let genesis_lect = schema.collect_lects(&cfg).unwrap();
    let tx0 = build_anchoring_tx(&cfg, &genesis_lect, 0, &h256(0x10), None);
    report_all(&mut schema, validators_num, &tx0, 0x20);
    schema.set_height(4);
    let tx0_meta = tx0.anchoring_metadata();

    let tx1 = build_anchoring_tx(&cfg, &tx0, 4, &h256(0x11), None);
    report_all(&mut schema, validators_num, &tx1, 0x21);
    schema.set_height(6);

    // removing one of the validators changes the redeem-script address,
    // effective at height 16
    let cfg2 = AnchoringConfig::new(keys(validators_num - 1), None, FEE);
    schema.commit_anchoring_config(16, cfg2.duplicate());
    schema.set_height(10);

    // the chain moves the funds to the new address without anchoring a new
    // checkpoint
    let tx_transition = build_anchoring_tx(&cfg2, &tx1, 10, &h256(0x12), None);
    assert_eq!(
        tx_transition.anchoring_metadata().1.block_height,
        tx1.anchoring_metadata().1.block_height
    );

    // anchoring is paused till the new config activates: the same inputs
    // keep producing the same transaction
    schema.set_height(12);
    let tx_same = build_anchoring_tx(&cfg2, &tx1, 12, &h256(0x13), None);
    assert!(tx_transition.same_as(&tx_same));

    // once confirmed, the transition becomes the new lect
    report_all(&mut schema, validators_num - 1, &tx_transition, 0x22);
    schema.set_height(17);
    let canonical = schema.collect_lects(&cfg2).unwrap();
    assert!(canonical.same_as(&tx_transition));

    schema.set_height(20);
    let txchanged = build_anchoring_tx(&cfg2, &canonical, 16, &h256(0x14), None);
    let txchanged_meta = txchanged.anchoring_metadata();

    assert!(!tx_transition.same_as(&txchanged));
    // the payout script is *not* the same any more
    assert!(!tx0_meta.0.same_as(&txchanged_meta.0));
}

#[test]
fn address_changed_and_new_funding_tx() {
    let validators_num = 5u8;
    let initial_sum = 150000u64;
    let mut schema = AnchoringSchema::new();
    let cfg = config_with_funding(validators_num, initial_sum, 0xf0);
    schema.commit_anchoring_config(0, cfg.duplicate());
    schema.create_genesis_config(&cfg);

    let genesis_lect = schema.collect_lects(&cfg).unwrap();
    let tx0 = build_anchoring_tx(&cfg, &genesis_lect, 0, &h256(0x10), None);
    report_all(&mut schema, validators_num, &tx0, 0x20);
    schema.set_height(4);
    let tx0_meta = tx0.anchoring_metadata();
    let output_val0 = tx0.output_value;

    // removing a validator changes the address; the config change also
    // brings a new funding transaction paying to the new address
    let bare2 = AnchoringConfig::new(keys(validators_num - 1), None, FEE);
    let (_s2, addr2) = bare2.redeem_script();
    let new_funding = funding_for(&addr2, initial_sum, 0xf1);
    let cfg2 = AnchoringConfig::new(keys(validators_num - 1), Some(new_funding), FEE);
    schema.commit_anchoring_config(16, cfg2.duplicate());
    schema.set_height(10);

    let funding = schema.available_funding_tx(&cfg2, &tx0);
    assert!(funding.is_some());
    let tx_transition = build_anchoring_tx(&cfg2, &tx0, 10, &h256(0x12), funding.as_ref());

    // the new funding transaction is not consumed by the transition tx
    assert_eq!(tx_transition.inputs.len(), 1);

    report_all(&mut schema, validators_num - 1, &tx_transition, 0x22);
    schema.set_height(17);
    let canonical = schema.collect_lects(&cfg2).unwrap();
    assert!(canonical.same_as(&tx_transition));

    schema.set_height(20);
    let funding = schema.available_funding_tx(&cfg2, &canonical);
    assert!(funding.is_some());
    let txchanged = build_anchoring_tx(&cfg2, &canonical, 16, &h256(0x14), funding.as_ref());
    let txchanged_meta = txchanged.anchoring_metadata();
    let output_changed = txchanged.output_value;

    assert!(!tx_transition.same_as(&txchanged));
    // ...but it is consumed by the first periodic anchor afterwards
    assert_eq!(txchanged.inputs.len(), 2);

    assert!(!tx0_meta.0.same_as(&txchanged_meta.0));

    assert!(output_changed > output_val0);
    assert!(output_changed > initial_sum);
}

#[test]
fn fake_relay_serves_scripted_responses() {
    let addr = Address::new(vec![9u8; 21]);
    let sent = funding_for(&addr, 4242, 0xf7);
    let broadcast_id = txid(0x33);

    let mut requests = TestRequests::new();
    requests.expect(vec![
        Expectation {
            request: FakeRelayRequest::SendToAddress { addr: addr.duplicate(), satoshis: 4242 },
            response: FakeRelayResponse::SendToAddress(Ok(sent.duplicate())),
        },
        Expectation {
            request: FakeRelayRequest::SendTransaction { transaction: sent.duplicate() },
            response: FakeRelayResponse::SendTransaction(Ok(broadcast_id.duplicate())),
        },
        Expectation {
            request: FakeRelayRequest::WatchAddress { addr: addr.duplicate(), rescan: true },
            response: FakeRelayResponse::WatchAddress(Ok(())),
        },
        Expectation {
            request: FakeRelayRequest::TransactionInfo { id: broadcast_id.duplicate() },
            response: FakeRelayResponse::TransactionInfo(Ok(None)),
        },
    ]);
    let mut relay = FakeBtcRelay {
        requests,
        rpc: BitcoinRpcConfig {
            host: String::from("http://localhost:18332"),
            username: None,
            password: None,
        },
    };

    let got = relay.send_to_address(&addr, 4242).unwrap();
    assert!(got.same_as(&sent));
    let got_id = relay.send_transaction(&sent).unwrap();
    assert!(got_id.same_as(&broadcast_id));
    relay.watch_address(&addr, true).unwrap();
    assert!(relay.transaction_info(&broadcast_id).unwrap().is_none());
    assert_eq!(relay.config().host, "http://localhost:18332");
    assert!(relay.requests.expectations.is_empty());
}
