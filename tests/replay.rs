use utxo_dump::codec::{decode_key, encode_key, txid_hex};
use utxo_dump::dump::UnspentMongoDump;
use utxo_dump::export::UtxoRecord;
use utxo_dump::replay::{Block, OutPoint, ReplayError, Transaction, TxOutput};

fn txid(n: u8) -> [u8; 32] {
    let mut t = [0u8; 32];
    t[0] = n;
    t[31] = 0xa0 + n;
    t
}

fn out(value: u64, address: &str) -> TxOutput {
    TxOutput { value, address: address.to_string() }
}

fn spend(n: u8, index: u32) -> OutPoint {
    OutPoint { txid: txid(n), index }
}

fn tx(n: u8, inputs: Vec<OutPoint>, outputs: Vec<TxOutput>) -> Transaction {
    let in_count = inputs.len() as u64;
    let out_count = outputs.len() as u64;
    Transaction { txid: txid(n), inputs, outputs, in_count, out_count }
}

fn block(txs: Vec<Transaction>) -> Block {
    let tx_count = txs.len() as u64;
    Block { txs, tx_count }
}

fn coinbase_input() -> OutPoint {
    OutPoint { txid: [0u8; 32], index: u32::MAX }
}

fn sorted_records(d: &UnspentMongoDump) -> Vec<(Vec<u8>, u64, usize, u64, String)> {
    let mut v: Vec<(Vec<u8>, u64, usize, u64, String)> = d
        .export()
        .into_iter()
        .map(|r: UtxoRecord| (r.txid.to_vec(), r.index, r.height, r.value, r.address))
        .collect();
    v.sort();
    v
}

#[test]
fn key_encodes_reversed_hex_then_decimal_index() {
    let mut t = [0u8; 32];
    for i in 0..32 {
        t[i] = (i + 1) as u8;
    }
    let k = encode_key(&t, 7);
    assert_eq!(k, "201f1e1d1c1b1a191817161514131211100f0e0d0c0b0a0908070605040302017");
    assert_eq!(txid_hex(&t), "201f1e1d1c1b1a191817161514131211100f0e0d0c0b0a090807060504030201");
}

#[test]
fn key_round_trips() {
    let cases: Vec<([u8; 32], u64)> = vec![
        (txid(1), 0),
        (txid(2), 1),
        (txid(3), 10),
        ([0xffu8; 32], u64::MAX),
        ([0u8; 32], 4294967295),
    ];
    for (t, i) in cases {
        let k = encode_key(&t, i);
        assert_eq!(decode_key(&k), Some((t, i)));
    }
}

#[test]
fn decode_refuses_what_no_outpoint_encodes() {
    let good = encode_key(&txid(5), 12);
    assert!(decode_key(&good).is_some());
    // no index
    assert_eq!(decode_key(&good[..64].to_string()), None);
    // leading zero in the index
    let lead = format!("{}012", &good[..64]);
    assert_eq!(decode_key(&lead), None);
    // upper-case hex
    let upper = good.to_uppercase();
    assert_eq!(decode_key(&upper), None);
    // index past u64::MAX
    let big = format!("{}18446744073709551616", &good[..64]);
    assert_eq!(decode_key(&big), None);
    assert_eq!(decode_key(&String::new()), None);
}

#[test]
fn block_with_two_outputs_adds_two_entries() {
    let mut d = UnspentMongoDump::with_capacity(16);
    d.on_start(100);
    let b = block(vec![tx(1, vec![], vec![out(50, "X"), out(70, "Y")])]);
    assert_eq!(d.on_block(&b, 100), Ok(()));
    assert_eq!(d.utxos().len(), 2);
    let e0 = d.utxos().get(&encode_key(&txid(1), 0)).unwrap();
    assert_eq!((e0.height, e0.value, e0.address.as_str()), (100, 50, "X"));
    let e1 = d.utxos().get(&encode_key(&txid(1), 1)).unwrap();
    assert_eq!((e1.height, e1.value, e1.address.as_str()), (100, 70, "Y"));
}

#[test]
fn spending_index_zero_keeps_index_one() {
    let mut d = UnspentMongoDump::with_capacity(16);
    let b1 = block(vec![tx(1, vec![], vec![out(50, "X"), out(70, "Y")])]);
    assert_eq!(d.on_block(&b1, 1), Ok(()));
    let b2 = block(vec![tx(2, vec![spend(1, 0)], vec![out(40, "Z")])]);
    assert_eq!(d.on_block(&b2, 2), Ok(()));
    assert!(!d.utxos().contains(&encode_key(&txid(1), 0)));
    assert!(d.utxos().contains(&encode_key(&txid(1), 1)));
    assert!(d.utxos().contains(&encode_key(&txid(2), 0)));
    assert_eq!(d.utxos().len(), 2);
}

#[test]
fn spending_missing_outpoint_changes_nothing() {
    let mut d = UnspentMongoDump::with_capacity(16);
    let b1 = block(vec![tx(1, vec![], vec![out(50, "X"), out(70, "Y")])]);
    assert_eq!(d.on_block(&b1, 1), Ok(()));
    let before = sorted_records(&d);
    let b2 = block(vec![tx(2, vec![spend(9, 3), spend(1, 5)], vec![])]);
    assert_eq!(d.on_block(&b2, 2), Ok(()));
    assert_eq!(sorted_records(&d), before);
}

#[test]
fn counters_sum_over_blocks() {
    let mut d = UnspentMongoDump::with_capacity(16);
    let blocks = vec![
        block(vec![tx(1, vec![coinbase_input()], vec![out(1, "a"), out(2, "b")])]),
        block(vec![
            tx(2, vec![coinbase_input()], vec![out(3, "c")]),
            tx(3, vec![spend(1, 0), spend(1, 1)], vec![out(1, "d"), out(1, "e"), out(1, "f")]),
        ]),
        block(vec![]),
        block(vec![tx(4, vec![spend(3, 2)], vec![])]),
    ];
    for (h, b) in blocks.iter().enumerate() {
        assert_eq!(d.on_block(b, h), Ok(()));
    }
    assert_eq!(d.tx_count(), 4);
    assert_eq!(d.in_count(), 5);
    assert_eq!(d.out_count(), 6);
}

#[test]
fn genesis_then_spend_leaves_two_records() {
    let mut d = UnspentMongoDump::with_capacity(16);
    d.on_start(0);
    let genesis = block(vec![tx(1, vec![coinbase_input()], vec![out(5000000000, "A")])]);
    assert_eq!(d.on_block(&genesis, 0), Ok(()));
    assert_eq!(d.utxos().len(), 1);
    let next = block(vec![tx(
        2,
        vec![spend(1, 0)],
        vec![out(2500000000, "B"), out(2499999000, "C")],
    )]);
    assert_eq!(d.on_block(&next, 1), Ok(()));
    let rs = d.on_complete(1);
    assert_eq!(d.end_height(), 1);
    assert_eq!(d.start_height(), 0);
    assert_eq!(rs.len(), 2);
    let mut got: Vec<(u64, u64, String)> = rs.iter().map(|r| (r.index, r.value, r.address.clone())).collect();
    got.sort();
    assert_eq!(
        got,
        vec![(0, 2500000000, "B".to_string()), (1, 2499999000, "C".to_string())]
    );
    assert!(rs.iter().all(|r| r.txid == txid(2) && r.height == 1));
    assert!(rs.iter().all(|r| r.address != "A"));
}

#[test]
fn export_twice_gives_same_records() {
    let mut d = UnspentMongoDump::with_capacity(16);
    let b = block(vec![
        tx(1, vec![], vec![out(5, "p"), out(6, "q"), out(7, "r")]),
        tx(2, vec![spend(1, 1)], vec![out(6, "s")]),
    ]);
    assert_eq!(d.on_block(&b, 3), Ok(()));
    let first = sorted_records(&d);
    let second = sorted_records(&d);
    assert_eq!(first.len(), 3);
    assert_eq!(first, second);
}

#[test]
fn declared_input_count_mismatch_is_refused() {
    let mut d = UnspentMongoDump::with_capacity(16);
    let mut t = tx(1, vec![coinbase_input()], vec![out(1, "a")]);
    t.in_count = 2;
    assert_eq!(d.on_block(&block(vec![t]), 0), Err(ReplayError::InputCountMismatch));
    assert_eq!(d.utxos().len(), 0);
    assert_eq!(d.tx_count(), 0);
}

#[test]
fn declared_output_count_mismatch_is_refused() {
    let mut d = UnspentMongoDump::with_capacity(16);
    let mut t = tx(1, vec![], vec![out(1, "a")]);
    t.out_count = 0;
    assert_eq!(d.on_block(&block(vec![t]), 0), Err(ReplayError::OutputCountMismatch));
    assert_eq!(d.utxos().len(), 0);
}

#[test]
fn declared_tx_count_mismatch_is_refused() {
    let mut d = UnspentMongoDump::with_capacity(16);
    let mut b = block(vec![tx(1, vec![], vec![out(1, "a")])]);
    b.tx_count = 2;
    assert_eq!(d.on_block(&b, 0), Err(ReplayError::TxCountMismatch));
    assert_eq!(d.utxos().len(), 0);
    assert_eq!(d.out_count(), 0);
}

#[test]
fn reused_transaction_id_is_a_collision() {
    let mut d = UnspentMongoDump::with_capacity(16);
    let b1 = block(vec![tx(1, vec![], vec![out(1, "a")])]);
    assert_eq!(d.on_block(&b1, 0), Ok(()));
    let b2 = block(vec![tx(1, vec![], vec![out(2, "b")])]);
    assert_eq!(d.on_block(&b2, 1), Err(ReplayError::KeyCollision));
    assert_eq!(d.tx_count(), 1);
    assert_eq!(d.out_count(), 1);
}

#[test]
fn reused_transaction_id_after_spend_is_accepted() {
    let mut d = UnspentMongoDump::with_capacity(16);
    let b1 = block(vec![tx(1, vec![], vec![out(1, "a")])]);
    assert_eq!(d.on_block(&b1, 0), Ok(()));
    let b2 = block(vec![tx(2, vec![spend(1, 0)], vec![]), tx(1, vec![], vec![out(2, "b")])]);
    assert_eq!(d.on_block(&b2, 1), Ok(()));
    let e = d.utxos().get(&encode_key(&txid(1), 0)).unwrap();
    assert_eq!((e.height, e.value), (1, 2));
}

#[test]
fn empty_run_exports_nothing() {
    let mut d = UnspentMongoDump::with_capacity(0);
    d.on_start(5);
    assert!(d.on_complete(5).is_empty());
    assert_eq!(d.utxos().len(), 0);
}
