use btc_relay::error::Error;
use btc_relay::harness::{run_test, ExtBuilder};
use btc_relay::hashing::{hash160, sha256d};
use btc_relay::header::{parse_block_header, RawBlockHeader};
use btc_relay::merkle::MerkleProof;
use btc_relay::parser::{parse_transaction, parse_transaction_with_id, read_varint};
use btc_relay::payment::{extract_payment_value, extract_payment_value_and_op_return};
use btc_relay::relay::{check_pow, GenesisConfig, Pallet};
use btc_relay::transaction::{Address, Transaction, P2PKH, P2SH, P2WPKH_V0, P2WSH_V0};
use btc_relay::types::H256Le;

const BITS: u32 = 0x207fffff;

fn mine(prev: &H256Le, root: &[u8; 32], time: u32) -> RawBlockHeader {
    let mut nonce: u32 = 0;
    loop {
        let mut b = Vec::new();
        b.extend_from_slice(&1u32.to_le_bytes());
        b.extend_from_slice(&prev.content);
        b.extend_from_slice(root);
        b.extend_from_slice(&time.to_le_bytes());
        b.extend_from_slice(&BITS.to_le_bytes());
        b.extend_from_slice(&nonce.to_le_bytes());
        let raw = RawBlockHeader::from_bytes(&b).unwrap();
        let h = parse_block_header(&raw).unwrap();
        if check_pow(&raw.hash(), &h.target) {
            return raw;
        }
        nonce += 1;
    }
}

fn p2pkh(h: &[u8; 20]) -> Vec<u8> {
    let mut s = vec![0x76, 0xa9, 0x14];
    s.extend_from_slice(h);
    s.extend_from_slice(&[0x88, 0xac]);
    s
}

fn op_return(data: &[u8]) -> Vec<u8> {
    let mut s = vec![0x6a, data.len() as u8];
    s.extend_from_slice(data);
    s
}

fn pubkey() -> Vec<u8> {
    let mut k = vec![0x02];
    k.extend_from_slice(&[0x11u8; 32]);
    k
}

fn script_sig() -> Vec<u8> {
    let mut s = vec![71];
    s.extend_from_slice(&[0x30u8; 71]);
    s.push(33);
    s.extend_from_slice(&pubkey());
    s
}

fn tx_bytes(script: &[u8], witness: Option<Vec<Vec<u8>>>, outputs: &[(i64, Vec<u8>)]) -> Vec<u8> {
    let mut b = Vec::new();
    b.extend_from_slice(&2u32.to_le_bytes());
    if witness.is_some() {
        b.extend_from_slice(&[0x00, 0x01]);
    }
    b.push(1);
    b.extend_from_slice(&[0x01u8; 32]);
    b.extend_from_slice(&0u32.to_le_bytes());
    b.push(script.len() as u8);
    b.extend_from_slice(script);
    b.extend_from_slice(&0xffff_ffffu32.to_le_bytes());
    b.push(outputs.len() as u8);
    for (v, s) in outputs {
        b.extend_from_slice(&v.to_le_bytes());
        b.push(s.len() as u8);
        b.extend_from_slice(s);
    }
    if let Some(items) = witness {
        b.push(items.len() as u8);
        for it in items {
            b.push(it.len() as u8);
            b.extend_from_slice(&it);
        }
    }
    b.extend_from_slice(&0u32.to_le_bytes());
    b
}

fn addr(h: [u8; 20]) -> Address {
    Address { kind: P2PKH, hash: h.to_vec() }
}

fn payload_tx(id: &[u8; 32]) -> Vec<u8> {
    tx_bytes(
        &script_sig(),
        None,
        &[(10_000, p2pkh(&[0xaa; 20])), (0, op_return(id)), (2_500, p2pkh(&[0xbb; 20]))],
    )
}

fn relay() -> Pallet {
    ExtBuilder::new().build()
}

#[test]
fn payload_scenario() {
    let p = relay();
    let id = [0x42u8; 32];
    let raw = payload_tx(&id);
    let (origin, value) = p
        .validate_transaction(&raw, 5_000, &addr([0xaa; 20]), Some(H256Le { content: id }))
        .unwrap();
    assert_eq!(value, 10_000);
    assert_eq!(origin.kind, P2PKH);
    assert_eq!(origin.hash, hash160(&pubkey()).to_vec());
    assert!(matches!(
        p.validate_transaction(&raw, 5_000, &addr([0xcc; 20]), Some(H256Le { content: id })),
        Err(Error::InvalidPayment)
    ));
    assert!(matches!(
        p.validate_transaction(&raw, 20_000, &addr([0xaa; 20]), Some(H256Le { content: id })),
        Err(Error::InsufficientValue)
    ));
    assert!(matches!(
        p.validate_transaction(&raw, 5_000, &addr([0xaa; 20]), Some(H256Le { content: [0x43; 32] })),
        Err(Error::InvalidOpReturn)
    ));
    // without an identifier the payment alone is checked
    let (_, v) = p.validate_transaction(&raw, 2_500, &addr([0xbb; 20]), None).unwrap();
    assert_eq!(v, 2_500);
}

#[test]
fn payload_checks_can_be_disabled() {
    let mut p = relay();
    p.config.disable_op_return_check = true;
    let raw = payload_tx(&[0x42; 32]);
    let (_, v) = p
        .validate_transaction(&raw, 0, &addr([0xaa; 20]), Some(H256Le { content: [0x43; 32] }))
        .unwrap();
    assert_eq!(v, 10_000);
}

#[test]
fn duplicate_recipient_is_refused() {
    let raw = tx_bytes(&script_sig(), None, &[(1, p2pkh(&[0xaa; 20])), (2, p2pkh(&[0xaa; 20]))]);
    let tx = parse_transaction(&raw).unwrap();
    assert!(matches!(extract_payment_value(&tx, &addr([0xaa; 20])), Err(Error::InvalidPayment)));
    let single = tx_bytes(&script_sig(), None, &[(1, p2pkh(&[0xaa; 20])), (2, p2pkh(&[0xbb; 20]))]);
    let tx = parse_transaction(&single).unwrap();
    assert_eq!(extract_payment_value(&tx, &addr([0xbb; 20])).unwrap(), 2);
    // a payment with an identifier needs an OP_RETURN output
    assert!(matches!(
        extract_payment_value_and_op_return(&tx, &addr([0xbb; 20]), &[7u8; 32]),
        Err(Error::InvalidOpReturn)
    ));
    // the identifier may stand in either of the other two outputs
    let two = tx_bytes(
        &script_sig(),
        None,
        &[(1, p2pkh(&[0xaa; 20])), (0, op_return(&[1u8; 32])), (0, op_return(&[7u8; 32]))],
    );
    let tx = parse_transaction(&two).unwrap();
    assert_eq!(extract_payment_value_and_op_return(&tx, &addr([0xaa; 20]), &[7u8; 32]).unwrap(), 1);
    assert!(matches!(
        extract_payment_value_and_op_return(&tx, &addr([0xaa; 20]), &[9u8; 32]),
        Err(Error::InvalidOpReturn)
    ));
}

#[test]
fn too_few_or_too_many_outputs() {
    let p = relay();
    let none = tx_bytes(&script_sig(), None, &[]);
    let tx = parse_transaction(&none).unwrap();
    assert!(matches!(extract_payment_value(&tx, &addr([0xaa; 20])), Err(Error::MalformedTransaction)));
    let outs: Vec<(i64, Vec<u8>)> = (0..33).map(|_| (1, p2pkh(&[0xaa; 20]))).collect();
    let many = tx_bytes(&script_sig(), None, &outs);
    let tx = parse_transaction(&many).unwrap();
    assert!(matches!(Pallet::extract_outputs(&tx), Err(Error::MalformedTransaction)));
    assert!(matches!(
        p.validate_transaction(&many, 0, &addr([0xaa; 20]), None),
        Err(Error::MalformedTransaction)
    ));
}

#[test]
fn outputs_are_sorted_into_kinds() {
    let raw = payload_tx(&[7; 32]);
    let tx = parse_transaction(&raw).unwrap();
    let (pays, rets) = Pallet::extract_outputs(&tx).unwrap();
    assert_eq!(pays.len(), 2);
    assert_eq!(pays[0].0, 10_000);
    assert_eq!(pays[0].1.hash, vec![0xaa; 20]);
    assert_eq!(pays[1].0, 2_500);
    assert_eq!(rets.len(), 1);
    assert_eq!(rets[0].1, vec![7; 32]);
}

#[test]
fn output_script_kinds() {
    let mut p2sh = vec![0xa9, 0x14];
    p2sh.extend_from_slice(&[3u8; 20]);
    p2sh.push(0x87);
    let mut wpkh = vec![0x00, 0x14];
    wpkh.extend_from_slice(&[4u8; 20]);
    let mut wsh = vec![0x00, 0x20];
    wsh.extend_from_slice(&[5u8; 32]);
    let raw = tx_bytes(&script_sig(), None, &[(1, p2sh), (2, wpkh), (3, wsh), (4, vec![0x51])]);
    let tx: Transaction = parse_transaction(&raw).unwrap();
    let a = tx.outputs[0].extract_address().unwrap();
    assert_eq!((a.kind, a.hash), (P2SH, vec![3u8; 20]));
    let a = tx.outputs[1].extract_address().unwrap();
    assert_eq!((a.kind, a.hash), (P2WPKH_V0, vec![4u8; 20]));
    let a = tx.outputs[2].extract_address().unwrap();
    assert_eq!((a.kind, a.hash), (P2WSH_V0, vec![5u8; 32]));
    assert!(matches!(tx.outputs[3].extract_address(), Err(Error::UnsupportedOutputFormat)));
}

#[test]
fn segwit_transaction_and_id() {
    let outs = [(500, p2pkh(&[0xaa; 20]))];
    let with = tx_bytes(&[], Some(vec![vec![0x30; 71], pubkey()]), &outs);
    let without = tx_bytes(&[], None, &outs);
    let (tx, id) = parse_transaction_with_id(&with).unwrap();
    let (_, plain_id) = parse_transaction_with_id(&without).unwrap();
    assert!(id == plain_id);
    assert_eq!(id.content, sha256d(&without));
    assert_eq!(tx.inputs[0].witness.len(), 2);
    let origin = tx.inputs[0].extract_address().unwrap();
    assert_eq!(origin.kind, P2WPKH_V0);
    assert_eq!(origin.hash, hash160(&pubkey()).to_vec());
}

#[test]
fn malformed_transactions() {
    let raw = payload_tx(&[1; 32]);
    assert!(parse_transaction(&raw[..raw.len() - 1]).is_err());
    let mut longer = raw.clone();
    longer.push(0);
    assert!(matches!(parse_transaction(&longer), Err(Error::MalformedTransaction)));
    assert!(matches!(parse_transaction(&[1, 0, 0]), Err(Error::EndOfFile)));
    let unknown_input = tx_bytes(&[0x51], None, &[(1, p2pkh(&[0xaa; 20]))]);
    let tx = parse_transaction(&unknown_input).unwrap();
    assert!(matches!(tx.inputs[0].extract_address(), Err(Error::UnsupportedInputFormat)));
    let p = relay();
    assert!(matches!(
        p.validate_transaction(&unknown_input, 0, &addr([0xaa; 20]), None),
        Err(Error::MalformedTransaction)
    ));
}

#[test]
fn compact_size_integers() {
    assert_eq!(read_varint(&[0xfc], 0).unwrap(), (0xfc, 1));
    assert_eq!(read_varint(&[0xfd, 0x34, 0x12], 0).unwrap(), (0x1234, 3));
    assert_eq!(read_varint(&[0xfe, 1, 0, 0, 1], 0).unwrap(), (0x0100_0001, 5));
    assert_eq!(read_varint(&[0xff, 1, 0, 0, 0, 0, 0, 0, 2], 0).unwrap(), (0x0200_0000_0000_0001, 9));
    assert!(matches!(read_varint(&[0xfd, 0x34], 0), Err(Error::EndOfFile)));
}

fn single_proof(header: &RawBlockHeader, txid: &[u8; 32]) -> Vec<u8> {
    let mut b = header.content.to_vec();
    b.extend_from_slice(&1u32.to_le_bytes());
    b.push(1);
    b.extend_from_slice(txid);
    b.push(1);
    b.push(1);
    b
}

fn pair(a: &[u8; 32], b: &[u8; 32]) -> [u8; 32] {
    let mut v = a.to_vec();
    v.extend_from_slice(b);
    sha256d(&v)
}

#[test]
fn merkle_proof_of_middle_leaf() {
    let a = [1u8; 32];
    let b = [2u8; 32];
    let c = [3u8; 32];
    let ab = pair(&a, &b);
    let cc = pair(&c, &c);
    let root = pair(&ab, &cc);
    let header = mine(&H256Le { content: [0; 32] }, &root, 1);
    let mut raw = header.content.to_vec();
    raw.extend_from_slice(&3u32.to_le_bytes());
    raw.push(3);
    raw.extend_from_slice(&a);
    raw.extend_from_slice(&b);
    raw.extend_from_slice(&cc);
    raw.push(1);
    raw.push(0x0b);
    let proof = MerkleProof::parse(&raw).unwrap();
    assert_eq!(proof.transactions_count, 3);
    let result = proof.verify_proof().unwrap();
    assert_eq!(result.extracted_root.content, root);
    assert_eq!(result.transaction_hash.content, b);
    // a spare hash is refused
    let mut spare = header.content.to_vec();
    spare.extend_from_slice(&3u32.to_le_bytes());
    spare.push(4);
    spare.extend_from_slice(&a);
    spare.extend_from_slice(&b);
    spare.extend_from_slice(&cc);
    spare.extend_from_slice(&c);
    spare.push(1);
    spare.push(0x0b);
    let proof = MerkleProof::parse(&spare).unwrap();
    assert!(matches!(proof.verify_proof(), Err(Error::MalformedMerkleProof)));
    // trailing bytes are refused
    let mut trailing = raw.clone();
    trailing.push(0);
    assert!(matches!(MerkleProof::parse(&trailing), Err(Error::MalformedMerkleProof)));
    assert!(matches!(MerkleProof::parse(&raw[..83]), Err(Error::EndOfFile)));
}

#[test]
fn inclusion_scenario() {
    let raw_tx = payload_tx(&[0x42; 32]);
    let (_, txid) = parse_transaction_with_id(&raw_tx).unwrap();
    let mut builder = ExtBuilder::new();
    builder.config = GenesisConfig { bitcoin_confirmations: 2, parachain_confirmations: 5, ..GenesisConfig::default() };
    let mut p = builder.build();
    let block = mine(&H256Le { content: [0; 32] }, &txid.content, 1000);
    p.initialize(1, block, 100).unwrap();
    let next = mine(&block.hash(), &[9; 32], 1600);
    p.store_block_header(1, next).unwrap();
    let proof = single_proof(&block, &txid.content);
    // the header was stored at block 1 and needs 5 more
    p.security.active_block_number = 5;
    assert!(matches!(p.verify_transaction_inclusion(txid, &proof, None), Err(Error::ParachainConfirmations)));
    p.security.active_block_number = 6;
    assert!(p.verify_transaction_inclusion(txid, &proof, None).is_ok());
    assert!(matches!(p.verify_transaction_inclusion(txid, &proof, Some(3)), Err(Error::BitcoinConfirmations)));
    assert!(matches!(
        p.verify_transaction_inclusion(H256Le { content: [8; 32] }, &proof, None),
        Err(Error::InvalidTxid)
    ));
    let (origin, value) = p
        .verify_and_validate_transaction(&proof, None, &raw_tx, 5_000, &addr([0xaa; 20]), Some(H256Le { content: [0x42; 32] }))
        .unwrap();
    assert_eq!(value, 10_000);
    assert_eq!(origin.hash, hash160(&pubkey()).to_vec());
    // a proof for a block the relay does not hold
    let stranger = mine(&H256Le { content: [3; 32] }, &txid.content, 1000);
    let other = single_proof(&stranger, &txid.content);
    assert!(matches!(p.verify_transaction_inclusion(txid, &other, None), Err(Error::BlockNotFound)));
    p.security.shutdown = true;
    assert!(matches!(p.verify_transaction_inclusion(txid, &proof, None), Err(Error::Shutdown)));
}

#[test]
fn inclusion_checks_can_be_disabled() {
    let mut p = relay();
    p.config.disable_inclusion_check = true;
    assert!(p.verify_transaction_inclusion(H256Le { content: [0; 32] }, &[1, 2, 3], None).is_ok());
}

#[test]
fn run_test_hands_a_fresh_relay() {
    let height = run_test(|p: Pallet| {
        assert!(!p.initialized);
        assert_eq!(p.security.active_block_number, 1);
        p.get_best_block_height()
    });
    assert_eq!(height, 0);
}
