use btc_relay::error::Error;
use btc_relay::harness::ExtBuilder;
use btc_relay::header::{parse_block_header, RawBlockHeader};
use btc_relay::relay::{check_pow, GenesisConfig, Pallet};
use btc_relay::transaction::extract_op_return_data;
use btc_relay::types::H256Le;

const BITS: u32 = 0x207fffff;

fn mine(prev: &H256Le, root: &[u8; 32], time: u32) -> RawBlockHeader {
    let mut nonce: u32 = 0;
    loop {
        let mut b = Vec::new();
        b.extend_from_slice(&1u32.to_le_bytes());
        b.extend_from_slice(&prev.content);
        b.extend_from_slice(root);
        b.extend_from_slice(&time.to_le_bytes());
        b.extend_from_slice(&BITS.to_le_bytes());
        b.extend_from_slice(&nonce.to_le_bytes());
        let raw = RawBlockHeader::from_bytes(&b).unwrap();
        let h = parse_block_header(&raw).unwrap();
        if check_pow(&raw.hash(), &h.target) {
            return raw;
        }
        nonce += 1;
    }
}

fn relay(confirmations: u32) -> Pallet {
    let mut builder = ExtBuilder::new();
    builder.config = GenesisConfig { bitcoin_confirmations: confirmations, ..GenesisConfig::default() };
    builder.build()
}

fn single_proof(header: &RawBlockHeader, txid: &[u8; 32]) -> Vec<u8> {
    let mut b = header.content.to_vec();
    b.extend_from_slice(&1u32.to_le_bytes());
    b.push(1);
    b.extend_from_slice(txid);
    b.push(1);
    b.push(1);
    b
}

#[test]
fn root_mismatch_is_an_invalid_proof() {
    let mut p = relay(1);
    let block = mine(&H256Le { content: [0; 32] }, &[7; 32], 1000);
    p.initialize(1, block, 100).unwrap();
    let proof = single_proof(&block, &[8; 32]);
    assert!(matches!(
        p.verify_transaction_inclusion(H256Le { content: [8; 32] }, &proof, None),
        Err(Error::InvalidMerkleProof)
    ));
}

#[test]
fn proof_in_a_fork_block_is_refused() {
    let mut p = relay(1);
    let genesis = mine(&H256Le { content: [0; 32] }, &[1; 32], 1000);
    p.initialize(1, genesis, 100).unwrap();
    let mut prev = genesis.hash();
    for i in 0..3u8 {
        let raw = mine(&prev, &[10 + i; 32], 2000 + i as u32);
        p.store_block_header(1, raw).unwrap();
        prev = raw.hash();
    }
    let fork = mine(&genesis.hash(), &[5; 32], 3000);
    p.store_block_header(2, fork).unwrap();
    assert_eq!(p.chains.len(), 2);
    let proof = single_proof(&fork, &[5; 32]);
    assert!(matches!(
        p.verify_transaction_inclusion(H256Le { content: [5; 32] }, &proof, Some(1)),
        Err(Error::InvalidChainID)
    ));
}

#[test]
fn retarget_needs_the_interval_start() {
    let mut p = relay(1);
    let genesis = mine(&H256Le { content: [0; 32] }, &[1; 32], 1000);
    p.initialize(1, genesis, 2015).unwrap();
    let next = mine(&genesis.hash(), &[2; 32], 2000);
    assert!(matches!(p.store_block_header(1, next), Err(Error::MissingBlockHeight)));
    p.config.disable_difficulty_check = true;
    assert!(p.store_block_header(1, next).is_ok());
}

#[test]
fn chain_ids_can_run_out() {
    let mut p = relay(1);
    let genesis = mine(&H256Le { content: [0; 32] }, &[1; 32], 1000);
    p.initialize(1, genesis, 100).unwrap();
    let main = mine(&genesis.hash(), &[2; 32], 2000);
    p.store_block_header(1, main).unwrap();
    p.chain_counter = u32::MAX;
    let fork = mine(&genesis.hash(), &[3; 32], 2100);
    assert!(matches!(p.store_block_header(1, fork), Err(Error::ChainCounterOverflow)));
    p.chain_counter = u32::MAX - 1;
    assert!(p.store_block_header(1, fork).is_ok());
    assert_eq!(p.chain_counter, u32::MAX);
    let next = mine(&main.hash(), &[4; 32], 2200);
    assert!(p.store_block_header(1, next).is_ok());
}

#[test]
fn op_return_format() {
    assert_eq!(extract_op_return_data(&[0x6a, 2, 9, 9]).unwrap(), vec![9, 9]);
    assert!(matches!(extract_op_return_data(&[0x6a, 5, 1]), Err(Error::MalformedOpReturnOutput)));
    assert!(matches!(extract_op_return_data(&[0x51, 1, 1]), Err(Error::MalformedOpReturnOutput)));
    let mut long = vec![0x6a, 82];
    long.extend_from_slice(&[0u8; 82]);
    assert!(matches!(extract_op_return_data(&long), Err(Error::MalformedOpReturnOutput)));
    let mut max = vec![0x6a, 81];
    max.extend_from_slice(&[0u8; 81]);
    assert_eq!(extract_op_return_data(&max).unwrap().len(), 81);
}
