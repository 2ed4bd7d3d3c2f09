use btc_relay::error::Error;
use btc_relay::harness::ExtBuilder;
use btc_relay::header::{parse_block_header, RawBlockHeader};
use btc_relay::relay::{check_pow, Event, GenesisConfig, Pallet};
use btc_relay::security::ErrorCode;
use btc_relay::types::H256Le;

const BITS: u32 = 0x207fffff;

fn mine(prev: &H256Le, tag: u8, time: u32) -> RawBlockHeader {
    let mut nonce: u32 = 0;
    loop {
        let mut b = Vec::new();
        b.extend_from_slice(&1u32.to_le_bytes());
        b.extend_from_slice(&prev.content);
        b.extend_from_slice(&[tag; 32]);
        b.extend_from_slice(&time.to_le_bytes());
        b.extend_from_slice(&BITS.to_le_bytes());
        b.extend_from_slice(&nonce.to_le_bytes());
        let raw = RawBlockHeader::from_bytes(&b).unwrap();
        let h = parse_block_header(&raw).unwrap();
        if check_pow(&raw.hash(), &h.target) {
            return raw;
        }
        nonce += 1;
    }
}

fn relay(confirmations: u32) -> Pallet {
    let mut builder = ExtBuilder::new();
    builder.config = GenesisConfig { bitcoin_confirmations: confirmations, ..GenesisConfig::default() };
    builder.build()
}

/// Initialises at height 100 and stores `n` headers on top; gives all hashes and raws.
fn linear(p: &mut Pallet, n: usize) -> Vec<RawBlockHeader> {
    let genesis = mine(&H256Le { content: [0u8; 32] }, 0xaa, 1000);
    p.initialize(7, genesis, 100).unwrap();
    let mut raws = vec![genesis];
    for i in 0..n {
        let prev = raws[i].hash();
        let raw = mine(&prev, 1 + i as u8, 1000 + 600 * (i as u32 + 1));
        p.store_block_header(7, raw).unwrap();
        raws.push(raw);
    }
    raws
}

#[test]
fn fresh_relay() {
    let mut p = relay(6);
    let genesis = mine(&H256Le { content: [0u8; 32] }, 0xaa, 1000);
    p.initialize(3, genesis, 100).unwrap();
    assert_eq!(p.get_best_block_height(), 100);
    assert_eq!(p.start_block_height, 100);
    assert_eq!(p.chains.len(), 1);
    assert_eq!(p.chains[0].hashes.len(), 1);
    assert!(p.get_best_block() == genesis.hash());
    assert!(p.block_header_exists(genesis.hash()));
    assert!(matches!(p.events[0], Event::Initialized(100, _, 3)));
    assert!(matches!(p.initialize(3, genesis, 100), Err(Error::AlreadyInitialized)));
}

#[test]
fn linear_extension() {
    let mut p = relay(6);
    let raws = linear(&mut p, 6);
    assert_eq!(p.get_best_block_height(), 106);
    assert!(p.get_best_block() == raws[6].hash());
    let mains = p.events.iter().filter(|e| matches!(e, Event::StoreMainChainHeader(..))).count();
    assert_eq!(mains, 6);
    assert_eq!(p.chains.len(), 1);
    assert_eq!(p.chains[0].max_height, 106);
    for (k, raw) in raws.iter().enumerate() {
        assert!(p.chains[0].hashes[k] == raw.hash());
    }
    assert_eq!(p.is_fully_initialized().unwrap(), true);
}

#[test]
fn not_fully_initialized_before_confirmations() {
    let mut p = relay(6);
    linear(&mut p, 5);
    assert_eq!(p.is_fully_initialized().unwrap(), false);
    let q = relay(6);
    assert_eq!(q.is_fully_initialized().unwrap(), false);
}

fn fork_from(p: &mut Pallet, base: &RawBlockHeader, heights: usize, tag: u8) -> Vec<RawBlockHeader> {
    let mut out = Vec::new();
    let mut prev = base.hash();
    for i in 0..heights {
        let raw = mine(&prev, tag + i as u8, 5000 + 600 * i as u32);
        p.store_block_header(9, raw).unwrap();
        prev = raw.hash();
        out.push(raw);
    }
    out
}

#[test]
fn shallow_fork() {
    let mut p = relay(6);
    let raws = linear(&mut p, 6);
    let before = p.events.len();
    let fork = fork_from(&mut p, &raws[2], 3, 0x50);
    let forks = p.events[before..].iter().filter(|e| matches!(e, Event::StoreForkHeader(..))).count();
    assert_eq!(forks, 3);
    assert_eq!(p.events.len(), before + 3);
    assert_eq!(p.chains.len(), 2);
    assert_eq!(p.chains[0].chain_id, 0);
    assert_eq!(p.chains[0].max_height, 106);
    assert_eq!(p.chains[1].max_height, 105);
    assert_eq!(p.chains[1].start_height, 103);
    assert!(p.get_best_block() == raws[6].hash());
    assert!(p.chains[1].hashes[2] == fork[2].hash());
}

#[test]
fn reorg_after_margin() {
    let mut p = relay(6);
    let raws = linear(&mut p, 6);
    let fork = fork_from(&mut p, &raws[2], 3, 0x50);
    let mut prev = fork[2].hash();
    let mut more = Vec::new();
    // H6' .. H12': heights 106 .. 112
    for i in 0..7u8 {
        let raw = mine(&prev, 0x60 + i, 9000 + 600 * i as u32);
        p.store_block_header(9, raw).unwrap();
        prev = raw.hash();
        more.push(raw);
    }
    assert_eq!(p.chains[0].chain_id, 0);
    assert_eq!(p.get_best_block_height(), 106);
    assert!(p.get_best_block() == raws[6].hash());
    assert!(!p.events.iter().any(|e| matches!(e, Event::ChainReorg(..))));
    assert!(matches!(p.events[p.events.len() - 2], Event::ForkAheadOfMainChain(106, 112, _)));
    // H13' at height 113 stands 7 above the main chain
    let h13 = mine(&prev, 0x70, 20000);
    p.store_block_header(9, h13).unwrap();
    assert_eq!(p.get_best_block_height(), 113);
    assert!(p.get_best_block() == h13.hash());
    let reorg = p.events.iter().find(|e| matches!(e, Event::ChainReorg(..))).unwrap();
    match reorg {
        Event::ChainReorg(tip, height, depth) => {
            assert!(*tip == h13.hash());
            assert_eq!(*height, 113);
            assert_eq!(*depth, 10);
        }
        _ => unreachable!(),
    }
    assert!(matches!(p.events[p.events.len() - 1], Event::StoreMainChainHeader(113, _, 9)));
    // the main chain now runs through the fork
    assert_eq!(p.chains[0].max_height, 113);
    assert!(p.chains[0].hashes[3] == fork[0].hash());
    assert!(p.chains[0].hashes[13] == h13.hash());
    assert!(p.chains[0].hashes[2] == raws[2].hash());
    // the displaced blocks 103..106 form a new chain
    assert_eq!(p.chains.len(), 2);
    let displaced = &p.chains[1];
    assert_eq!(displaced.start_height, 103);
    assert_eq!(displaced.max_height, 106);
    assert!(displaced.chain_id > 1);
    for k in 0..4 {
        assert!(displaced.hashes[k] == raws[3 + k].hash());
    }
    for h in &p.block_headers {
        if h.block_hash == raws[4].hash() {
            assert_eq!(h.chain_ref, displaced.chain_id);
        }
        if h.block_hash == fork[1].hash() {
            assert_eq!(h.chain_ref, 0);
        }
    }
}

#[test]
fn duplicate_and_outdated() {
    let mut p = relay(6);
    let raws = linear(&mut p, 3);
    assert!(matches!(p.store_block_header(7, raws[3]), Err(Error::OutdatedBlock)));
    assert!(matches!(p.store_block_header(7, raws[2]), Err(Error::DuplicateBlock)));
    assert_eq!(p.get_best_block_height(), 103);
}

#[test]
fn unknown_parent_and_low_difficulty() {
    let mut p = relay(6);
    let raws = linear(&mut p, 1);
    let orphan = mine(&H256Le { content: [9u8; 32] }, 3, 5000);
    assert!(matches!(p.store_block_header(7, orphan), Err(Error::PrevBlock)));
    // a target of 1 cannot be met
    let mut b = Vec::new();
    b.extend_from_slice(&1u32.to_le_bytes());
    b.extend_from_slice(&raws[1].hash().content);
    b.extend_from_slice(&[4u8; 32]);
    b.extend_from_slice(&5000u32.to_le_bytes());
    b.extend_from_slice(&0x03000001u32.to_le_bytes());
    b.extend_from_slice(&0u32.to_le_bytes());
    let raw = RawBlockHeader::from_bytes(&b).unwrap();
    assert!(matches!(p.store_block_header(7, raw), Err(Error::LowDiff)));
}

#[test]
fn wrong_target_is_refused() {
    let mut p = relay(6);
    let raws = linear(&mut p, 1);
    let prev = raws[1].hash();
    let mut nonce = 0u32;
    let raw = loop {
        let mut b = Vec::new();
        b.extend_from_slice(&1u32.to_le_bytes());
        b.extend_from_slice(&prev.content);
        b.extend_from_slice(&[4u8; 32]);
        b.extend_from_slice(&5000u32.to_le_bytes());
        b.extend_from_slice(&0x207ffffeu32.to_le_bytes());
        b.extend_from_slice(&nonce.to_le_bytes());
        let raw = RawBlockHeader::from_bytes(&b).unwrap();
        let h = parse_block_header(&raw).unwrap();
        if check_pow(&raw.hash(), &h.target) {
            break raw;
        }
        nonce += 1;
    };
    assert!(matches!(p.store_block_header(7, raw), Err(Error::DiffTargetHeader)));
    p.config.disable_difficulty_check = true;
    assert!(p.store_block_header(7, raw).is_ok());
}

#[test]
fn shutdown_blocks_storing() {
    let mut p = relay(6);
    let raws = linear(&mut p, 1);
    p.security.shutdown = true;
    let next = mine(&raws[1].hash(), 3, 5000);
    assert!(matches!(p.store_block_header(7, next), Err(Error::Shutdown)));
}

#[test]
fn flag_and_clear_errors() {
    let mut p = relay(6);
    let raws = linear(&mut p, 3);
    let h = raws[2].hash();
    p.security.record_relay_failure(ErrorCode::NoDataBTCRelay);
    assert!(p.security.is_parachain_error_set(ErrorCode::NoDataBTCRelay));
    assert!(matches!(p.insert_block_error(h, ErrorCode::OracleOffline), Err(Error::UnknownErrorcode)));
    assert!(matches!(
        p.insert_block_error(H256Le { content: [5u8; 32] }, ErrorCode::NoDataBTCRelay),
        Err(Error::BlockNotFound)
    ));
    p.insert_block_error(h, ErrorCode::NoDataBTCRelay).unwrap();
    assert!(matches!(p.events[p.events.len() - 1], Event::FlagBlockError(_, 0, ErrorCode::NoDataBTCRelay)));
    assert_eq!(p.chains[0].no_data, vec![102]);
    let n = p.events.len();
    p.insert_block_error(h, ErrorCode::NoDataBTCRelay).unwrap();
    assert_eq!(p.events.len(), n);
    p.remove_block_error(h, ErrorCode::NoDataBTCRelay).unwrap();
    assert!(matches!(p.events[p.events.len() - 1], Event::ClearBlockError(_, 0, ErrorCode::NoDataBTCRelay)));
    assert!(p.chains[0].no_data.is_empty());
    assert!(!p.security.error_no_data_btc_relay);
}

#[test]
fn verification_gate_follows_flags() {
    let mut p = relay(6);
    let raws = linear(&mut p, 4);
    assert!(p.transaction_verification_allowed(101).is_ok());
    p.flag_block_error(raws[3].hash(), ErrorCode::NoDataBTCRelay).unwrap();
    assert!(p.transaction_verification_allowed(102).is_ok());
    assert!(matches!(p.transaction_verification_allowed(103), Err(Error::NoData)));
    p.flag_block_error(raws[1].hash(), ErrorCode::InvalidBTCRelay).unwrap();
    assert!(matches!(p.transaction_verification_allowed(100), Err(Error::Invalid)));
    p.clear_block_error(raws[1].hash(), ErrorCode::InvalidBTCRelay).unwrap();
    p.clear_block_error(raws[3].hash(), ErrorCode::NoDataBTCRelay).unwrap();
    assert!(p.transaction_verification_allowed(104).is_ok());
}

#[test]
fn confirmation_gate() {
    let p = relay(6);
    assert!(p.check_bitcoin_confirmations(105, Some(6), 100).is_ok());
    assert!(matches!(p.check_bitcoin_confirmations(104, Some(6), 100), Err(Error::BitcoinConfirmations)));
    assert!(p.check_bitcoin_confirmations(105, None, 100).is_ok());
    assert!(matches!(p.check_bitcoin_confirmations(104, None, 100), Err(Error::BitcoinConfirmations)));
    assert!(matches!(p.check_bitcoin_confirmations(5, Some(0), 0), Err(Error::ArithmeticUnderflow)));
    assert!(matches!(p.check_bitcoin_confirmations(5, Some(2), u32::MAX), Err(Error::ArithmeticOverflow)));
}

#[test]
fn ongoing_fork_gate() {
    let mut p = relay(2);
    let raws = linear(&mut p, 4);
    assert!(p.ensure_no_ongoing_fork(104).is_ok());
    fork_from(&mut p, &raws[2], 1, 0x40);
    // fork tip at 103, main at 104: 104 < 103 + 2
    assert!(matches!(p.ensure_no_ongoing_fork(104), Err(Error::OngoingFork)));
    assert!(p.ensure_no_ongoing_fork(105).is_ok());
}

#[test]
fn forks_are_queued_by_height() {
    let mut p = relay(6);
    let raws = linear(&mut p, 6);
    // forks of one, three and two blocks from heights 104, 101 and 102
    fork_from(&mut p, &raws[4], 1, 0x20);
    fork_from(&mut p, &raws[1], 3, 0x30);
    fork_from(&mut p, &raws[2], 2, 0x40);
    assert_eq!(p.chains.len(), 4);
    assert_eq!(p.chains[0].chain_id, 0);
    let heights: Vec<u32> = p.chains.iter().map(|c| c.max_height).collect();
    assert_eq!(heights, vec![106, 105, 104, 104]);
    for k in 2..p.chains.len() {
        assert!(p.chains[k - 1].max_height >= p.chains[k].max_height);
    }
    // the fork that reached 104 first stays ahead of the one that caught up
    assert_eq!(p.chains[1].start_height, 105);
    assert_eq!(p.chains[2].start_height, 102);
    assert_eq!(p.chains[3].start_height, 103);
    // every stored header is indexed under its own chain
    for h in &p.block_headers {
        let c = p.chains.iter().find(|c| c.chain_id == h.chain_ref).unwrap();
        assert!(c.hashes[(h.block_height - c.start_height) as usize] == h.block_hash);
    }
}

#[test]
fn fork_of_a_fork_replaces_the_main_chain() {
    let mut p = relay(6);
    let raws = linear(&mut p, 6);
    // fork A: 103..108, two ahead of the main chain
    let a = fork_from(&mut p, &raws[2], 6, 0x50);
    assert_eq!(p.get_best_block_height(), 106);
    // fork B on A's block at 107: 108..113, seven ahead
    let b = fork_from(&mut p, &a[4], 6, 0x70);
    assert_eq!(p.get_best_block_height(), 113);
    assert!(p.get_best_block() == b[5].hash());
    assert!(p.events.iter().any(|e| matches!(e, Event::ChainReorg(_, 113, _))));
    let main = &p.chains[0];
    assert_eq!(main.chain_id, 0);
    assert_eq!(main.max_height, 113);
    for k in 0..3 {
        assert!(main.hashes[k] == raws[k].hash());
    }
    for k in 0..5 {
        assert!(main.hashes[3 + k] == a[k].hash());
    }
    for k in 0..6 {
        assert!(main.hashes[8 + k] == b[k].hash());
    }
    // the old main blocks 103..106 and A's block at 108 are forks now
    assert_eq!(p.chains.len(), 3);
    let starts: Vec<u32> = p.chains.iter().skip(1).map(|c| c.start_height).collect();
    assert!(starts.contains(&103) && starts.contains(&108));
    for h in &p.block_headers {
        let c = p.chains.iter().find(|c| c.chain_id == h.chain_ref).unwrap();
        assert!(c.hashes[(h.block_height - c.start_height) as usize] == h.block_hash);
    }
    // A's leftover block at 108 is within the margin of the new tip
    assert_eq!(p.chains[1].max_height, 108);
    assert!(matches!(p.ensure_no_ongoing_fork(113), Err(Error::OngoingFork)));
    assert!(p.ensure_no_ongoing_fork(114).is_ok());
}
