use btc_relay::difficulty::{compute_retarget, max_target, retarget_due};
use btc_relay::error::Error;
use btc_relay::hashing::{hash160, sha256d};
use btc_relay::header::{decode_compact_target, parse_block_header, RawBlockHeader};
use btc_relay::relay::check_pow;
use btc_relay::types::{H256Le, U256};

fn hex(s: &str) -> Vec<u8> {
    (0..s.len())
        .step_by(2)
        .map(|i| u8::from_str_radix(&s[i..i + 2], 16).unwrap())
        .collect()
}

const GENESIS: &str = "0100000000000000000000000000000000000000000000000000000000000000000000003ba3edfd7a7b12b27ac72c3e67768f617fc81bc3888a51323a9fb8aa4b1e5e4a29ab5f49ffff001d1dac2b7c";

#[test]
fn genesis_header_hash() {
    let raw = RawBlockHeader::from_bytes(&hex(GENESIS)).unwrap();
    let mut expected = hex("000000000019d6689c085ae165831e934ff763ae46a2a6c172b3f1b60a8ce26f");
    expected.reverse();
    assert_eq!(raw.hash().content.to_vec(), expected);
}

#[test]
fn genesis_header_fields() {
    let raw = RawBlockHeader::from_bytes(&hex(GENESIS)).unwrap();
    let h = parse_block_header(&raw).unwrap();
    assert_eq!(h.version, 1);
    assert_eq!(h.timestamp, 1231006505);
    assert_eq!(h.nonce, 2083236893);
    assert_eq!(h.hash_prev_block.content, [0u8; 32]);
    let mut root = hex("4a5e1e4baab89f3a32518a88c31bc87f618f76673e2cc77ab2127b7afdeda33b");
    root.reverse();
    assert_eq!(h.merkle_root.content.to_vec(), root);
    let t = decode_compact_target(0x1d00ffff).unwrap();
    assert!(h.target.same_value(&t));
    assert!(check_pow(&raw.hash(), &h.target));
}

#[test]
fn header_size_is_checked() {
    assert!(matches!(RawBlockHeader::from_bytes(&[0u8; 79]), Err(Error::InvalidHeaderSize)));
    assert!(matches!(RawBlockHeader::from_bytes(&[0u8; 81]), Err(Error::InvalidHeaderSize)));
    assert!(RawBlockHeader::from_bytes(&[0u8; 80]).is_ok());
}

#[test]
fn compact_target_values() {
    let t = decode_compact_target(0x1d00ffff).unwrap();
    assert_eq!(t.w, [0, 0, 0, 0xffff_0000]);
    let small = decode_compact_target(0x03123456).unwrap();
    assert_eq!(small.w, [0x123456, 0, 0, 0]);
    let shifted = decode_compact_target(0x02123456).unwrap();
    assert_eq!(shifted.w, [0x1234, 0, 0, 0]);
    assert!(matches!(decode_compact_target(0x21010000), Err(Error::MalformedHeader)));
    assert!(decode_compact_target(0x2100ffff).is_ok());
    assert_eq!(decode_compact_target(0x22000000).unwrap().w, [0, 0, 0, 0]);
}

#[test]
fn pow_boundary_at_target() {
    let target = decode_compact_target(0x1d00ffff).unwrap();
    // target = 0xffff * 256^26: bytes 26 and 27 are 0xff, the rest zero
    let mut at = [0u8; 32];
    at[26] = 0xff;
    at[27] = 0xff;
    let mut below = [0xffu8; 32];
    below[26] = 0xfe;
    below[27] = 0xff;
    for b in below.iter_mut().skip(28) {
        *b = 0;
    }
    assert!(check_pow(&H256Le { content: below }, &target));
    assert!(!check_pow(&H256Le { content: at }, &target));
}

#[test]
fn retarget_heights() {
    assert!(!retarget_due(0));
    assert!(!retarget_due(2015));
    assert!(retarget_due(2016));
    assert!(!retarget_due(2017));
    assert!(retarget_due(4032));
}

#[test]
fn retarget_halves_target_for_half_timespan() {
    let t = decode_compact_target(0x1d00ffff).unwrap();
    let r = compute_retarget(t, 2_000_000, 2_000_000 - 604_800);
    let half = decode_compact_target(0x1c7fff80).unwrap();
    assert!(r.same_value(&half));
}

#[test]
fn retarget_clamps_and_caps() {
    let t = decode_compact_target(0x1c00ffff).unwrap();
    // a clock that went backwards counts as the shortest span: a quarter of the target
    let fast = compute_retarget(t, 1000, 5000);
    let quarter = decode_compact_target(0x1b3fffc0).unwrap();
    assert!(fast.same_value(&quarter));
    // a very slow interval is held to four times the target
    let slow = compute_retarget(t, 100_000_000, 0);
    let four = decode_compact_target(0x1c03fffc).unwrap();
    assert!(slow.same_value(&four));
    // never above the largest target
    let max = max_target();
    let capped = compute_retarget(max, 100_000_000, 0);
    assert!(capped.same_value(&max));
    let huge = U256 { w: [u64::MAX; 4] };
    assert!(compute_retarget(huge, 100_000_000, 0).same_value(&max));
}

#[test]
fn hash160_of_empty() {
    assert_eq!(hash160(&[]).to_vec(), hex("b472a266d0bd89c13706a4132ccfb16f7c3b9fcb"));
}

#[test]
fn sha256d_of_empty() {
    assert_eq!(
        sha256d(&[]).to_vec(),
        hex("5df6e0e2761359d30a8275058e299fcc0381534545f55cf43e41983f5d4c9456")
    );
}
