//! Raw 80-byte block headers and their parsed form.
use vstd::prelude::*;
use crate::error::Error;
use crate::hashing::{sha256d, sha256d_of};
use crate::types::{H256Le, U256, two_256, u256_checked_mul, u256_div, lemma_u256_bounds};

verus! {

/// Length of a serialized block header.
pub const HEADER_SIZE: usize = 80;

/// The integer that four bytes at `pos` encode, least significant first.
pub open spec fn u32_le(s: Seq<u8>, pos: int) -> int {
    s[pos] as int + 256 * s[pos + 1] as int + 0x1_0000 * s[pos + 2] as int + 0x100_0000 * s[pos
        + 3] as int
}

/// `256^n`.
pub open spec fn pow256(n: nat) -> int
    decreases n,
{
    if n == 0 {
        1
    } else {
        256 * pow256((n - 1) as nat)
    }
}

/// The target that a compact "bits" field stands for: the low three bytes are the
/// mantissa, the high byte the exponent, and the target is `mantissa * 256^(exponent - 3)`
/// (a division where the exponent is below 3).
pub open spec fn compact_target(bits: int) -> int {
    let e = bits / 0x100_0000;
    let m = bits % 0x100_0000;
    if e >= 3 {
        m * pow256((e - 3) as nat)
    } else {
        m / pow256((3 - e) as nat)
    }
}

/// Reads four bytes at `pos`, least significant first.
pub fn read_u32_le(s: &[u8], pos: usize) -> (r: u32)
    requires
        pos + 4 <= s@.len(),
    ensures
        r == u32_le(s@, pos as int),
{
    s[pos] as u32 + 256 * (s[pos + 1] as u32) + 0x1_0000 * (s[pos + 2] as u32) + 0x100_0000 * (
    s[pos + 3] as u32)
}

/// Decodes a compact target; fails where it needs more than 256 bits.
pub fn decode_compact_target(bits: u32) -> (r: Result<U256, Error>)
    ensures
        r matches Ok(t) ==> t.value() == compact_target(bits as int),
        r matches Err(e) ==> e == Error::MalformedHeader,
        r is Err <==> compact_target(bits as int) >= two_256(),
{
    let e: u32 = bits / 0x100_0000;
    let m: u32 = bits % 0x100_0000;
    if m == 0 {
        proof {
            if e >= 3 {
                assert(0 * pow256((e - 3) as nat) == 0);
            } else {
                lemma_pow256_positive((3 - e) as nat);
                assert(0int / pow256((3 - e) as nat) == 0) by (nonlinear_arith)
                    requires
                        pow256((3 - e) as nat) >= 1,
                ;
            }
        }
        return Ok(U256::from_u64(0));
    }
    let n: u32 = if e >= 3 { e - 3 } else { 3 - e };
    proof {
        reveal_with_fuel(pow256, 4);
        assert(pow256(3) == 0x100_0000);
        if e < 3 {
            lemma_pow256_monotone(n as nat, 3);
        }
    }
    let mut p = U256::from_u64(1);
    let mut i: u32 = 0;
    while i < n
        invariant
            0 <= i <= n,
            e == bits / 0x100_0000,
            m == bits % 0x100_0000,
            n == (if e >= 3 { e - 3 } else { 3 - e }),
            e < 3 ==> n <= 3,
            pow256(3) == 0x100_0000,
            1 <= m < 0x100_0000,
            p.value() == pow256(i as nat),
        decreases n - i,
    {
        match u256_checked_mul(p, U256::from_u64(256)) {
            Some(q) => {
                p = q;
            },
            None => {
                proof {
                    assert(pow256((i + 1) as nat) == 256 * pow256(i as nat));
                    assert(pow256((i + 1) as nat) >= two_256());
                    lemma_pow256_monotone((i + 1) as nat, n as nat);
                    if e < 3 {
                        lemma_pow256_monotone(n as nat, 3);
                        assert(two_256() > 0x100_0000);
                    }
                    assert(m as int * pow256(n as nat) >= pow256(n as nat)) by (nonlinear_arith)
                        requires
                            m >= 1,
                            pow256(n as nat) >= 0,
                    ;
                    assert(e >= 3);
                    assert(e as int == bits as int / 0x100_0000);
                    assert(m as int == bits as int % 0x100_0000);
                    assert((e - 3) as nat == n as nat);
                    assert(compact_target(bits as int) == m as int * pow256(n as nat));
                }
                return Err(Error::MalformedHeader);
            },
        }
        i = i + 1;
    }
    let mt = U256::from_u64(m as u64);
    if e >= 3 {
        match u256_checked_mul(mt, p) {
            Some(t) => Ok(t),
            None => Err(Error::MalformedHeader),
        }
    } else {
        proof {
            lemma_pow256_positive(n as nat);
        }
        let t = u256_div(mt, p);
        proof {
            lemma_u256_bounds(t);
        }
        Ok(t)
    }
}

/// A serialized block header: exactly 80 bytes.
#[derive(Clone, Copy, Debug)]
pub struct RawBlockHeader {
    pub content: [u8; 80],
}

impl View for RawBlockHeader {
    type V = Seq<u8>;

    open spec fn view(&self) -> Seq<u8> {
        self.content@
    }
}

impl RawBlockHeader {
    /// Takes a header from bytes; any length but 80 is refused.
    pub fn from_bytes(bytes: &[u8]) -> (r: Result<RawBlockHeader, Error>)
        ensures
            r matches Ok(h) ==> h@ == bytes@,
            r is Err <==> bytes@.len() != 80,
            r matches Err(e) ==> e == Error::InvalidHeaderSize,
    {
        if bytes.len() != HEADER_SIZE {
            return Err(Error::InvalidHeaderSize);
        }
        let mut content = [0u8; 80];
        let mut i: usize = 0;
        while i < 80
            invariant
                0 <= i <= 80,
                bytes@.len() == 80,
                content@.len() == 80,
                forall|k: int| 0 <= k < i ==> content@[k] == bytes@[k],
            decreases 80 - i,
        {
            content[i] = bytes[i];
            i = i + 1;
        }
        proof {
            assert(content@ =~= bytes@);
        }
        Ok(RawBlockHeader { content })
    }

    /// The block hash: the double SHA-256 of the 80 bytes.
    pub fn hash(&self) -> (r: H256Le)
        ensures
            r@ == sha256d_of(self@),
    {
        H256Le { content: sha256d(self.content.as_slice()) }
    }
}

/// The fields of a block header.
#[derive(Clone, Copy, Debug)]
pub struct BlockHeader {
    pub merkle_root: H256Le,
    pub target: U256,
    pub timestamp: u32,
    pub version: i32,
    pub hash_prev_block: H256Le,
    pub nonce: u32,
}

/// What the 80 bytes of `raw` say, where its target fits in 256 bits.
pub open spec fn header_of(raw: Seq<u8>, h: BlockHeader) -> bool {
    &&& h.version as int == (if u32_le(raw, 0) < 0x8000_0000 {
        u32_le(raw, 0)
    } else {
        u32_le(raw, 0) - 0x1_0000_0000
    })
    &&& h.hash_prev_block@ == raw.subrange(4, 36)
    &&& h.merkle_root@ == raw.subrange(36, 68)
    &&& h.timestamp == u32_le(raw, 68)
    &&& h.target.value() == compact_target(u32_le(raw, 72))
    &&& h.nonce == u32_le(raw, 76)
}

/// Copies 32 bytes at `pos` into a hash.
fn read_hash(s: &[u8], pos: usize) -> (r: H256Le)
    requires
        pos + 32 <= s@.len(),
    ensures
        r@ == s@.subrange(pos as int, pos + 32),
{
    let len = s.len();
    let mut content = [0u8; 32];
    let mut i: usize = 0;
    while i < 32
        invariant
            0 <= i <= 32,
            len == s@.len(),
            pos + 32 <= s@.len(),
            content@.len() == 32,
            forall|k: int| 0 <= k < i ==> content@[k] == s@[pos + k],
        decreases 32 - i,
    {
        content[i] = s[pos + i];
        i = i + 1;
    }
    proof {
        assert(content@ =~= s@.subrange(pos as int, pos + 32));
    }
    H256Le { content }
}

/// Parses the fields of a raw header; fails only where its target does not fit in 256 bits.
pub fn parse_block_header(raw: &RawBlockHeader) -> (r: Result<BlockHeader, Error>)
    ensures
        r matches Ok(h) ==> header_of(raw@, h),
        r is Err <==> compact_target(u32_le(raw@, 72)) >= two_256(),
        r matches Err(e) ==> e == Error::MalformedHeader,
{
    let s = raw.content.as_slice();
    let v = read_u32_le(s, 0);
    let version: i32 = if v < 0x8000_0000 {
        v as i32
    } else {
        (v - 0x8000_0000) as i32 - 0x4000_0000 - 0x4000_0000
    };
    let hash_prev_block = read_hash(s, 4);
    let merkle_root = read_hash(s, 36);
    let timestamp = read_u32_le(s, 68);
    let bits = read_u32_le(s, 72);
    let target = decode_compact_target(bits)?;
    let nonce = read_u32_le(s, 76);
    Ok(BlockHeader { merkle_root, target, timestamp, version, hash_prev_block, nonce })
}

pub proof fn lemma_pow256_positive(n: nat)
    ensures
        pow256(n) >= 1,
    decreases n,
{
    if n > 0 {
        lemma_pow256_positive((n - 1) as nat);
    }
}

pub proof fn lemma_pow256_monotone(a: nat, b: nat)
    requires
        a <= b,
    ensures
        pow256(a) <= pow256(b),
    decreases b,
{
    lemma_pow256_positive(b);
    if a < b {
        lemma_pow256_monotone(a, (b - 1) as nat);
    }
}

} // verus!
