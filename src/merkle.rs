//! Partial Merkle trees, the inclusion proofs of Bitcoin's `gettxoutproof`.
use vstd::prelude::*;
use crate::error::Error;
use crate::hashing::{sha256d, sha256d_of};
use crate::header::{BlockHeader, RawBlockHeader, header_of, parse_block_header, read_u32_le, u32_le, compact_target};
use crate::types::{H256Le, two_256};
use crate::parser::{read_varint, varint_at};
use crate::transaction::copy_range;

verus! {

/// Width of the tree level `height` above the leaves, for `total` leaves.
pub open spec fn tree_width(total: int, height: nat) -> int
    decreases height,
{
    if height == 0 {
        total
    } else {
        (tree_width(total, (height - 1) as nat) + 1) / 2
    }
}

/// How far a traversal has come: flag bits used, hashes used, and the first leaf
/// that the flags mark as matched.
pub type TraversalView = (int, int, Option<Seq<u8>>);

/// Bitcoin's partial Merkle tree traversal at node `pos` of level `height`: the
/// hash of the node and the traversal state after it, or `Err` where flags or
/// hashes run out or a right child repeats its left sibling.
pub open spec fn traverse_spec(
    bits: Seq<bool>,
    hashes: Seq<Seq<u8>>,
    total: int,
    height: nat,
    pos: int,
    st: TraversalView,
) -> Result<(Seq<u8>, TraversalView), ()>
    decreases height,
{
    let (bu, hu, first) = st;
    if bu >= bits.len() {
        Err(())
    } else if height == 0 || !bits[bu] {
        if hu >= hashes.len() {
            Err(())
        } else {
            let h = hashes[hu];
            let first2 = if height == 0 && bits[bu] && first is None {
                Some(h)
            } else {
                first
            };
            Ok((h, (bu + 1, hu + 1, first2)))
        }
    } else {
        match traverse_spec(bits, hashes, total, (height - 1) as nat, pos * 2, (bu + 1, hu, first)) {
            Err(()) => Err(()),
            Ok((left, st1)) => if pos * 2 + 1 < tree_width(total, (height - 1) as nat) {
                match traverse_spec(bits, hashes, total, (height - 1) as nat, pos * 2 + 1, st1) {
                    Err(()) => Err(()),
                    Ok((right, st2)) => if right == left {
                        Err(())
                    } else {
                        Ok((sha256d_of(left + right), st2))
                    },
                }
            } else {
                Ok((sha256d_of(left + left), st1))
            },
        }
    }
}

/// The height of the tree: the lowest level that is one node wide.
pub open spec fn tree_height_ok(total: int, height: nat) -> bool {
    &&& tree_width(total, height) <= 1
    &&& forall|h: nat| h < height ==> #[trigger] tree_width(total, h) > 1
}

/// The tree height for `total` leaves.
pub open spec fn tree_height(total: int) -> nat {
    choose|h: nat| tree_height_ok(total, h)
}

/// What a proof verifies to: the root and the matched transaction hash, where the
/// proof has leaves, no more hashes than leaves, a flag for each hash, a traversal
/// that succeeds, matches a leaf and uses every hash and every flag byte.
pub open spec fn verify_spec(bits: Seq<bool>, hashes: Seq<Seq<u8>>, total: int) -> Option<(Seq<u8>, Seq<u8>)> {
    if total == 0 || hashes.len() > total || bits.len() < hashes.len() {
        None
    } else {
        match traverse_spec(bits, hashes, total, tree_height(total), 0, (0, 0, None)) {
            Ok((root, st)) => if st.2 is Some && st.1 == hashes.len() && (st.0 + 7) / 8 == (
            bits.len() + 7) / 8 {
                Some((root, st.2->0))
            } else {
                None
            },
            Err(()) => None,
        }
    }
}

/// Flag bit `i` of the flag bytes: bit `i % 8` of byte `i / 8`.
pub open spec fn flag_bit(bytes: Seq<u8>, i: int) -> bool {
    ((bytes[i / 8] >> ((i % 8) as u8)) & 1u8) == 1u8
}

/// Where the parts of a proof lie: the number of hashes and where they start, the
/// number of flag bytes and where they start; the flag bytes end the input.
pub open spec fn proof_layout(s: Seq<u8>) -> Option<(int, int, int, int)> {
    if s.len() < 84 {
        None
    } else {
        match varint_at(s, 84) {
            None => None,
            Some((nh, at1)) => if at1 + 32 * nh > s.len() {
                None
            } else {
                match varint_at(s, at1 + 32 * nh) {
                    None => None,
                    Some((nf, at2)) => if at2 + nf == s.len() {
                        Some((nh, at1, nf, at2))
                    } else {
                        None
                    },
                }
            },
        }
    }
}

/// The flag bits a well-laid-out proof holds.
pub open spec fn proof_bits(s: Seq<u8>) -> Seq<bool> {
    let (nh, at1, nf, at2) = proof_layout(s)->0;
    Seq::new((8 * nf) as nat, |i: int| flag_bit(s.subrange(at2, s.len() as int), i))
}

/// The hashes a well-laid-out proof holds.
pub open spec fn proof_hashes(s: Seq<u8>) -> Seq<Seq<u8>> {
    let (nh, at1, nf, at2) = proof_layout(s)->0;
    Seq::new(nh as nat, |i: int| s.subrange(at1 + 32 * i, at1 + 32 * i + 32))
}

/// What a raw proof verifies to: its root and matched transaction.
pub open spec fn proof_outcome(s: Seq<u8>) -> Option<(Seq<u8>, Seq<u8>)> {
    if proof_layout(s) is Some && compact_target(u32_le(s, 72)) < two_256() {
        verify_spec(proof_bits(s), proof_hashes(s), u32_le(s, 80))
    } else {
        None
    }
}

/// A parsed Merkle proof.
#[derive(Clone, Debug)]
pub struct MerkleProof {
    pub raw_header: RawBlockHeader,
    pub block_header: BlockHeader,
    pub transactions_count: u32,
    pub hashes: Vec<H256Le>,
    /// The flag bits, least significant bit of each byte first.
    pub flag_bits: Vec<bool>,
}

/// What a proof verification yields.
#[derive(Clone, Copy, Debug)]
pub struct ProofResult {
    pub extracted_root: H256Le,
    pub transaction_hash: H256Le,
}

struct Traversal {
    bits_used: usize,
    hashes_used: usize,
    first: Option<H256Le>,
}

impl Traversal {
    spec fn view(&self) -> TraversalView {
        (self.bits_used as int, self.hashes_used as int, match self.first {
            Some(h) => Some(h@),
            None => None,
        })
    }
}

/// Double SHA-256 of two hashes side by side.
fn hash_pair(left: &H256Le, right: &H256Le) -> (r: H256Le)
    ensures
        r@ == sha256d_of(left@ + right@),
{
    let mut buf: Vec<u8> = Vec::new();
    let mut i: usize = 0;
    while i < 32
        invariant
            0 <= i <= 32,
            buf@ == left@.subrange(0, i as int),
        decreases 32 - i,
    {
        buf.push(left.content[i]);
        proof {
            assert(left@.subrange(0, i + 1) =~= left@.subrange(0, i as int).push(left@[i as int]));
        }
        i = i + 1;
    }
    let mut k: usize = 0;
    while k < 32
        invariant
            0 <= k <= 32,
            buf@ == left@ + right@.subrange(0, k as int),
        decreases 32 - k,
    {
        buf.push(right.content[k]);
        proof {
            assert(right@.subrange(0, k + 1) =~= right@.subrange(0, k as int).push(
                right@[k as int],
            ));
            assert(left@ + right@.subrange(0, k + 1) =~= (left@ + right@.subrange(0, k as int)).push(
                right@[k as int],
            ));
        }
        k = k + 1;
    }
    proof {
        assert(left@.subrange(0, 32) =~= left@);
        assert(right@.subrange(0, 32) =~= right@);
    }
    H256Le { content: sha256d(buf.as_slice()) }
}

impl MerkleProof {
    pub open spec fn hashes_view(&self) -> Seq<Seq<u8>> {
        self.hashes@.map_values(|h: H256Le| h@)
    }

    /// Parses the `gettxoutproof` format: an 80-byte header, the number of
    /// transactions, the hashes and the flag bytes.
    pub fn parse(s: &[u8]) -> (r: Result<MerkleProof, Error>)
        ensures
            r is Ok <==> proof_layout(s@) is Some && compact_target(u32_le(s@, 72)) < two_256(),
            r matches Ok(p) ==> {
                let (nh, at1, nf, at2) = proof_layout(s@)->0;
                &&& p.raw_header@ == s@.subrange(0, 80)
                &&& header_of(s@.subrange(0, 80), p.block_header)
                &&& p.transactions_count == u32_le(s@, 80)
                &&& p.hashes@.len() == nh
                &&& forall|i: int| 0 <= i < nh ==> (#[trigger] p.hashes@[i])@ == s@.subrange(at1 + 32 * i, at1 + 32 * i + 32)
                &&& p.flag_bits@.len() == 8 * nf
                &&& forall|i: int| 0 <= i < 8 * nf ==> #[trigger] p.flag_bits@[i] == flag_bit(s@.subrange(at2, s@.len() as int), i)
                &&& p.flag_bits@ == proof_bits(s@)
                &&& p.hashes_view() == proof_hashes(s@)
            },
            r matches Err(e) ==> e == Error::EndOfFile || e == Error::MalformedMerkleProof || e
                == Error::MalformedHeader,
    {
        let len = s.len();
        if len < 84 {
            return Err(Error::EndOfFile);
        }
        let head = copy_range(s, 0, 80);
        let raw_header = match RawBlockHeader::from_bytes(head.as_slice()) {
            Ok(h) => h,
            Err(e) => {
                return Err(e);
            },
        };
        proof {
            assert(raw_header@ == s@.subrange(0, 80));
            assert(u32_le(raw_header@, 72) == u32_le(s@, 72));
        }
        let block_header = parse_block_header(&raw_header)?;
        let transactions_count = read_u32_le(s, 80);
        let (nh, at1) = match read_varint(s, 84) {
            Ok(v) => v,
            Err(e) => {
                return Err(e);
            },
        };
        if nh > ((len - at1) / 32) as u64 {
            return Err(Error::EndOfFile);
        }
        let nh = nh as usize;
        let mut hashes: Vec<H256Le> = Vec::new();
        let mut i: usize = 0;
        while i < nh
            invariant
                0 <= i <= nh,
                len == s@.len(),
                at1 + 32 * nh <= len,
                hashes@.len() == i,
                forall|k: int| 0 <= k < i ==> (#[trigger] hashes@[k])@ == s@.subrange(at1 + 32 * k, at1 + 32 * k + 32),
            decreases nh - i,
        {
            let bytes = copy_range(s, at1 + 32 * i, at1 + 32 * i + 32);
            hashes.push(H256Le::from_bytes_le(bytes.as_slice()));
            i = i + 1;
        }
        let p = at1 + 32 * nh;
        let (nf, at2) = match read_varint(s, p) {
            Ok(v) => v,
            Err(e) => {
                return Err(e);
            },
        };
        if nf > (len - at2) as u64 {
            return Err(Error::EndOfFile);
        }
        if nf != (len - at2) as u64 {
            return Err(Error::MalformedMerkleProof);
        }
        let ghost flags = s@.subrange(at2 as int, s@.len() as int);
        let mut flag_bits: Vec<bool> = Vec::new();
        let mut j: usize = at2;
        while j < len
            invariant
                at2 <= j <= len,
                len == s@.len(),
                flags == s@.subrange(at2 as int, len as int),
                flag_bits@.len() == 8 * (j - at2),
                forall|k: int| 0 <= k < flag_bits@.len() ==> #[trigger] flag_bits@[k] == flag_bit(flags, k),
            decreases len - j,
        {
            let byte = s[j];
            let mut b: u8 = 0;
            while b < 8
                invariant
                    0 <= b <= 8,
                    at2 <= j < len,
                    len == s@.len(),
                    flags == s@.subrange(at2 as int, len as int),
                    byte == flags[j - at2],
                    flag_bits@.len() == 8 * (j - at2) + b,
                    forall|k: int| 0 <= k < flag_bits@.len() ==> #[trigger] flag_bits@[k] == flag_bit(flags, k),
                decreases 8 - b,
            {
                flag_bits.push(((byte >> b) & 1u8) == 1u8);
                proof {
                    let k = 8 * (j - at2) + b;
                    assert(k / 8 == j - at2);
                    assert(k % 8 == b);
                }
                b = b + 1;
            }
            j = j + 1;
        }
        let r = MerkleProof { raw_header, block_header, transactions_count, hashes, flag_bits };
        proof {
            assert(r.flag_bits@ =~= proof_bits(s@));
            assert(r.hashes_view() =~= proof_hashes(s@));
        }
        Ok(r)
    }

    /// Recomputes the root from the proof and finds the matched transaction.
    pub fn verify_proof(&self) -> (r: Result<ProofResult, Error>)
        ensures
            r is Ok <==> verify_spec(self.flag_bits@, self.hashes_view(), self.transactions_count as int) is Some,
            r matches Ok(res) ==> verify_spec(self.flag_bits@, self.hashes_view(), self.transactions_count as int)
                == Some((res.extracted_root@, res.transaction_hash@)),
            r matches Err(e) ==> e == Error::MalformedMerkleProof,
    {
        let total = self.transactions_count;
        if total == 0 || self.hashes.len() > total as usize || self.flag_bits.len() < self.hashes.len() {
            return Err(Error::MalformedMerkleProof);
        }
        let mut widths: Vec<u64> = Vec::new();
        widths.push(total as u64);
        let mut w: u64 = total as u64;
        while w > 1
            invariant
                widths@.len() >= 1,
                w == widths@.last(),
                forall|h: int| 0 <= h < widths@.len() ==> #[trigger] widths@[h] == tree_width(total as int, h as nat),
                forall|h: int| 0 <= h < widths@.len() ==> #[trigger] widths@[h] <= u32::MAX,
                forall|h: int| 0 <= h < widths@.len() - 1 ==> #[trigger] widths@[h] > 1,
            decreases w,
        {
            let ghost n = widths@.len();
            w = (w + 1) / 2;
            widths.push(w);
            proof {
                assert(tree_width(total as int, n as nat) == (tree_width(total as int, (n - 1) as nat) + 1) / 2);
            }
        }
        let height = widths.len() - 1;
        proof {
            assert(tree_height_ok(total as int, height as nat)) by {
                assert forall|h: nat| h < height implies #[trigger] tree_width(total as int, h) > 1 by {
                    assert(widths@[h as int] == tree_width(total as int, h));
                    assert(widths@[h as int] > 1);
                }
            }
            let c = tree_height(total as int);
            assert(tree_height_ok(total as int, c));
            if c < height {
                assert(tree_width(total as int, c) > 1);
            }
            if c > height {
                assert(tree_width(total as int, height as nat) > 1);
            }
            assert(c == height);
        }
        let mut st = Traversal { bits_used: 0, hashes_used: 0, first: None };
        let root = self.traverse(&widths, height, 0, &mut st)?;
        let transaction_hash = match st.first {
            Some(h) => h,
            None => {
                return Err(Error::MalformedMerkleProof);
            },
        };
        if st.hashes_used != self.hashes.len() {
            return Err(Error::MalformedMerkleProof);
        }
        let used = st.bits_used;
        let all = self.flag_bits.len();
        let used_bytes = used / 8 + if used % 8 == 0 { 0 } else { 1 };
        let all_bytes = all / 8 + if all % 8 == 0 { 0 } else { 1 };
        assert(used_bytes == (used + 7) / 8);
        assert(all_bytes == (all + 7) / 8);
        if used_bytes != all_bytes {
            return Err(Error::MalformedMerkleProof);
        }
        Ok(ProofResult { extracted_root: root, transaction_hash })
    }

    fn traverse(&self, widths: &Vec<u64>, height: usize, pos: u64, st: &mut Traversal) -> (r: Result<H256Le, Error>)
        requires
            height < widths@.len(),
            forall|h: int| 0 <= h < widths@.len() ==> #[trigger] widths@[h] == tree_width(
                self.transactions_count as int,
                h as nat,
            ),
            forall|h: int| 0 <= h < widths@.len() ==> #[trigger] widths@[h] <= u32::MAX,
            pos < widths@[height as int],
            old(st).bits_used <= self.flag_bits@.len(),
            old(st).hashes_used <= self.hashes@.len(),
        ensures
            final(st).bits_used <= self.flag_bits@.len(),
            final(st).hashes_used <= self.hashes@.len(),
            ({
                let s = traverse_spec(
                    self.flag_bits@,
                    self.hashes_view(),
                    self.transactions_count as int,
                    height as nat,
                    pos as int,
                    old(st).view(),
                );
                &&& r is Ok <==> s is Ok
                &&& r matches Ok(h) ==> s == Ok::<(Seq<u8>, TraversalView), ()>((h@, final(st).view()))
                &&& r matches Err(e) ==> e == Error::MalformedMerkleProof
            }),
        decreases height,
    {
        if st.bits_used >= self.flag_bits.len() {
            return Err(Error::MalformedMerkleProof);
        }
        let flag = self.flag_bits[st.bits_used];
        if height == 0 || !flag {
            if st.hashes_used >= self.hashes.len() {
                return Err(Error::MalformedMerkleProof);
            }
            let h = self.hashes[st.hashes_used];
            proof {
                assert(self.hashes_view()[st.hashes_used as int] == h@);
            }
            if height == 0 && flag && st.first.is_none() {
                st.first = Some(h);
            }
            st.bits_used = st.bits_used + 1;
            st.hashes_used = st.hashes_used + 1;
            return Ok(h);
        }
        st.bits_used = st.bits_used + 1;
        proof {
            assert(widths@[height as int] == (widths@[height - 1] + 1) / 2);
        }
        let left = self.traverse(widths, height - 1, pos * 2, st)?;
        if pos * 2 + 1 < widths[height - 1] {
            let right = self.traverse(widths, height - 1, pos * 2 + 1, st)?;
            if right == left {
                return Err(Error::MalformedMerkleProof);
            }
            Ok(hash_pair(&left, &right))
        } else {
            Ok(hash_pair(&left, &left))
        }
    }
}

} // verus!
