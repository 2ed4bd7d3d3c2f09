//! Chain descriptors and stored headers.
use vstd::prelude::*;
use crate::header::BlockHeader;
use crate::types::H256Le;

verus! {

/// Opaque identity of whoever submitted a header.
pub type AccountId = u64;

/// A header as the relay stores it.
#[derive(Clone, Copy, Debug)]
pub struct RichBlockHeader {
    pub block_hash: H256Le,
    pub block_header: BlockHeader,
    pub block_height: u32,
    /// The chain that currently owns this block.
    pub chain_ref: u32,
    pub account_id: AccountId,
    /// Height of this system when the header was stored.
    pub para_height: u32,
}

/// A chain: a run of consecutive heights with one block hash each, and the
/// heights flagged as lacking data or as invalid.
#[derive(Clone, Debug)]
pub struct BlockChain {
    pub chain_id: u32,
    pub start_height: u32,
    pub max_height: u32,
    /// Heights flagged as having no public data; no order, no repeats asked.
    pub no_data: Vec<u32>,
    /// Heights flagged as invalid.
    pub invalid: Vec<u32>,
    /// The block hash at each height from `start_height` to `max_height`.
    pub hashes: Vec<H256Le>,
}

impl BlockChain {
    pub open spec fn wf(&self) -> bool {
        &&& self.start_height <= self.max_height
        &&& self.hashes@.len() == self.max_height - self.start_height + 1
        &&& forall|k: int|
            0 <= k < self.no_data@.len() ==> self.start_height <= #[trigger] self.no_data@[k]
                <= self.max_height
        &&& forall|k: int|
            0 <= k < self.invalid@.len() ==> self.start_height <= #[trigger] self.invalid@[k]
                <= self.max_height
    }

    /// The hash at `height`, for a height the chain covers.
    pub open spec fn hash_at(&self, height: int) -> H256Le {
        self.hashes@[height - self.start_height]
    }

    /// The hash of the chain's highest block.
    pub open spec fn tip(&self) -> H256Le {
        self.hashes@.last()
    }

    /// A chain of one block.
    pub fn single(chain_id: u32, block_height: u32, block_hash: H256Le) -> (r: BlockChain)
        ensures
            r.wf(),
            r.chain_id == chain_id,
            r.start_height == block_height,
            r.max_height == block_height,
            r.no_data@.len() == 0,
            r.invalid@.len() == 0,
            r.hashes@ == seq![block_hash],
    {
        let mut hashes = Vec::new();
        hashes.push(block_hash);
        BlockChain {
            chain_id,
            start_height: block_height,
            max_height: block_height,
            no_data: Vec::new(),
            invalid: Vec::new(),
            hashes,
        }
    }

    /// Whether some height is flagged invalid.
    pub fn is_invalid(&self) -> (r: bool)
        ensures
            r == (self.invalid@.len() > 0),
    {
        self.invalid.len() > 0
    }

    /// Whether some height is flagged as lacking data.
    pub fn is_no_data(&self) -> (r: bool)
        ensures
            r == (self.no_data@.len() > 0),
    {
        self.no_data.len() > 0
    }

    /// The hash at `height`, or `None` where the chain does not cover it.
    pub fn get_block_hash(&self, height: u32) -> (r: Option<H256Le>)
        requires
            self.wf(),
        ensures
            r matches Some(h) ==> self.start_height <= height <= self.max_height && h
                == self.hash_at(height as int),
            r is None <==> !(self.start_height <= height <= self.max_height),
    {
        if height < self.start_height || height > self.max_height {
            None
        } else {
            Some(self.hashes[(height - self.start_height) as usize])
        }
    }
}

/// Adds `x` to a set of heights; says whether it was absent.
pub fn flag_insert(v: &mut Vec<u32>, x: u32) -> (r: bool)
    ensures
        r == !old(v)@.contains(x),
        forall|h: u32| final(v)@.contains(h) <==> (old(v)@.contains(h) || h == x),
        forall|h: u32| #[trigger] final(v)@.contains(h) ==> old(v)@.contains(h) || h == x,
        final(v)@.len() > 0,
{
    let mut i: usize = 0;
    while i < v.len()
        invariant
            0 <= i <= v@.len(),
            forall|k: int| 0 <= k < i ==> v@[k] != x,
        decreases v@.len() - i,
    {
        if v[i] == x {
            return false;
        }
        i = i + 1;
    }
    v.push(x);
    proof {
        assert forall|h: u32| v@.contains(h) <==> (old(v)@.contains(h) || h == x) by {
            if old(v)@.contains(h) {
                let k = choose|k: int| 0 <= k < old(v)@.len() && old(v)@[k] == h;
                assert(v@[k] == h);
            }
            if h == x {
                assert(v@[v@.len() - 1] == h);
            }
            if v@.contains(h) && h != x {
                let k = choose|k: int| 0 <= k < v@.len() && v@[k] == h;
                assert(old(v)@[k] == h);
            }
        }
        assert(v@[v@.len() - 1] == x);
    }
    true
}

/// Removes `x` from a set of heights; says whether it was present.
pub fn flag_remove(v: &mut Vec<u32>, x: u32) -> (r: bool)
    ensures
        r == old(v)@.contains(x),
        forall|h: u32| final(v)@.contains(h) <==> (old(v)@.contains(h) && h != x),
        forall|k: int| 0 <= k < final(v)@.len() ==> old(v)@.contains(#[trigger] final(v)@[k]),
{
    let mut kept: Vec<u32> = Vec::new();
    let mut found = false;
    let mut i: usize = 0;
    while i < v.len()
        invariant
            0 <= i <= v@.len(),
            v@ == old(v)@,
            found == exists|k: int| 0 <= k < i && v@[k] == x,
            forall|h: u32|
                kept@.contains(h) <==> (exists|k: int| 0 <= k < i && v@[k] == h) && h != x,
            forall|k: int| 0 <= k < kept@.len() ==> old(v)@.contains(#[trigger] kept@[k]),
        decreases v@.len() - i,
    {
        let y = v[i];
        if y == x {
            found = true;
        } else {
            let ghost prev = kept@;
            kept.push(y);
            proof {
                assert(old(v)@[i as int] == y);
                assert(kept@.drop_last() =~= prev);
                assert forall|h: u32|
                    kept@.contains(h) <==> (exists|k: int| 0 <= k < i + 1 && v@[k] == h) && h
                        != x by {
                    if kept@.contains(h) {
                        let k = choose|k: int| 0 <= k < kept@.len() && kept@[k] == h;
                        if k < kept@.len() - 1 {
                            assert(prev[k] == h);
                            assert(prev.contains(h));
                        } else {
                            assert(v@[i as int] == h);
                        }
                    }
                    if (exists|k: int| 0 <= k < i + 1 && v@[k] == h) && h != x {
                        let k = choose|k: int| 0 <= k < i + 1 && v@[k] == h;
                        if k < i {
                            assert(prev.contains(h));
                            let j = choose|j: int| 0 <= j < prev.len() && prev[j] == h;
                            assert(kept@[j] == h);
                        } else {
                            assert(kept@[kept@.len() - 1] == h);
                        }
                    }
                }
                assert forall|k: int| 0 <= k < kept@.len() implies old(v)@.contains(
                    #[trigger] kept@[k],
                ) by {
                    if k < kept@.len() - 1 {
                        assert(kept@[k] == prev[k]);
                    } else {
                        assert(old(v)@[i as int] == kept@[k]);
                    }
                }
            }
        }
        i = i + 1;
    }
    *v = kept;
    found
}

/// Splits a set of heights at `at`: those below it, and those at or above it.
pub fn flag_split(v: &Vec<u32>, at: u32) -> (r: (Vec<u32>, Vec<u32>))
    ensures
        forall|h: u32| r.0@.contains(h) <==> (v@.contains(h) && h < at),
        forall|h: u32| r.1@.contains(h) <==> (v@.contains(h) && h >= at),
        forall|k: int| 0 <= k < r.0@.len() ==> v@.contains(#[trigger] r.0@[k]) && r.0@[k] < at,
        forall|k: int| 0 <= k < r.1@.len() ==> v@.contains(#[trigger] r.1@[k]) && r.1@[k] >= at,
{
    let mut lo: Vec<u32> = Vec::new();
    let mut hi: Vec<u32> = Vec::new();
    let mut i: usize = 0;
    while i < v.len()
        invariant
            0 <= i <= v@.len(),
            forall|k: int| 0 <= k < lo@.len() ==> v@.contains(#[trigger] lo@[k]) && lo@[k] < at,
            forall|k: int| 0 <= k < hi@.len() ==> v@.contains(#[trigger] hi@[k]) && hi@[k] >= at,
            forall|k: int| 0 <= k < i && v@[k] < at ==> lo@.contains(#[trigger] v@[k]),
            forall|k: int| 0 <= k < i && v@[k] >= at ==> hi@.contains(#[trigger] v@[k]),
        decreases v@.len() - i,
    {
        let y = v[i];
        proof {
            assert(v@.contains(v@[i as int]));
        }
        if y < at {
            let ghost prev = lo@;
            lo.push(y);
            proof {
                assert forall|k: int| 0 <= k < i + 1 && v@[k] < at implies lo@.contains(
                    #[trigger] v@[k],
                ) by {
                    if k < i {
                        let j = choose|j: int| 0 <= j < prev.len() && prev[j] == v@[k];
                        assert(lo@[j] == v@[k]);
                    } else {
                        assert(lo@[lo@.len() - 1] == v@[k]);
                    }
                }
            }
        } else {
            let ghost prev = hi@;
            hi.push(y);
            proof {
                assert forall|k: int| 0 <= k < i + 1 && v@[k] >= at implies hi@.contains(
                    #[trigger] v@[k],
                ) by {
                    if k < i {
                        let j = choose|j: int| 0 <= j < prev.len() && prev[j] == v@[k];
                        assert(hi@[j] == v@[k]);
                    } else {
                        assert(hi@[hi@.len() - 1] == v@[k]);
                    }
                }
            }
        }
        i = i + 1;
    }
    proof {
        assert forall|h: u32| lo@.contains(h) <==> (v@.contains(h) && h < at) by {
            if v@.contains(h) && h < at {
                let k = choose|k: int| 0 <= k < v@.len() && v@[k] == h;
                assert(lo@.contains(v@[k]));
            }
            if lo@.contains(h) {
                let k = choose|k: int| 0 <= k < lo@.len() && lo@[k] == h;
                assert(v@.contains(lo@[k]));
            }
        }
        assert forall|h: u32| hi@.contains(h) <==> (v@.contains(h) && h >= at) by {
            if v@.contains(h) && h >= at {
                let k = choose|k: int| 0 <= k < v@.len() && v@[k] == h;
                assert(hi@.contains(v@[k]));
            }
            if hi@.contains(h) {
                let k = choose|k: int| 0 <= k < hi@.len() && hi@[k] == h;
                assert(v@.contains(hi@[k]));
            }
        }
    }
    (lo, hi)
}

/// Adds every height of `b` to `a`.
pub fn flag_union(a: &mut Vec<u32>, b: &Vec<u32>)
    ensures
        final(a)@ == old(a)@ + b@,
        forall|h: u32| final(a)@.contains(h) <==> (old(a)@.contains(h) || b@.contains(h)),
{
    let mut i: usize = 0;
    while i < b.len()
        invariant
            0 <= i <= b@.len(),
            a@ == old(a)@ + b@.subrange(0, i as int),
        decreases b@.len() - i,
    {
        a.push(b[i]);
        proof {
            assert(b@.subrange(0, i + 1) =~= b@.subrange(0, i as int).push(b@[i as int]));
        }
        i = i + 1;
    }
    proof {
        assert(b@.subrange(0, b@.len() as int) =~= b@);
        lemma_concat_contains(old(a)@, b@);
    }
}

/// What a concatenation of two sequences contains.
pub proof fn lemma_concat_contains(x: Seq<u32>, y: Seq<u32>)
    ensures
        forall|h: u32| (x + y).contains(h) <==> (x.contains(h) || y.contains(h)),
{
    assert forall|h: u32| (x + y).contains(h) <==> (x.contains(h) || y.contains(h)) by {
        if (x + y).contains(h) {
            let k = choose|k: int| 0 <= k < (x + y).len() && (x + y)[k] == h;
            if k < x.len() {
                assert(x[k] == h);
            } else {
                assert(y[k - x.len()] == h);
            }
        }
        if x.contains(h) {
            let k = choose|k: int| 0 <= k < x.len() && x[k] == h;
            assert((x + y)[k] == h);
        }
        if y.contains(h) {
            let k = choose|k: int| 0 <= k < y.len() && y[k] == h;
            assert((x + y)[x.len() + k] == h);
        }
    }
}

/// The greatest height in a set, if any.
pub fn flag_max(v: &Vec<u32>) -> (r: Option<u32>)
    ensures
        r is None <==> v@.len() == 0,
        r matches Some(m) ==> v@.contains(m) && forall|k: int| 0 <= k < v@.len() ==> v@[k] <= m,
{
    if v.len() == 0 {
        return None;
    }
    let mut m = v[0];
    let mut i: usize = 1;
    while i < v.len()
        invariant
            1 <= i <= v@.len(),
            v@.contains(m),
            forall|k: int| 0 <= k < i ==> v@[k] <= m,
        decreases v@.len() - i,
    {
        if v[i] > m {
            m = v[i];
        }
        i = i + 1;
    }
    Some(m)
}

} // verus!
