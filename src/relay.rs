//! The relay: a store of block headers on competing chains, with fork choice,
//! reorganisation, fault flags and the transaction checks built on them.
use vstd::prelude::*;
use crate::chain::{AccountId, BlockChain, RichBlockHeader};
use crate::error::Error;
use crate::header::{parse_block_header, BlockHeader, RawBlockHeader, header_of, u32_le, compact_target};
use crate::hashing::sha256d_of;
use crate::security::{ErrorCode, Security};
use crate::types::{H256Le, U256, two_256, u256_from_le_bytes, u256_lt};
use crate::difficulty::{compute_retarget, is_retarget_height, meets_target, retarget_due, retarget_value, DIFFICULTY_ADJUSTMENT_INTERVAL};

verus! {

/// Id of the main chain; it always stands first in the queue of chains.
pub const MAIN_CHAIN_ID: u32 = 0;

/// What the relay announces.
#[derive(Clone, Copy, Debug)]
pub enum Event {
    /// block height, block hash, relayer
    Initialized(u32, H256Le, AccountId),
    /// new chain height, block hash, relayer
    StoreMainChainHeader(u32, H256Le, AccountId),
    /// chain id, fork height, block hash, relayer
    StoreForkHeader(u32, u32, H256Le, AccountId),
    /// new chain tip, chain height, fork depth
    ChainReorg(H256Le, u32, u32),
    /// main chain height, fork height, fork id
    ForkAheadOfMainChain(u32, u32, u32),
    /// block hash, chain id, error
    FlagBlockError(H256Le, u32, ErrorCode),
    /// block hash, chain id, error
    ClearBlockError(H256Le, u32, ErrorCode),
}

/// The settings that a relay starts with.
#[derive(Clone, Copy, Debug)]
pub struct GenesisConfig {
    /// Confirmations a Bitcoin transaction needs to be stable, and the margin a fork needs
    /// to replace the main chain.
    pub bitcoin_confirmations: u32,
    /// Blocks of this system that must pass after a header is stored before a
    /// transaction in it is accepted.
    pub parachain_confirmations: u32,
    pub disable_difficulty_check: bool,
    pub disable_inclusion_check: bool,
    pub disable_op_return_check: bool,
}

impl Default for GenesisConfig {
    fn default() -> (r: GenesisConfig)
        ensures
            r.bitcoin_confirmations == 0,
            r.parachain_confirmations == 0,
            !r.disable_difficulty_check,
            !r.disable_inclusion_check,
            !r.disable_op_return_check,
    {
        GenesisConfig {
            bitcoin_confirmations: 0,
            parachain_confirmations: 0,
            disable_difficulty_check: false,
            disable_inclusion_check: false,
            disable_op_return_check: false,
        }
    }
}

/// The relay's whole state.
pub struct Pallet {
    /// Every stored header; no two share a hash.
    pub block_headers: Vec<RichBlockHeader>,
    /// The chains in queue order: the main chain first, then the forks by
    /// descending tip height.
    pub chains: Vec<BlockChain>,
    pub best_block: H256Le,
    pub best_block_height: u32,
    /// Height of the header that the relay was initialised with.
    pub start_block_height: u32,
    /// The largest chain id handed out so far.
    pub chain_counter: u32,
    pub initialized: bool,
    pub config: GenesisConfig,
    pub security: Security,
    /// Events in the order they were emitted.
    pub events: Vec<Event>,
}

/// Whether a block hash, read as a number, lies below the target.
pub fn check_pow(hash: &H256Le, target: &U256) -> (r: bool)
    ensures
        r == meets_target(hash@, target.value()),
{
    let value = u256_from_le_bytes(&hash.content);
    u256_lt(&value, target)
}

impl Pallet {
    /// The chains after the main one are ordered by descending tip height.
    pub open spec fn forks_sorted(chains: Seq<BlockChain>) -> bool {
        forall|i: int, j: int|
            1 <= i < j < chains.len() ==> (#[trigger] chains[i]).max_height >= (
            #[trigger] chains[j]).max_height
    }

    pub open spec fn ids_distinct(chains: Seq<BlockChain>) -> bool {
        forall|i: int, j: int|
            0 <= i < chains.len() && 0 <= j < chains.len() && i != j ==> (#[trigger] chains[i]).chain_id
                != (#[trigger] chains[j]).chain_id
    }

    pub open spec fn hashes_distinct(headers: Seq<RichBlockHeader>) -> bool {
        forall|i: int, j: int|
            0 <= i < headers.len() && 0 <= j < headers.len() && i != j ==> (
            #[trigger] headers[i]).block_hash@ != (#[trigger] headers[j]).block_hash@
    }

    /// The state invariant.
    pub open spec fn wf(&self) -> bool {
        &&& !self.initialized ==> self.chains@.len() == 0 && self.block_headers@.len() == 0
        &&& self.initialized ==> {
            &&& self.chains@.len() >= 1
            &&& self.chains@[0].chain_id == MAIN_CHAIN_ID
            &&& self.best_block == self.chains@[0].tip()
            &&& self.best_block_height == self.chains@[0].max_height
            &&& self.chains@[0].start_height == self.start_block_height
        }
        &&& forall|i: int| 0 <= i < self.chains@.len() ==> (#[trigger] self.chains@[i]).wf()
        &&& forall|i: int|
            0 <= i < self.chains@.len() ==> (#[trigger] self.chains@[i]).chain_id
                <= self.chain_counter
        &&& forall|i: int|
            1 <= i < self.chains@.len() ==> (#[trigger] self.chains@[i]).start_height
                > self.start_block_height
        &&& Self::ids_distinct(self.chains@)
        &&& Self::forks_sorted(self.chains@)
        &&& Self::hashes_distinct(self.block_headers@)
        &&& forall|j: int|
            0 <= j < self.block_headers@.len() ==> (#[trigger] self.block_headers@[j]).block_height
                >= self.start_block_height
        &&& Self::index_ok(self.chains@, self.block_headers@)
        &&& Self::parents_ok(self.block_headers@, self.start_block_height)
    }

    /// Every stored header above `start` has its parent stored, one height below.
    pub open spec fn parents_ok(headers: Seq<RichBlockHeader>, start: u32) -> bool {
        forall|j: int|
            0 <= j < headers.len() && (#[trigger] headers[j]).block_height > start ==> exists|k: int|
                0 <= k < headers.len() && (#[trigger] headers[k]).block_hash@
                    == headers[j].block_header.hash_prev_block@ && headers[k].block_height + 1
                    == headers[j].block_height
    }

    /// Parents stay stored when headers change only their owning chain.
    pub proof fn lemma_parents_rechain(h1: Seq<RichBlockHeader>, h2: Seq<RichBlockHeader>, start: u32)
        requires
            Self::parents_ok(h1, start),
            h2.len() == h1.len(),
            forall|j: int|
                0 <= j < h1.len() ==> #[trigger] h2[j] == (RichBlockHeader { chain_ref: h2[j].chain_ref, ..h1[j] }),
        ensures
            Self::parents_ok(h2, start),
    {
        assert forall|j: int| 0 <= j < h2.len() && (#[trigger] h2[j]).block_height > start implies exists|k: int|
            0 <= k < h2.len() && (#[trigger] h2[k]).block_hash@ == h2[j].block_header.hash_prev_block@
                && h2[k].block_height + 1 == h2[j].block_height by {
            assert(h2[j].block_height == h1[j].block_height);
            assert(h1[j].block_height > start);
            let k = choose|k: int|
                0 <= k < h1.len() && (#[trigger] h1[k]).block_hash@ == h1[j].block_header.hash_prev_block@
                    && h1[k].block_height + 1 == h1[j].block_height;
            assert(h2[k].block_hash == h1[k].block_hash);
        }
    }

    /// Parents stay stored when a header whose parent is stored is added.
    pub proof fn lemma_parents_push(h1: Seq<RichBlockHeader>, new: RichBlockHeader, start: u32)
        requires
            Self::parents_ok(h1, start),
            new.block_height > start ==> exists|k: int|
                0 <= k < h1.len() && (#[trigger] h1[k]).block_hash@ == new.block_header.hash_prev_block@
                    && h1[k].block_height + 1 == new.block_height,
        ensures
            Self::parents_ok(h1.push(new), start),
    {
        let h2 = h1.push(new);
        assert forall|j: int| 0 <= j < h2.len() && (#[trigger] h2[j]).block_height > start implies exists|k: int|
            0 <= k < h2.len() && (#[trigger] h2[k]).block_hash@ == h2[j].block_header.hash_prev_block@
                && h2[k].block_height + 1 == h2[j].block_height by {
            if j < h1.len() {
                assert(h2[j] == h1[j]);
                let k = choose|k: int|
                    0 <= k < h1.len() && (#[trigger] h1[k]).block_hash@ == h1[j].block_header.hash_prev_block@
                        && h1[k].block_height + 1 == h1[j].block_height;
                assert(h2[k] == h1[k]);
            } else {
                assert(h2[j] == new);
                let k = choose|k: int|
                    0 <= k < h1.len() && (#[trigger] h1[k]).block_hash@ == new.block_header.hash_prev_block@
                        && h1[k].block_height + 1 == new.block_height;
                assert(h2[k] == h1[k]);
            }
        }
    }

    /// The header stands in the index of the chain that owns it, at its height.
    pub open spec fn placed(chains: Seq<BlockChain>, h: RichBlockHeader) -> bool {
        exists|i: int|
            0 <= i < chains.len() && (#[trigger] chains[i]).chain_id == h.chain_ref
                && chains[i].start_height <= h.block_height <= chains[i].max_height && chains[i].hash_at(
                h.block_height as int,
            )@ == h.block_hash@
    }

    /// Entry `k` of chain `c` is a stored header that `c` owns, at that height.
    pub open spec fn backed(headers: Seq<RichBlockHeader>, c: BlockChain, k: int) -> bool {
        exists|j: int|
            0 <= j < headers.len() && (#[trigger] headers[j]).block_hash@ == c.hashes@[k]@
                && headers[j].chain_ref == c.chain_id && headers[j].block_height == c.start_height + k
    }

    /// The index and the stored headers agree: each header is indexed under its chain,
    /// and each index entry is a header of that chain.
    pub open spec fn index_ok(chains: Seq<BlockChain>, headers: Seq<RichBlockHeader>) -> bool {
        &&& forall|j: int| 0 <= j < headers.len() ==> Self::placed(chains, #[trigger] headers[j])
        &&& forall|i: int, k: int|
            0 <= i < chains.len() && 0 <= k < chains[i].hashes@.len() ==> #[trigger] Self::backed(
                headers,
                chains[i],
                k,
            )
    }

    /// The index stays in agreement when a chain grows by one block whose header is added.
    pub proof fn lemma_index_extend(
        c1: Seq<BlockChain>,
        hs1: Seq<RichBlockHeader>,
        ci: int,
        grown: BlockChain,
        new: RichBlockHeader,
    )
        requires
            Self::index_ok(c1, hs1),
            0 <= ci < c1.len(),
            c1[ci].wf(),
            grown.chain_id == c1[ci].chain_id,
            grown.start_height == c1[ci].start_height,
            grown.max_height == c1[ci].max_height + 1,
            grown.hashes@ == c1[ci].hashes@.push(new.block_hash),
            new.chain_ref == grown.chain_id,
            new.block_height == grown.max_height,
        ensures
            Self::index_ok(c1.update(ci, grown), hs1.push(new)),
    {
        let c2 = c1.update(ci, grown);
        let hs2 = hs1.push(new);
        assert forall|j: int| 0 <= j < hs2.len() implies Self::placed(c2, #[trigger] hs2[j]) by {
            if j < hs1.len() {
                assert(hs2[j] == hs1[j]);
                assert(Self::placed(c1, hs1[j]));
                let i = choose|i: int|
                    0 <= i < c1.len() && (#[trigger] c1[i]).chain_id == hs1[j].chain_ref
                        && c1[i].start_height <= hs1[j].block_height <= c1[i].max_height
                        && c1[i].hash_at(hs1[j].block_height as int)@ == hs1[j].block_hash@;
                if i == ci {
                    assert(c2[i].hash_at(hs1[j].block_height as int) == c1[i].hash_at(
                        hs1[j].block_height as int,
                    ));
                } else {
                    assert(c2[i] == c1[i]);
                }
            } else {
                assert(hs2[j] == new);
                assert(c2[ci].hash_at(new.block_height as int) == new.block_hash);
            }
        }
        assert forall|i: int, k: int|
            0 <= i < c2.len() && 0 <= k < c2[i].hashes@.len() implies #[trigger] Self::backed(
                hs2,
                c2[i],
                k,
            ) by {
            if i == ci && k == c1[ci].hashes@.len() {
                assert(hs2[hs1.len() as int] == new);
            } else {
                assert(k < c1[i].hashes@.len());
                assert(Self::backed(hs1, c1[i], k));
                let j = choose|j: int|
                    0 <= j < hs1.len() && (#[trigger] hs1[j]).block_hash@ == c1[i].hashes@[k]@
                        && hs1[j].chain_ref == c1[i].chain_id && hs1[j].block_height
                        == c1[i].start_height + k;
                assert(hs2[j] == hs1[j]);
                assert(c2[i].hashes@[k] == c1[i].hashes@[k]);
            }
        }
    }

    /// Two chains with the same id, heights and index.
    pub open spec fn same_key(a: BlockChain, b: BlockChain) -> bool {
        &&& a.chain_id == b.chain_id
        &&& a.start_height == b.start_height
        &&& a.max_height == b.max_height
        &&& a.hashes@ == b.hashes@
    }

    /// The index stays in agreement when every chain is kept, perhaps elsewhere in the
    /// queue (old position `i` goes to `to_new(i)`), every chain new to the queue
    /// (`from_old(i) < 0`) is backed, and every new header is placed.
    pub proof fn lemma_index_transfer(
        c1: Seq<BlockChain>,
        c2: Seq<BlockChain>,
        hs1: Seq<RichBlockHeader>,
        hs2: Seq<RichBlockHeader>,
        to_new: spec_fn(int) -> int,
        from_old: spec_fn(int) -> int,
    )
        requires
            Self::index_ok(c1, hs1),
            hs1.len() <= hs2.len(),
            forall|j: int| 0 <= j < hs1.len() ==> hs2[j] == hs1[j],
            forall|i: int|
                0 <= i < c1.len() ==> 0 <= #[trigger] to_new(i) < c2.len() && Self::same_key(
                    c1[i],
                    c2[to_new(i)],
                ),
            forall|i: int|
                0 <= i < c2.len() ==> (0 <= #[trigger] from_old(i) < c1.len() && Self::same_key(
                    c1[from_old(i)],
                    c2[i],
                )) || (from_old(i) < 0 && forall|k: int|
                    0 <= k < c2[i].hashes@.len() ==> #[trigger] Self::backed(hs2, c2[i], k)),
            forall|j: int| hs1.len() <= j < hs2.len() ==> Self::placed(c2, #[trigger] hs2[j]),
        ensures
            Self::index_ok(c2, hs2),
    {
        assert forall|j: int| 0 <= j < hs2.len() implies Self::placed(c2, #[trigger] hs2[j]) by {
            if j < hs1.len() {
                assert(Self::placed(c1, hs1[j]));
                let i1 = choose|i: int|
                    0 <= i < c1.len() && (#[trigger] c1[i]).chain_id == hs1[j].chain_ref
                        && c1[i].start_height <= hs1[j].block_height <= c1[i].max_height
                        && c1[i].hash_at(hs1[j].block_height as int)@ == hs1[j].block_hash@;
                let i2 = to_new(i1);
                assert(Self::same_key(c1[i1], c2[i2]));
                assert(c2[i2].chain_id == hs2[j].chain_ref);
            }
        }
        assert forall|i: int, k: int|
            0 <= i < c2.len() && 0 <= k < c2[i].hashes@.len() implies #[trigger] Self::backed(
                hs2,
                c2[i],
                k,
            ) by {
            let i1 = from_old(i);
            if 0 <= i1 < c1.len() && Self::same_key(c1[i1], c2[i]) {
                assert(Self::backed(hs1, c1[i1], k));
                let j = choose|j: int|
                    0 <= j < hs1.len() && (#[trigger] hs1[j]).block_hash@ == c1[i1].hashes@[k]@
                        && hs1[j].chain_ref == c1[i1].chain_id && hs1[j].block_height
                        == c1[i1].start_height + k;
                assert(hs2[j] == hs1[j]);
            }
        }
    }

    /// The parts of the invariant that speak of the chains alone, with the forks
    /// sorted except that the one at `pos` may stand too low.
    pub open spec fn chains_ok_but(&self, pos: int) -> bool {
        &&& self.initialized
        &&& self.chains@.len() >= 1
        &&& self.chains@[0].chain_id == MAIN_CHAIN_ID
        &&& self.chains@[0].start_height == self.start_block_height
        &&& forall|i: int| 0 <= i < self.chains@.len() ==> (#[trigger] self.chains@[i]).wf()
        &&& forall|i: int|
            0 <= i < self.chains@.len() ==> (#[trigger] self.chains@[i]).chain_id
                <= self.chain_counter
        &&& forall|i: int|
            1 <= i < self.chains@.len() ==> (#[trigger] self.chains@[i]).start_height
                > self.start_block_height
        &&& Self::ids_distinct(self.chains@)
        &&& forall|i: int, j: int|
            1 <= i < j < self.chains@.len() && j != pos ==> (#[trigger] self.chains@[i]).max_height
                >= (#[trigger] self.chains@[j]).max_height
    }

    /// The best block is the main chain's tip.
    pub open spec fn best_ok(&self) -> bool {
        &&& self.best_block == self.chains@[0].tip()
        &&& self.best_block_height == self.chains@[0].max_height
    }

    /// Whether a header with this hash is stored.
    pub open spec fn stored(&self, hash: Seq<u8>) -> bool {
        exists|j: int|
            0 <= j < self.block_headers@.len() && (#[trigger] self.block_headers@[j]).block_hash@
                == hash
    }

    /// A relay that holds no header yet.
    pub fn new(config: GenesisConfig, security: Security) -> (r: Pallet)
        ensures
            r.wf(),
            !r.initialized,
            r.config == config,
            r.security == security,
            r.events@.len() == 0,
            r.chain_counter == 0,
    {
        Pallet {
            block_headers: Vec::new(),
            chains: Vec::new(),
            best_block: H256Le::zero(),
            best_block_height: 0,
            start_block_height: 0,
            chain_counter: 0,
            initialized: false,
            config,
            security,
            events: Vec::new(),
        }
    }

    /// Position of the stored header with this hash.
    pub fn find_header(&self, hash: &H256Le) -> (r: Option<usize>)
        ensures
            r matches Some(j) ==> j < self.block_headers@.len()
                && self.block_headers@[j as int].block_hash@ == hash@,
            r is None <==> !self.stored(hash@),
    {
        let mut j: usize = 0;
        while j < self.block_headers.len()
            invariant
                0 <= j <= self.block_headers@.len(),
                forall|k: int| 0 <= k < j ==> self.block_headers@[k].block_hash@ != hash@,
            decreases self.block_headers@.len() - j,
        {
            if self.block_headers[j].block_hash == *hash {
                return Some(j);
            }
            j = j + 1;
        }
        None
    }

    /// Position in the queue of the chain with this id.
    pub fn find_chain(&self, chain_id: u32) -> (r: Option<usize>)
        ensures
            r matches Some(i) ==> i < self.chains@.len() && self.chains@[i as int].chain_id
                == chain_id,
            r is None <==> forall|i: int|
                0 <= i < self.chains@.len() ==> self.chains@[i].chain_id != chain_id,
    {
        let mut i: usize = 0;
        while i < self.chains.len()
            invariant
                0 <= i <= self.chains@.len(),
                forall|k: int| 0 <= k < i ==> self.chains@[k].chain_id != chain_id,
            decreases self.chains@.len() - i,
        {
            if self.chains[i].chain_id == chain_id {
                return Some(i);
            }
            i = i + 1;
        }
        None
    }

    /// Whether a header with this hash is stored.
    pub fn block_header_exists(&self, block_hash: H256Le) -> (r: bool)
        ensures
            r == self.stored(block_hash@),
    {
        self.find_header(&block_hash).is_some()
    }

    /// The hash of the main chain's tip.
    pub fn get_best_block(&self) -> (r: H256Le)
        ensures
            r == self.best_block,
    {
        self.best_block
    }

    /// The height of the main chain's tip.
    pub fn get_best_block_height(&self) -> (r: u32)
        ensures
            r == self.best_block_height,
    {
        self.best_block_height
    }

    pub fn is_op_return_disabled(&self) -> (r: bool)
        ensures
            r == self.config.disable_op_return_check,
    {
        self.config.disable_op_return_check
    }

    /// Whether the main chain has grown by the stable confirmations since initialisation.
    pub fn is_fully_initialized(&self) -> (r: Result<bool, Error>)
        ensures
            !self.initialized ==> r == Ok::<bool, Error>(false),
            self.initialized && self.start_block_height + self.config.bitcoin_confirmations
                > u32::MAX ==> r == Err::<bool, Error>(Error::ArithmeticOverflow),
            self.initialized && self.start_block_height + self.config.bitcoin_confirmations
                <= u32::MAX ==> r == Ok::<bool, Error>(
                self.best_block_height >= self.start_block_height
                    + self.config.bitcoin_confirmations,
            ),
    {
        if !self.initialized {
            return Ok(false);
        }
        match self.start_block_height.checked_add(self.config.bitcoin_confirmations) {
            Some(required) => Ok(self.best_block_height >= required),
            None => Err(Error::ArithmeticOverflow),
        }
    }

    /// The stored header with this hash; meaningful where one is stored.
    pub open spec fn header_with(&self, hash: Seq<u8>) -> RichBlockHeader {
        self.block_headers@[choose|j: int|
            0 <= j < self.block_headers@.len() && (#[trigger] self.block_headers@[j]).block_hash@
                == hash]
    }

    /// A position found for a hash is the one `header_with` speaks of.
    pub proof fn lemma_found_header(&self, j: int, hash: Seq<u8>)
        requires
            Self::hashes_distinct(self.block_headers@),
            0 <= j < self.block_headers@.len(),
            self.block_headers@[j].block_hash@ == hash,
        ensures
            self.stored(hash),
            self.header_with(hash) == self.block_headers@[j],
    {
        assert(self.stored(hash));
        let k = choose|k: int|
            0 <= k < self.block_headers@.len() && (#[trigger] self.block_headers@[k]).block_hash@
                == hash;
        assert(k == j);
    }

    /// Whether a queued chain with id `chain_ref` covers `height`.
    pub open spec fn covers(&self, chain_ref: u32, height: int) -> bool {
        exists|i: int|
            0 <= i < self.chains@.len() && (#[trigger] self.chains@[i]).chain_id == chain_ref
                && self.chains@[i].start_height <= height <= self.chains@[i].max_height
    }

    /// The stored header at `height` on the chain with id `chain_ref`, where one covers it.
    pub open spec fn header_on_chain(&self, chain_ref: u32, height: int) -> RichBlockHeader {
        let i = choose|i: int|
            0 <= i < self.chains@.len() && (#[trigger] self.chains@[i]).chain_id == chain_ref
                && self.chains@[i].start_height <= height <= self.chains@[i].max_height;
        self.header_with(self.chains@[i].hash_at(height)@)
    }

    /// Timestamp of the block `DIFFICULTY_ADJUSTMENT_INTERVAL` below `block_height` on chain `chain_ref`.
    pub(crate) fn get_last_retarget_time(&self, chain_ref: u32, block_height: u32) -> (r: Result<u32, Error>)
        requires
            self.wf(),
            block_height >= DIFFICULTY_ADJUSTMENT_INTERVAL,
        ensures
            self.covers(chain_ref, block_height - DIFFICULTY_ADJUSTMENT_INTERVAL) ==> r == Ok::<
                u32,
                Error,
            >(
                self.header_on_chain(
                    chain_ref,
                    block_height - DIFFICULTY_ADJUSTMENT_INTERVAL,
                ).block_header.timestamp,
            ),
            !self.covers(chain_ref, block_height - DIFFICULTY_ADJUSTMENT_INTERVAL) ==> r is Err,
            r matches Err(e) ==> e == Error::InvalidChainID || e == Error::MissingBlockHeight,
            (exists|i: int| 0 <= i < self.chains@.len() && (#[trigger] self.chains@[i]).chain_id == chain_ref)
                && r is Err ==> r == Err::<u32, Error>(Error::MissingBlockHeight),
    {
        let ci = match self.find_chain(chain_ref) {
            Some(ci) => ci,
            None => {
                return Err(Error::InvalidChainID);
            },
        };
        let hash = match self.chains[ci].get_block_hash(block_height - DIFFICULTY_ADJUSTMENT_INTERVAL) {
            Some(h) => h,
            None => {
                return Err(Error::MissingBlockHeight);
            },
        };
        let height = block_height - DIFFICULTY_ADJUSTMENT_INTERVAL;
        proof {
            let i = choose|i: int|
                0 <= i < self.chains@.len() && (#[trigger] self.chains@[i]).chain_id == chain_ref
                    && self.chains@[i].start_height <= height <= self.chains@[i].max_height;
            assert(i == ci);
            let c = self.chains@[ci as int];
            assert(c.wf());
            assert(Self::backed(self.block_headers@, c, height - c.start_height));
        }
        let j = match self.find_header(&hash) {
            Some(j) => j,
            None => {
                return Err(Error::MissingBlockHeight);
            },
        };
        proof {
            self.lemma_found_header(j as int, hash@);
        }
        Ok(self.block_headers[j].block_header.timestamp)
    }

    /// Whether `prev` is the tip of the chain that owns it.
    pub open spec fn is_chain_tip(&self, prev: RichBlockHeader) -> bool {
        exists|i: int|
            0 <= i < self.chains@.len() && (#[trigger] self.chains@[i]).chain_id == prev.chain_ref
                && self.chains@[i].max_height == prev.block_height
    }

    /// Whether a raw header parses, is new, extends a stored header and meets its target.
    pub open spec fn header_basics_ok(&self, raw: Seq<u8>) -> bool {
        &&& compact_target(u32_le(raw, 72)) < two_256()
        &&& !self.stored(sha256d_of(raw))
        &&& self.stored(raw.subrange(4, 36))
        &&& meets_target(sha256d_of(raw), compact_target(u32_le(raw, 72)))
    }

    /// Whether a raw header passes every check against the store in the ordinary case:
    /// it parses, is new, extends a stored header below the largest height, meets its
    /// target, and either difficulty checks are off or it keeps its parent's target
    /// away from a retarget height.
    pub open spec fn header_acceptable(&self, raw: Seq<u8>) -> bool {
        let prev = self.header_with(raw.subrange(4, 36));
        &&& compact_target(u32_le(raw, 72)) < two_256()
        &&& !self.stored(sha256d_of(raw))
        &&& self.stored(raw.subrange(4, 36))
        &&& meets_target(sha256d_of(raw), compact_target(u32_le(raw, 72)))
        &&& prev.block_height < u32::MAX
        &&& (self.config.disable_difficulty_check || self.target_fits(prev, compact_target(u32_le(raw, 72))))
    }

    /// The retarget value for a block at `height` after `prev`, from the block that
    /// began the interval on `prev`'s chain.
    pub open spec fn retarget_target(&self, prev: RichBlockHeader, height: int) -> int {
        retarget_value(
            prev.block_header.target.value(),
            prev.block_header.timestamp as int,
            self.header_on_chain(prev.chain_ref, height - DIFFICULTY_ADJUSTMENT_INTERVAL).block_header.timestamp as int,
        )
    }

    /// Whether a target fits a block at `prev.block_height + 1`: the parent's target
    /// between retargets, and at a retarget height the retarget value, which needs the
    /// block that began the interval on the parent's chain.
    pub open spec fn target_fits(&self, prev: RichBlockHeader, target: int) -> bool {
        let h = prev.block_height + 1;
        if is_retarget_height(h) {
            self.covers(prev.chain_ref, h - DIFFICULTY_ADJUSTMENT_INTERVAL) && target
                == self.retarget_target(prev, h)
        } else {
            target == prev.block_header.target.value()
        }
    }

    /// The target a block at `block_height` on the chain of `prev` must carry at a
    /// retarget: Bitcoin's rule applied to `prev` and the block that began the interval.
    pub fn compute_new_target(&self, prev: &RichBlockHeader, block_height: u32) -> (r: Result<U256, Error>)
        requires
            self.wf(),
            block_height >= DIFFICULTY_ADJUSTMENT_INTERVAL,
        ensures
            self.covers(prev.chain_ref, block_height - DIFFICULTY_ADJUSTMENT_INTERVAL) ==> r is Ok
                && r->Ok_0.value() == self.retarget_target(*prev, block_height as int),
            !self.covers(prev.chain_ref, block_height - DIFFICULTY_ADJUSTMENT_INTERVAL) ==> r is Err,
            r matches Err(e) ==> e == Error::InvalidChainID || e == Error::MissingBlockHeight,
            (exists|i: int| 0 <= i < self.chains@.len() && (#[trigger] self.chains@[i]).chain_id == prev.chain_ref)
                && r is Err ==> r == Err::<U256, Error>(Error::MissingBlockHeight),
    {
        let last = self.get_last_retarget_time(prev.chain_ref, block_height)?;
        Ok(compute_retarget(prev.block_header.target, prev.block_header.timestamp, last))
    }

    /// Parses a raw header and checks it against the store: not yet stored, its parent
    /// stored, its proof of work, and its target. Gives the parsed header, its hash and
    /// the position of its parent.
    pub fn verify_block_header(&self, raw_block_header: &RawBlockHeader) -> (r: Result<(BlockHeader, H256Le, usize), Error>)
        requires
            self.wf(),
        ensures
            compact_target(u32_le(raw_block_header@, 72)) >= two_256() ==> r == Err::<
                (BlockHeader, H256Le, usize),
                Error,
            >(Error::MalformedHeader),
            compact_target(u32_le(raw_block_header@, 72)) < two_256() && self.stored(
                sha256d_of(raw_block_header@),
            ) ==> r == Err::<(BlockHeader, H256Le, usize), Error>(Error::DuplicateBlock),
            compact_target(u32_le(raw_block_header@, 72)) < two_256() && !self.stored(
                sha256d_of(raw_block_header@),
            ) && !self.stored(raw_block_header@.subrange(4, 36)) ==> r == Err::<
                (BlockHeader, H256Le, usize),
                Error,
            >(Error::PrevBlock),
            compact_target(u32_le(raw_block_header@, 72)) < two_256() && !self.stored(
                sha256d_of(raw_block_header@),
            ) && self.stored(raw_block_header@.subrange(4, 36)) && !meets_target(
                sha256d_of(raw_block_header@),
                compact_target(u32_le(raw_block_header@, 72)),
            ) ==> r == Err::<(BlockHeader, H256Le, usize), Error>(Error::LowDiff),
            r matches Ok((hd, hash, p)) ==> {
                let prev = self.block_headers@[p as int];
                &&& header_of(raw_block_header@, hd)
                &&& hash@ == sha256d_of(raw_block_header@)
                &&& !self.stored(hash@)
                &&& p < self.block_headers@.len()
                &&& prev.block_hash@ == hd.hash_prev_block@
                &&& prev == self.header_with(hd.hash_prev_block@)
                &&& meets_target(hash@, hd.target.value())
                &&& prev.block_height < u32::MAX
                &&& !self.config.disable_difficulty_check ==> self.target_fits(prev, hd.target.value())
            },
            self.header_acceptable(raw_block_header@) ==> r is Ok,
            ({
                let prev = self.header_with(raw_block_header@.subrange(4, 36));
                &&& self.header_basics_ok(raw_block_header@) && prev.block_height == u32::MAX
                    ==> r == Err::<(BlockHeader, H256Le, usize), Error>(Error::BlockHeightOverflow)
                &&& self.header_basics_ok(raw_block_header@) && prev.block_height < u32::MAX
                    && !self.config.disable_difficulty_check && !self.target_fits(
                    prev,
                    compact_target(u32_le(raw_block_header@, 72)),
                ) && (is_retarget_height(prev.block_height + 1) ==> self.covers(
                    prev.chain_ref,
                    prev.block_height + 1 - DIFFICULTY_ADJUSTMENT_INTERVAL,
                )) ==> r == Err::<(BlockHeader, H256Le, usize), Error>(Error::DiffTargetHeader)
                &&& self.header_basics_ok(raw_block_header@) && prev.block_height < u32::MAX
                    && !self.config.disable_difficulty_check && is_retarget_height(prev.block_height + 1)
                    && !self.covers(prev.chain_ref, prev.block_height + 1 - DIFFICULTY_ADJUSTMENT_INTERVAL)
                    ==> r == Err::<(BlockHeader, H256Le, usize), Error>(Error::MissingBlockHeight)
            }),
            r matches Err(e) ==> e == Error::MalformedHeader || e == Error::DuplicateBlock || e
                == Error::PrevBlock || e == Error::LowDiff || e == Error::BlockHeightOverflow || e
                == Error::DiffTargetHeader || e == Error::InvalidChainID || e
                == Error::MissingBlockHeight || e == Error::BlockNotFound,
    {
        let basic_block_header = parse_block_header(raw_block_header)?;
        let block_header_hash = raw_block_header.hash();
        if self.find_header(&block_header_hash).is_some() {
            return Err(Error::DuplicateBlock);
        }
        let p = match self.find_header(&basic_block_header.hash_prev_block) {
            Some(p) => p,
            None => {
                return Err(Error::PrevBlock);
            },
        };
        proof {
            assert(basic_block_header.hash_prev_block@ =~= raw_block_header@.subrange(4, 36));
            self.lemma_found_header(p as int, basic_block_header.hash_prev_block@);
        }
        if !check_pow(&block_header_hash, &basic_block_header.target) {
            return Err(Error::LowDiff);
        }
        let prev = self.block_headers[p];
        if prev.block_height == u32::MAX {
            return Err(Error::BlockHeightOverflow);
        }
        let block_height = prev.block_height + 1;
        if self.config.disable_difficulty_check {
            return Ok((basic_block_header, block_header_hash, p));
        }
        let expected_target = if retarget_due(block_height) {
            self.compute_new_target(&prev, block_height)?
        } else {
            prev.block_header.target
        };
        if !basic_block_header.target.same_value(&expected_target) {
            return Err(Error::DiffTargetHeader);
        }
        Ok((basic_block_header, block_header_hash, p))
    }

    /// Parses, checks and stores a header submitted by `relayer`. It extends the chain
    /// of its parent where the parent is that chain's tip, and starts a new fork
    /// otherwise; an extended fork may then replace the main chain.
    #[verifier::rlimit(100)]
    pub fn store_block_header(&mut self, relayer: AccountId, raw_block_header: RawBlockHeader) -> (r: Result<(), Error>)
        requires
            old(self).wf(),
        ensures
            final(self).wf(),
            r is Err ==> *final(self) == *old(self),
            old(self).security.shutdown ==> r == Err::<(), Error>(Error::Shutdown),
            !old(self).security.shutdown && compact_target(u32_le(raw_block_header@, 72))
                >= two_256() ==> r == Err::<(), Error>(Error::MalformedHeader),
            !old(self).security.shutdown && compact_target(u32_le(raw_block_header@, 72))
                < two_256() && old(self).stored(sha256d_of(raw_block_header@)) ==> r == Err::<
                (),
                Error,
            >(
                if sha256d_of(raw_block_header@) == old(self).best_block@ {
                    Error::OutdatedBlock
                } else {
                    Error::DuplicateBlock
                },
            ),
            !old(self).security.shutdown && compact_target(u32_le(raw_block_header@, 72))
                < two_256() && !old(self).stored(sha256d_of(raw_block_header@)) && !old(
                self,
            ).stored(raw_block_header@.subrange(4, 36)) ==> r == Err::<(), Error>(
                Error::PrevBlock,
            ),
            !old(self).security.shutdown && compact_target(u32_le(raw_block_header@, 72))
                < two_256() && !old(self).stored(sha256d_of(raw_block_header@)) && old(
                self,
            ).stored(raw_block_header@.subrange(4, 36)) && !meets_target(
                sha256d_of(raw_block_header@),
                compact_target(u32_le(raw_block_header@, 72)),
            ) ==> r == Err::<(), Error>(Error::LowDiff),
            !old(self).security.shutdown && old(self).header_acceptable(raw_block_header@)
                && old(self).chain_counter < u32::MAX ==> r is Ok,
            final(self).config == old(self).config,
            r matches Err(e) ==> e == Error::Shutdown || e == Error::MalformedHeader || e
                == Error::DuplicateBlock || e == Error::OutdatedBlock || e == Error::PrevBlock || e
                == Error::LowDiff || e == Error::BlockHeightOverflow || e == Error::DiffTargetHeader
                || e == Error::InvalidChainID || e == Error::MissingBlockHeight || e
                == Error::BlockNotFound || e == Error::ChainCounterOverflow,
            ({
                let prev = old(self).header_with(raw_block_header@.subrange(4, 36));
                &&& !old(self).security.shutdown && old(self).header_basics_ok(raw_block_header@)
                    && prev.block_height == u32::MAX ==> r == Err::<(), Error>(Error::BlockHeightOverflow)
                &&& !old(self).security.shutdown && old(self).header_basics_ok(raw_block_header@)
                    && prev.block_height < u32::MAX && !old(self).config.disable_difficulty_check
                    && !old(self).target_fits(prev, compact_target(u32_le(raw_block_header@, 72)))
                    && (is_retarget_height(prev.block_height + 1) ==> old(self).covers(
                    prev.chain_ref,
                    prev.block_height + 1 - DIFFICULTY_ADJUSTMENT_INTERVAL,
                )) ==> r == Err::<(), Error>(Error::DiffTargetHeader)
                &&& !old(self).security.shutdown && old(self).header_basics_ok(raw_block_header@)
                    && prev.block_height < u32::MAX && !old(self).config.disable_difficulty_check
                    && is_retarget_height(prev.block_height + 1) && !old(self).covers(
                    prev.chain_ref,
                    prev.block_height + 1 - DIFFICULTY_ADJUSTMENT_INTERVAL,
                ) ==> r == Err::<(), Error>(Error::MissingBlockHeight)
                &&& !old(self).security.shutdown && old(self).header_acceptable(raw_block_header@)
                    && old(self).chain_counter == u32::MAX && !old(self).is_chain_tip(prev)
                    ==> r == Err::<(), Error>(Error::ChainCounterOverflow)
                &&& !old(self).security.shutdown && old(self).header_acceptable(raw_block_header@)
                    && old(self).chain_counter == u32::MAX && prev.block_hash@ != old(self).best_block@
                    ==> forall|ci: int|
                    1 <= ci < old(self).chains@.len() && (#[trigger] old(self).chains@[ci]).chain_id
                        == prev.chain_ref && old(self).chains@[ci].max_height == prev.block_height
                        && Self::reorg_fires(
                        Self::grown_at(old(self).chains@, ci),
                        ci,
                        old(self).config.bitcoin_confirmations as int,
                    ) ==> r == Err::<(), Error>(Error::ChainCounterOverflow)
            }),
            r is Ok ==> {
                let prev = old(self).header_with(raw_block_header@.subrange(4, 36));
                let stored = final(self).block_headers@.last();
                let h = stored.block_height;
                let hash = stored.block_hash;
                &&& final(self).block_headers@.len() == old(self).block_headers@.len() + 1
                &&& hash@ == sha256d_of(raw_block_header@)
                &&& header_of(raw_block_header@, stored.block_header)
                &&& h == prev.block_height + 1
                &&& stored.account_id == relayer
                &&& stored.para_height == old(self).security.active_block_number
                &&& final(self).start_block_height == old(self).start_block_height
                &&& final(self).best_block_height >= old(self).best_block_height
            },
            r is Ok ==> {
                let prev = old(self).header_with(raw_block_header@.subrange(4, 36));
                let stored = final(self).block_headers@.last();
                let h = stored.block_height;
                let hash = stored.block_hash;
                &&& prev.block_hash@ == old(self).best_block@ ==> {
                    &&& final(self).block_headers@ == old(self).block_headers@.push(stored)
                    &&& stored.chain_ref == MAIN_CHAIN_ID
                    &&& final(self).chains@ == old(self).chains@.update(0, final(self).chains@[0])
                    &&& final(self).chains@[0].chain_id == MAIN_CHAIN_ID
                    &&& final(self).chains@[0].start_height == old(self).chains@[0].start_height
                    &&& final(self).chains@[0].max_height == h
                    &&& final(self).chains@[0].no_data == old(self).chains@[0].no_data
                    &&& final(self).chains@[0].invalid == old(self).chains@[0].invalid
                    &&& final(self).chains@[0].hashes@ == old(self).chains@[0].hashes@.push(hash)
                    &&& final(self).best_block == hash
                    &&& final(self).best_block_height == h
                    &&& final(self).chain_counter == old(self).chain_counter
                    &&& final(self).events@ == old(self).events@.push(
                        Event::StoreMainChainHeader(h, hash, relayer),
                    )
                }
            },
            r is Ok ==> {
                let prev = old(self).header_with(raw_block_header@.subrange(4, 36));
                let stored = final(self).block_headers@.last();
                let h = stored.block_height;
                let hash = stored.block_hash;
                &&& prev.block_hash@ != old(self).best_block@ && !old(self).is_chain_tip(prev) ==> {
                    &&& final(self).block_headers@ == old(self).block_headers@.push(stored)
                    &&& final(self).chain_counter == old(self).chain_counter + 1
                    &&& stored.chain_ref == final(self).chain_counter
                    &&& final(self).best_block == old(self).best_block
                    &&& final(self).best_block_height == old(self).best_block_height
                    &&& exists|pos: int|
                        1 <= pos <= old(self).chains@.len() && final(self).chains@
                            == old(self).chains@.insert(pos, final(self).chains@[pos])
                            && final(self).chains@[pos].chain_id == final(self).chain_counter
                            && final(self).chains@[pos].start_height == h
                            && final(self).chains@[pos].max_height == h
                            && final(self).chains@[pos].no_data@.len() == 0
                            && final(self).chains@[pos].invalid@.len() == 0
                            && final(self).chains@[pos].hashes@ == seq![hash]
                    &&& final(self).events@ == old(self).events@.push(
                        Event::StoreForkHeader(final(self).chain_counter, h, hash, relayer),
                    )
                }
            },
            r is Ok ==> {
                let prev = old(self).header_with(raw_block_header@.subrange(4, 36));
                let stored = final(self).block_headers@.last();
                let h = stored.block_height;
                let hash = stored.block_hash;
                &&& prev.block_hash@ != old(self).best_block@ && old(self).is_chain_tip(prev)
                    ==> forall|ci: int|
                    1 <= ci < old(self).chains@.len() && (#[trigger] old(self).chains@[ci]).chain_id
                        == prev.chain_ref ==> ({
                        let g = Self::grown_at(old(self).chains@, ci);
                        let fork = old(self).chains@[ci];
                        let main = old(self).chains@[0];
                        if Self::reorg_fires(g, ci, old(self).config.bitcoin_confirmations as int) {
                            &&& final(self).best_block == hash
                            &&& final(self).best_block_height == h
                            &&& final(self).chains@[0].max_height == h
                            &&& final(self).chains@[0].start_height == main.start_height
                            &&& final(self).chains@[0].hashes@.subrange(
                                fork.start_height - main.start_height,
                                final(self).chains@[0].hashes@.len() as int,
                            ) == fork.hashes@.push(hash)
                            &&& fork.start_height <= main.max_height + 1 ==> final(self).chains@[0].hashes@
                                == main.hashes@.subrange(0, fork.start_height - main.start_height) + fork.hashes@.push(hash)
                            &&& final(self).events@ == old(self).events@.push(
                                Event::ChainReorg(hash, h, (h - fork.start_height) as u32),
                            ).push(Event::StoreMainChainHeader(h, hash, relayer))
                        } else {
                            &&& final(self).block_headers@ == old(self).block_headers@.push(stored)
                            &&& stored.chain_ref == fork.chain_id
                            &&& final(self).best_block == old(self).best_block
                            &&& final(self).best_block_height == old(self).best_block_height
                            &&& final(self).chain_counter == old(self).chain_counter
                            &&& exists|cur: int|
                                1 <= cur <= ci && final(self).chains@.remove(cur)
                                    == old(self).chains@.remove(ci) && final(self).chains@[cur].chain_id
                                    == fork.chain_id && final(self).chains@[cur].start_height
                                    == fork.start_height && final(self).chains@[cur].max_height == h
                                    && final(self).chains@[cur].no_data == fork.no_data
                                    && final(self).chains@[cur].invalid == fork.invalid
                                    && final(self).chains@[cur].hashes@ == fork.hashes@.push(hash)
                                    && (Self::climbs_to_front(g, ci) ==> cur == 1)
                                    && (forall|i: int| cur <= i < ci ==> (#[trigger] old(self).chains@[i]).max_height
                                    < h) && (cur > 1 ==> old(self).chains@[cur - 1].max_height >= h)
                            &&& final(self).events@ == (if Self::climbs_to_front(g, ci)
                                && main.max_height < h {
                                old(self).events@.push(
                                    Event::ForkAheadOfMainChain(main.max_height, h, fork.chain_id),
                                )
                            } else {
                                old(self).events@
                            }).push(Event::StoreForkHeader(fork.chain_id, h, hash, relayer))
                        }
                    })
            },
    {
        if self.security.is_shutdown() {
            return Err(Error::Shutdown);
        }
        let (basic_block_header, block_header_hash, p) = match self.verify_block_header(&raw_block_header) {
            Ok(v) => v,
            Err(e) => {
                if e == Error::DuplicateBlock && raw_block_header.hash() == self.best_block {
                    return Err(Error::OutdatedBlock);
                }
                return Err(e);
            },
        };
        let prev = self.block_headers[p];
        proof {
            assert(Self::placed(self.chains@, self.block_headers@[p as int]));
            if prev.block_hash@ == self.best_block@ {
                crate::laws::lemma_best_header(*self, p as int);
            }
        }
        let block_height = prev.block_height + 1;
        let ci: usize = if prev.block_hash == self.best_block && prev.block_height
            == self.best_block_height {
            0
        } else {
            match self.find_chain(prev.chain_ref) {
                Some(ci) => ci,
                None => {
                    return Err(Error::InvalidChainID);
                },
            }
        };
        let is_fork = self.chains[ci].max_height != prev.block_height;
        proof {
            if ci == 0 && !is_fork {
                let m = self.chains@[0];
                assert(m.wf());
                let i = choose|i: int|
                    0 <= i < self.chains@.len() && (#[trigger] self.chains@[i]).chain_id == prev.chain_ref
                        && self.chains@[i].start_height <= prev.block_height <= self.chains@[i].max_height
                        && self.chains@[i].hash_at(prev.block_height as int)@ == prev.block_hash@;
                if prev.block_hash@ != self.best_block@ {
                    assert(self.chains@[i].chain_id == self.chains@[0].chain_id);
                    assert(i == 0);
                    assert(m.hash_at(prev.block_height as int) == m.tip());
                }
            }
        }
        proof {
            assert(self.chains@[ci as int].chain_id == prev.chain_ref);
            if ci == 0 && !is_fork {
                assert(prev.block_hash@ == self.best_block@);
            }
            if self.is_chain_tip(prev) {
                let i = choose|i: int|
                    0 <= i < self.chains@.len() && (#[trigger] self.chains@[i]).chain_id == prev.chain_ref
                        && self.chains@[i].max_height == prev.block_height;
                assert(i == ci);
            }
            if !is_fork {
                assert(self.is_chain_tip(prev));
            }
            assert forall|cj: int| 1 <= cj < self.chains@.len() && (#[trigger] self.chains@[cj]).chain_id
                == prev.chain_ref implies cj == ci by {}
            let m = self.chains@[0];
            assert(m.wf());
            assert(Self::backed(self.block_headers@, m, m.hashes@.len() - 1));
            assert(self.best_block@ != block_header_hash@);
        }
        if self.chain_counter == u32::MAX && (is_fork || (ci != 0 && self.reorg_would_fire(ci))) {
            return Err(Error::ChainCounterOverflow);
        }
        let para_height = self.security.active_block_number();
        let chain_id = if is_fork {
            self.chain_counter + 1
        } else {
            self.chains[ci].chain_id
        };
        let block_header = RichBlockHeader {
            block_hash: block_header_hash,
            block_header: basic_block_header,
            block_height,
            chain_ref: chain_id,
            account_id: relayer,
            para_height,
        };
        let ghost ci_exec: int = ci as int;
        let ghost mut spot: int = 0;
        if is_fork {
            self.add_fork(block_header);
            proof {
                spot = choose|pos: int|
                    1 <= pos <= old(self).chains@.len() && self.chains@ == old(self).chains@.insert(
                        pos,
                        self.chains@[pos],
                    ) && self.chains@[pos].chain_id == block_header.chain_ref
                        && self.chains@[pos].start_height == block_header.block_height
                        && self.chains@[pos].max_height == block_header.block_height
                        && self.chains@[pos].no_data@.len() == 0
                        && self.chains@[pos].invalid@.len() == 0
                        && self.chains@[pos].hashes@ == seq![block_header.block_hash];
            }
        } else {
            self.extend_chain(ci, block_header);
            proof {
                let g = Self::grown_at(old(self).chains@, ci as int);
                let fork = old(self).chains@[ci as int];
                if ci != 0 && !Self::reorg_fires(g, ci as int, old(self).config.bitcoin_confirmations as int) {
                    spot = choose|cur: int|
                        1 <= cur <= ci && self.chains@.remove(cur) == old(self).chains@.remove(
                            ci as int,
                        ) && self.chains@[cur].chain_id == fork.chain_id
                            && self.chains@[cur].start_height == fork.start_height
                            && self.chains@[cur].max_height == block_header.block_height
                            && self.chains@[cur].no_data == fork.no_data
                            && self.chains@[cur].invalid == fork.invalid
                            && self.chains@[cur].hashes@ == fork.hashes@.push(
                            block_header.block_hash,
                        ) && (Self::climbs_to_front(g, ci as int) ==> cur == 1)
                            && (forall|i: int| cur <= i < ci ==> (#[trigger] old(self).chains@[i]).max_height
                            < block_header.block_height) && (cur > 1 ==> old(self).chains@[cur
                            - 1].max_height >= block_header.block_height);
                }
            }
        }
        let ghost mid_events = self.events@;
        if self.best_block == block_header_hash {
            self.events.push(Event::StoreMainChainHeader(block_height, block_header_hash, relayer));
        } else {
            self.events.push(Event::StoreForkHeader(chain_id, block_height, block_header_hash, relayer));
        }
        proof {
            let praw = old(self).header_with(raw_block_header@.subrange(4, 36));
            assert(praw == prev);
            if prev.block_hash@ != old(self).best_block@ && old(self).is_chain_tip(prev) {
                assert(!is_fork);
                assert(ci != 0);
                assert forall|c2: int| 1 <= c2 < old(self).chains@.len() && (#[trigger] old(
                    self,
                ).chains@[c2]).chain_id == prev.chain_ref implies c2 == ci by {
                    assert(old(self).chains@[ci as int].chain_id == prev.chain_ref);
                    assert(Self::ids_distinct(old(self).chains@));
                }
            }
        }
        proof {
            let stored = self.block_headers@.last();
            let h = stored.block_height;
            let hash = stored.block_hash;
            if is_fork {
                assert(self.chains@[spot].chain_id == self.chain_counter);
            }
            if prev.block_hash@ != old(self).best_block@ && old(self).is_chain_tip(prev) {
                assert forall|ci: int|
                    1 <= ci < old(self).chains@.len() && (#[trigger] old(self).chains@[ci]).chain_id
                        == prev.chain_ref implies {
                        let g = Self::grown_at(old(self).chains@, ci);
                        let fork = old(self).chains@[ci];
                        let main = old(self).chains@[0];
                        if Self::reorg_fires(g, ci, old(self).config.bitcoin_confirmations as int) {
                            &&& self.best_block == hash
                            &&& self.best_block_height == h
                            &&& self.chains@[0].max_height == h
                            &&& self.chains@[0].start_height == main.start_height
                            &&& self.chains@[0].hashes@.subrange(
                                fork.start_height - main.start_height,
                                self.chains@[0].hashes@.len() as int,
                            ) == fork.hashes@.push(hash)
                            &&& fork.start_height <= main.max_height + 1 ==> self.chains@[0].hashes@
                                == main.hashes@.subrange(0, fork.start_height - main.start_height) + fork.hashes@.push(hash)
                            &&& self.events@ == old(self).events@.push(
                                Event::ChainReorg(hash, h, (h - fork.start_height) as u32),
                            ).push(Event::StoreMainChainHeader(h, hash, relayer))
                        } else {
                            &&& self.block_headers@ == old(self).block_headers@.push(stored)
                            &&& stored.chain_ref == fork.chain_id
                            &&& self.best_block == old(self).best_block
                            &&& self.best_block_height == old(self).best_block_height
                            &&& self.chain_counter == old(self).chain_counter
                            &&& exists|cur: int|
                                1 <= cur <= ci && self.chains@.remove(cur)
                                    == old(self).chains@.remove(ci) && self.chains@[cur].chain_id
                                    == fork.chain_id && self.chains@[cur].start_height
                                    == fork.start_height && self.chains@[cur].max_height == h
                                    && self.chains@[cur].no_data == fork.no_data
                                    && self.chains@[cur].invalid == fork.invalid
                                    && self.chains@[cur].hashes@ == fork.hashes@.push(hash)
                                    && (Self::climbs_to_front(g, ci) ==> cur == 1)
                                    && (forall|i: int| cur <= i < ci ==> (#[trigger] old(self).chains@[i]).max_height
                                    < h) && (cur > 1 ==> old(self).chains@[cur - 1].max_height >= h)
                            &&& self.events@ == (if Self::climbs_to_front(g, ci)
                                && main.max_height < h {
                                old(self).events@.push(
                                    Event::ForkAheadOfMainChain(main.max_height, h, fork.chain_id),
                                )
                            } else {
                                old(self).events@
                            }).push(Event::StoreForkHeader(fork.chain_id, h, hash, relayer))
                        }
                    } by {
                    assert(ci == ci_exec);
                    let g = Self::grown_at(old(self).chains@, ci);
                    if !Self::reorg_fires(g, ci, old(self).config.bitcoin_confirmations as int) {
                        assert(self.chains@[spot].hashes@ == old(self).chains@[ci].hashes@.push(block_header_hash));
                    }
                }
            }
        }
        Ok(())
    }

    /// Stores a header that starts a new fork, queued by its height.
    fn add_fork(&mut self, block_header: RichBlockHeader)
        requires
            old(self).wf(),
            old(self).initialized,
            !old(self).stored(block_header.block_hash@),
            block_header.block_height > old(self).start_block_height,
            old(self).chain_counter < u32::MAX,
            block_header.chain_ref == old(self).chain_counter + 1,
            exists|k: int|
                0 <= k < old(self).block_headers@.len() && (#[trigger] old(self).block_headers@[k]).block_hash@
                    == block_header.block_header.hash_prev_block@ && old(self).block_headers@[k].block_height + 1
                    == block_header.block_height,
        ensures
            final(self).wf(),
            final(self).start_block_height == old(self).start_block_height,
            final(self).initialized == old(self).initialized,
            final(self).config == old(self).config,
            final(self).security.active_block_number == old(self).security.active_block_number,
            final(self).security.shutdown == old(self).security.shutdown,
            final(self).block_headers@ == old(self).block_headers@.push(block_header),
            final(self).chain_counter == old(self).chain_counter + 1,
            final(self).best_block == old(self).best_block,
            final(self).best_block_height == old(self).best_block_height,
            final(self).security == old(self).security,
            final(self).events == old(self).events,
            exists|pos: int|
                1 <= pos <= old(self).chains@.len() && final(self).chains@ == old(self).chains@.insert(
                    pos,
                    final(self).chains@[pos],
                ) && final(self).chains@[pos].chain_id == block_header.chain_ref
                    && final(self).chains@[pos].start_height == block_header.block_height
                    && final(self).chains@[pos].max_height == block_header.block_height
                    && final(self).chains@[pos].no_data@.len() == 0
                    && final(self).chains@[pos].invalid@.len() == 0
                    && final(self).chains@[pos].hashes@ == seq![block_header.block_hash],
    {
        let ghost old_headers = self.block_headers@;
        self.block_headers.push(block_header);
        proof {
            Self::lemma_parents_push(old_headers, block_header, self.start_block_height);
        }
        proof {
            assert forall|a: int, b: int|
                0 <= a < self.block_headers@.len() && 0 <= b < self.block_headers@.len() && a != b implies (
                #[trigger] self.block_headers@[a]).block_hash@ != (
                #[trigger] self.block_headers@[b]).block_hash@ by {
                if a < old_headers.len() && b < old_headers.len() {
                    assert(self.block_headers@[a] == old_headers[a]);
                    assert(self.block_headers@[b] == old_headers[b]);
                } else if a < old_headers.len() {
                    assert(self.block_headers@[a] == old_headers[a]);
                    assert(old(self).stored(old_headers[a].block_hash@));
                } else {
                    assert(self.block_headers@[b] == old_headers[b]);
                    assert(old(self).stored(old_headers[b].block_hash@));
                }
            }
        }
        self.chain_counter = block_header.chain_ref;
        let chain = BlockChain::single(block_header.chain_ref, block_header.block_height, block_header.block_hash);
        proof {
            assert forall|i: int| 0 <= i < self.chains@.len() implies (
            #[trigger] self.chains@[i]).chain_id != chain.chain_id by {
                assert(self.chains@[i].chain_id <= old(self).chain_counter);
            }
        }
        let ghost c1 = self.chains@;
        let pos = self.insert_sorted(chain);
        proof {
            let c2 = self.chains@;
            let hs2 = self.block_headers@;
            assert(hs2 == old_headers.push(block_header));
            let to_new = |i: int| if i < pos { i } else { i + 1 };
            let from_old = |i: int| if i < pos { i } else if i == pos { -1 } else { i - 1 };
            assert forall|k: int| 0 <= k < c2[pos as int].hashes@.len() implies #[trigger] Self::backed(hs2, c2[pos as int], k) by {
                assert(k == 0);
                assert(hs2[old_headers.len() as int] == block_header);
            }
            assert forall|j: int| old_headers.len() <= j < hs2.len() implies Self::placed(c2, #[trigger] hs2[j]) by {
                assert(hs2[j] == block_header);
                assert(c2[pos as int] == chain);
            }
            Self::lemma_index_transfer(c1, c2, old_headers, hs2, to_new, from_old);
            assert(c2[pos as int] == chain);
            assert(c2 == c1.insert(pos as int, c2[pos as int]));
        }
    }

    /// Stores a header on top of the chain at `ci`; a fork that grows may then replace
    /// the main chain.
    /// Growing the chain at `ci` by one block climbs and fires exactly as the grown
    /// queue's heights say.
    pub proof fn lemma_grown_fires(before: Seq<BlockChain>, a: Seq<BlockChain>, ci: int, margin: int)
        requires
            0 <= ci < before.len(),
            a == before.update(ci, a[ci]),
            a[ci].max_height == before[ci].max_height + 1,
            a[ci].start_height == before[ci].start_height,
        ensures
            Self::climbs_to_front(a, ci) == Self::climbs_to_front(Self::grown_at(before, ci), ci),
            Self::reorg_fires(a, ci, margin) == Self::reorg_fires(Self::grown_at(before, ci), ci, margin),
    {
        let g = Self::grown_at(before, ci);
        assert forall|i: int| 0 <= i < a.len() implies #[trigger] a[i].max_height == g[i].max_height
            && a[i].start_height == g[i].start_height by {}
        if Self::climbs_to_front(a, ci) {
            assert forall|i: int| 1 <= i < ci implies (#[trigger] g[i]).max_height < g[ci].max_height by {
                assert(a[i].max_height < a[ci].max_height);
            }
        }
        if Self::climbs_to_front(g, ci) {
            assert forall|i: int| 1 <= i < ci implies (#[trigger] a[i]).max_height < a[ci].max_height by {
                assert(g[i].max_height < g[ci].max_height);
            }
        }
    }

    /// Appends a header whose parent is the tip of the chain at `ci`, and grows that chain.
    fn grow_chain(&mut self, ci: usize, block_header: RichBlockHeader)
        requires
            old(self).wf(),
            old(self).initialized,
            ci < old(self).chains@.len(),
            !old(self).stored(block_header.block_hash@),
            block_header.chain_ref == old(self).chains@[ci as int].chain_id,
            block_header.block_height == old(self).chains@[ci as int].max_height + 1,
            ci != 0 && Self::reorg_fires(
                Self::grown_at(old(self).chains@, ci as int),
                ci as int,
                old(self).config.bitcoin_confirmations as int,
            ) ==> old(self).chain_counter < u32::MAX,
            exists|k: int|
                0 <= k < old(self).block_headers@.len() && (#[trigger] old(self).block_headers@[k]).block_hash@
                    == block_header.block_header.hash_prev_block@ && old(self).block_headers@[k].block_height + 1
                    == block_header.block_height,
        ensures
            final(self).chains_ok_but(ci as int),
            Self::hashes_distinct(final(self).block_headers@),
            Self::index_ok(final(self).chains@, final(self).block_headers@),
            Self::parents_ok(final(self).block_headers@, final(self).start_block_height),
            forall|j: int|
                0 <= j < final(self).block_headers@.len() ==> (#[trigger] final(self).block_headers@[j]).block_height
                    >= final(self).start_block_height,
            final(self).block_headers@ == old(self).block_headers@.push(block_header),
            final(self).chains@ == old(self).chains@.update(ci as int, final(self).chains@[ci as int]),
            final(self).chains@[ci as int].chain_id == old(self).chains@[ci as int].chain_id,
            final(self).chains@[ci as int].start_height == old(self).chains@[ci as int].start_height,
            final(self).chains@[ci as int].max_height == block_header.block_height,
            final(self).chains@[ci as int].no_data == old(self).chains@[ci as int].no_data,
            final(self).chains@[ci as int].invalid == old(self).chains@[ci as int].invalid,
            final(self).chains@[ci as int].hashes@ == old(self).chains@[ci as int].hashes@.push(block_header.block_hash),
            final(self).best_block == old(self).best_block,
            final(self).best_block_height == old(self).best_block_height,
            final(self).best_block@ != block_header.block_hash@,
            final(self).start_block_height == old(self).start_block_height,
            final(self).chain_counter == old(self).chain_counter,
            final(self).initialized == old(self).initialized,
            final(self).config == old(self).config,
            final(self).security == old(self).security,
            final(self).events == old(self).events,
    {
        let ghost old_headers = self.block_headers@;
        self.block_headers.push(block_header);
        proof {
            Self::lemma_parents_push(old_headers, block_header, self.start_block_height);
        }
        proof {
            assert forall|a: int, b: int|
                0 <= a < self.block_headers@.len() && 0 <= b < self.block_headers@.len() && a != b implies (
                #[trigger] self.block_headers@[a]).block_hash@ != (
                #[trigger] self.block_headers@[b]).block_hash@ by {
                if a < old_headers.len() && b < old_headers.len() {
                    assert(self.block_headers@[a] == old_headers[a]);
                    assert(self.block_headers@[b] == old_headers[b]);
                } else if a < old_headers.len() {
                    assert(self.block_headers@[a] == old_headers[a]);
                    assert(old(self).stored(old_headers[a].block_hash@));
                } else {
                    assert(self.block_headers@[b] == old_headers[b]);
                    assert(old(self).stored(old_headers[b].block_hash@));
                }
            }
        }
        let ghost before = self.chains@;
        let mut c = self.chains.remove(ci);
        c.max_height = block_header.block_height;
        c.hashes.push(block_header.block_hash);
        proof {
            assert(before[ci as int].wf());
            assert forall|k: int| 0 <= k < c.no_data@.len() implies c.start_height
                <= #[trigger] c.no_data@[k] <= c.max_height by {
                assert(before[ci as int].no_data@[k] == c.no_data@[k]);
            }
            assert forall|k: int| 0 <= k < c.invalid@.len() implies c.start_height
                <= #[trigger] c.invalid@[k] <= c.max_height by {
                assert(before[ci as int].invalid@[k] == c.invalid@[k]);
            }
        }
        self.chains.insert(ci, c);
        proof {
            let after = self.chains@;
            assert(after == before.update(ci as int, c));
            assert forall|i: int| 0 <= i < after.len() implies (#[trigger] after[i]).wf()
                && after[i].chain_id <= self.chain_counter && (i >= 1 ==> after[i].start_height
                > self.start_block_height) by {
                if i != ci {
                    assert(after[i] == before[i]);
                }
            }
            assert forall|i: int, j: int|
                0 <= i < after.len() && 0 <= j < after.len() && i != j implies (
                #[trigger] after[i]).chain_id != (#[trigger] after[j]).chain_id by {
                assert(after[i].chain_id == before[i].chain_id);
                assert(after[j].chain_id == before[j].chain_id);
            }
            assert forall|i: int, j: int|
                1 <= i < j < after.len() && j != ci implies (#[trigger] after[i]).max_height
                    >= (#[trigger] after[j]).max_height by {
                assert(after[j] == before[j]);
                assert(after[i].max_height >= before[i].max_height);
            }
        }
        proof {
            Self::lemma_index_extend(before, old_headers, ci as int, self.chains@[ci as int], block_header);
            assert(self.block_headers@ == old_headers.push(block_header));
            assert(self.chains@ == before.update(ci as int, self.chains@[ci as int]));
        }
        proof {
            let m = before[0];
            assert(m.wf());
            assert(Self::backed(old_headers, m, m.hashes@.len() - 1));
            assert(self.best_block@ != block_header.block_hash@);
        }
    }

    #[verifier::rlimit(100)]
    fn extend_chain(&mut self, ci: usize, block_header: RichBlockHeader)
        requires
            old(self).wf(),
            old(self).initialized,
            ci < old(self).chains@.len(),
            !old(self).stored(block_header.block_hash@),
            block_header.chain_ref == old(self).chains@[ci as int].chain_id,
            block_header.block_height == old(self).chains@[ci as int].max_height + 1,
            ci != 0 && Self::reorg_fires(
                Self::grown_at(old(self).chains@, ci as int),
                ci as int,
                old(self).config.bitcoin_confirmations as int,
            ) ==> old(self).chain_counter < u32::MAX,
            exists|k: int|
                0 <= k < old(self).block_headers@.len() && (#[trigger] old(self).block_headers@[k]).block_hash@
                    == block_header.block_header.hash_prev_block@ && old(self).block_headers@[k].block_height + 1
                    == block_header.block_height,
        ensures
            final(self).wf(),
            final(self).start_block_height == old(self).start_block_height,
            final(self).initialized == old(self).initialized,
            final(self).config == old(self).config,
            final(self).security.active_block_number == old(self).security.active_block_number,
            final(self).security.shutdown == old(self).security.shutdown,
            final(self).block_headers@.len() == old(self).block_headers@.len() + 1,
            final(self).block_headers@.last() == (RichBlockHeader {
                chain_ref: final(self).block_headers@.last().chain_ref,
                ..block_header
            }),
            ci == 0 ==> {
                &&& final(self).block_headers@ == old(self).block_headers@.push(block_header)
                &&& final(self).chains@ == old(self).chains@.update(0, final(self).chains@[0])
                &&& final(self).chains@[0].chain_id == old(self).chains@[0].chain_id
                &&& final(self).chains@[0].start_height == old(self).chains@[0].start_height
                &&& final(self).chains@[0].max_height == block_header.block_height
                &&& final(self).chains@[0].no_data == old(self).chains@[0].no_data
                &&& final(self).chains@[0].invalid == old(self).chains@[0].invalid
                &&& final(self).chains@[0].hashes@ == old(self).chains@[0].hashes@.push(block_header.block_hash)
                &&& final(self).best_block == block_header.block_hash
                &&& final(self).best_block_height == block_header.block_height
                &&& final(self).chain_counter == old(self).chain_counter
                &&& final(self).security == old(self).security
                &&& final(self).events == old(self).events
            },
            ci != 0 ==> ({
                let g = Self::grown_at(old(self).chains@, ci as int);
                let fork = old(self).chains@[ci as int];
                let main = old(self).chains@[0];
                if Self::reorg_fires(g, ci as int, old(self).config.bitcoin_confirmations as int) {
                    &&& final(self).best_block == block_header.block_hash
                    &&& final(self).best_block_height == block_header.block_height
                    &&& final(self).chains@[0].max_height == block_header.block_height
                    &&& final(self).chains@[0].start_height == main.start_height
                    &&& final(self).chains@[0].hashes@.subrange(
                        fork.start_height - main.start_height,
                        final(self).chains@[0].hashes@.len() as int,
                    ) == fork.hashes@.push(block_header.block_hash)
                    &&& fork.start_height <= main.max_height + 1 ==> final(self).chains@[0].hashes@
                        == main.hashes@.subrange(0, fork.start_height - main.start_height) + fork.hashes@.push(block_header.block_hash)
                    &&& final(self).events@ == old(self).events@.push(
                        Event::ChainReorg(
                            block_header.block_hash,
                            block_header.block_height,
                            (block_header.block_height - fork.start_height) as u32,
                        ),
                    )
                } else {
                    &&& final(self).block_headers@ == old(self).block_headers@.push(block_header)
                    &&& final(self).best_block == old(self).best_block
                    &&& final(self).best_block_height == old(self).best_block_height
                    &&& final(self).chain_counter == old(self).chain_counter
                    &&& final(self).security == old(self).security
                    &&& exists|cur: int|
                        1 <= cur <= ci && final(self).chains@.remove(cur) == old(self).chains@.remove(
                            ci as int,
                        ) && final(self).chains@[cur].chain_id == fork.chain_id
                            && final(self).chains@[cur].start_height == fork.start_height
                            && final(self).chains@[cur].max_height == block_header.block_height
                            && final(self).chains@[cur].no_data == fork.no_data
                            && final(self).chains@[cur].invalid == fork.invalid
                            && final(self).chains@[cur].hashes@ == fork.hashes@.push(
                            block_header.block_hash,
                        ) && (Self::climbs_to_front(g, ci as int) ==> cur == 1)
                            && (forall|i: int| cur <= i < ci ==> (#[trigger] old(self).chains@[i]).max_height
                            < block_header.block_height) && (cur > 1 ==> old(self).chains@[cur
                            - 1].max_height >= block_header.block_height)
                    &&& final(self).events@ == (if Self::climbs_to_front(g, ci as int)
                        && main.max_height < block_header.block_height {
                        old(self).events@.push(
                            Event::ForkAheadOfMainChain(main.max_height, block_header.block_height, fork.chain_id),
                        )
                    } else {
                        old(self).events@
                    })
                }
            }),
    {
        let ghost before = self.chains@;
        self.grow_chain(ci, block_header);
        proof {
            Self::lemma_grown_fires(before, self.chains@, ci as int, self.config.bitcoin_confirmations as int);
            if ci != 0 {
                assert(before[ci as int].chain_id != MAIN_CHAIN_ID);
            }
        }
        if ci == 0 {
            self.best_block = block_header.block_hash;
            self.best_block_height = block_header.block_height;
        } else {
            let ghost a = self.chains@;
            proof {
                assert(a[ci as int].tip() == block_header.block_hash);
                assert(a.remove(ci as int) =~= old(self).chains@.remove(ci as int));
            }
            self.check_and_do_reorg(ci);
            proof {
                if !Self::reorg_fires(a, ci as int, self.config.bitcoin_confirmations as int) {
                    let cur = choose|cur: int|
                        1 <= cur <= ci && self.chains@ == a.remove(ci as int).insert(cur, a[ci as int])
                            && (Self::climbs_to_front(a, ci as int) ==> cur == 1)
                            && (forall|i: int| cur <= i < ci ==> (#[trigger] a[i]).max_height
                            < a[ci as int].max_height) && (cur > 1 ==> a[cur - 1].max_height
                            >= a[ci as int].max_height);
                    assert(self.chains@.remove(cur) =~= a.remove(ci as int));
                    assert(self.chains@[cur] == a[ci as int]);
                    assert forall|i: int| cur <= i < ci implies (#[trigger] old(self).chains@[i]).max_height
                        < block_header.block_height by {
                        assert(a[i] == old(self).chains@[i]);
                    }
                    if cur > 1 {
                        assert(a[cur - 1] == old(self).chains@[cur - 1]);
                    }
                }
            }
        }
    }

    /// Starts the relay at a header of the caller's choice; only once.
    pub fn initialize(&mut self, relayer: AccountId, raw_block_header: RawBlockHeader, block_height: u32) -> (r: Result<(), Error>)
        requires
            old(self).wf(),
        ensures
            final(self).wf(),
            old(self).initialized ==> r == Err::<(), Error>(Error::AlreadyInitialized),
            !old(self).initialized && compact_target(u32_le(raw_block_header@, 72)) >= two_256()
                ==> r == Err::<(), Error>(Error::MalformedHeader),
            r is Err ==> *final(self) == *old(self),
            !old(self).initialized && compact_target(u32_le(raw_block_header@, 72)) < two_256()
                ==> r is Ok,
            r is Ok ==> {
                &&& !old(self).initialized
                &&& final(self).initialized
                &&& final(self).chain_counter == old(self).chain_counter
                &&& final(self).chains@[0].chain_id == MAIN_CHAIN_ID
                &&& final(self).chains@[0].start_height == block_height
                &&& final(self).chains@[0].max_height == block_height
                &&& final(self).chains@[0].no_data@.len() == 0
                &&& final(self).chains@[0].invalid@.len() == 0
                &&& final(self).chains@[0].hashes@ == seq![final(self).best_block]
                &&& final(self).block_headers@[0].block_hash == final(self).best_block
                &&& final(self).block_headers@[0].account_id == relayer
                &&& final(self).best_block@ == sha256d_of(raw_block_header@)
                &&& final(self).best_block_height == block_height
                &&& final(self).start_block_height == block_height
                &&& final(self).chains@.len() == 1
                &&& final(self).chains@[0].hashes@.len() == 1
                &&& final(self).block_headers@.len() == 1
                &&& header_of(raw_block_header@, final(self).block_headers@[0].block_header)
                &&& final(self).block_headers@[0].block_height == block_height
                &&& final(self).block_headers@[0].chain_ref == MAIN_CHAIN_ID
                &&& final(self).block_headers@[0].para_height
                    == old(self).security.active_block_number
                &&& final(self).events@ == old(self).events@.push(
                    Event::Initialized(block_height, final(self).best_block, relayer),
                )
            },
    {
        if self.initialized {
            return Err(Error::AlreadyInitialized);
        }
        let basic_block_header = parse_block_header(&raw_block_header)?;
        let block_header_hash = raw_block_header.hash();
        let para_height = self.security.active_block_number();
        let blockchain = BlockChain::single(MAIN_CHAIN_ID, block_height, block_header_hash);
        let block_header = RichBlockHeader {
            block_hash: block_header_hash,
            block_header: basic_block_header,
            block_height,
            chain_ref: MAIN_CHAIN_ID,
            account_id: relayer,
            para_height,
        };
        self.block_headers.push(block_header);
        self.chains.push(blockchain);
        self.best_block = block_header_hash;
        self.best_block_height = block_height;
        self.start_block_height = block_height;
        self.initialized = true;
        self.events.push(Event::Initialized(block_height, block_header_hash, relayer));
        proof {
            let c = self.chains@;
            let hs = self.block_headers@;
            assert(c[0].hashes@[0] == block_header_hash);
            assert(hs[0].block_hash == block_header_hash);
            assert(Self::backed(hs, c[0], 0));
            assert(Self::placed(c, hs[0]));
        }
        Ok(())
    }

}

} // verus!
