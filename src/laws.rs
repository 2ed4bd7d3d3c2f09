//! What holds of the relay in every state it can reach, and at the edges of its rules.
//! Every operation that changes a relay keeps `Pallet::wf`, so each statement below
//! holds after any sequence of operations.
use vstd::prelude::*;
use crate::difficulty::{is_retarget_height, meets_target};
use crate::relay::{Pallet, MAIN_CHAIN_ID};
use crate::chain::BlockChain;
use crate::types::le_value;

verus! {

/// The main chain heads the queue, and the forks after it are ordered by descending
/// tip height.
pub proof fn lemma_queue_order(p: Pallet)
    requires
        p.wf(),
        p.initialized,
    ensures
        p.chains@[0].chain_id == MAIN_CHAIN_ID,
        forall|i: int, j: int|
            1 <= i < j < p.chains@.len() ==> (#[trigger] p.chains@[i]).max_height >= (
            #[trigger] p.chains@[j]).max_height,
{
}

/// The best block is the main chain's block at the main chain's tip height.
pub proof fn lemma_best_block(p: Pallet)
    requires
        p.wf(),
        p.initialized,
    ensures
        p.best_block == p.chains@[0].hash_at(p.chains@[0].max_height as int),
        p.best_block_height == p.chains@[0].max_height,
{
    assert(p.chains@[0].wf());
}

/// Every stored header is indexed under the chain that owns it, at its height, and
/// under no other chain at that height.
pub proof fn lemma_header_indexed_once(p: Pallet, j: int)
    requires
        p.wf(),
        0 <= j < p.block_headers@.len(),
    ensures
        Pallet::placed(p.chains@, p.block_headers@[j]),
        forall|i: int|
            0 <= i < p.chains@.len() && (#[trigger] p.chains@[i]).chain_id
                != p.block_headers@[j].chain_ref && p.chains@[i].start_height
                <= p.block_headers@[j].block_height <= p.chains@[i].max_height ==> p.chains@[i].hash_at(
                p.block_headers@[j].block_height as int,
            )@ != p.block_headers@[j].block_hash@,
{
    let h = p.block_headers@[j];
    assert(Pallet::placed(p.chains@, h));
    assert forall|i: int|
        0 <= i < p.chains@.len() && (#[trigger] p.chains@[i]).chain_id != h.chain_ref
            && p.chains@[i].start_height <= h.block_height <= p.chains@[i].max_height implies p.chains@[i].hash_at(
            h.block_height as int,
        )@ != h.block_hash@ by {
        let c = p.chains@[i];
        let k = h.block_height - c.start_height;
        assert(c.wf());
        if c.hash_at(h.block_height as int)@ == h.block_hash@ {
            assert(Pallet::backed(p.block_headers@, c, k));
            let j2 = choose|j2: int|
                0 <= j2 < p.block_headers@.len() && (#[trigger] p.block_headers@[j2]).block_hash@
                    == c.hashes@[k]@ && p.block_headers@[j2].chain_ref == c.chain_id
                    && p.block_headers@[j2].block_height == c.start_height + k;
            assert(j2 == j);
        }
    }
}

/// The stored header of the best block is the main chain's tip.
pub proof fn lemma_best_header(p: Pallet, j: int)
    requires
        p.wf(),
        p.initialized,
        0 <= j < p.block_headers@.len(),
        p.block_headers@[j].block_hash@ == p.best_block@,
    ensures
        p.block_headers@[j].block_height == p.best_block_height,
        p.block_headers@[j].chain_ref == MAIN_CHAIN_ID,
{
    let m = p.chains@[0];
    assert(m.wf());
    let k = m.hashes@.len() - 1;
    assert(Pallet::backed(p.block_headers@, m, k));
    let j2 = choose|j2: int|
        0 <= j2 < p.block_headers@.len() && (#[trigger] p.block_headers@[j2]).block_hash@
            == m.hashes@[k]@ && p.block_headers@[j2].chain_ref == m.chain_id
            && p.block_headers@[j2].block_height == m.start_height + k;
    assert(j2 == j);
}

/// The relay never falls below the height it started at.
pub proof fn lemma_start_below_best(p: Pallet)
    requires
        p.wf(),
        p.initialized,
    ensures
        p.start_block_height <= p.best_block_height,
{
    assert(p.chains@[0].wf());
}

/// Proof of work holds for a hash one below the target, and fails for a hash equal to it.
pub proof fn lemma_pow_boundary(below: Seq<u8>, at: Seq<u8>, target: int)
    requires
        le_value(below) == target - 1,
        le_value(at) == target,
    ensures
        meets_target(below, target),
        !meets_target(at, target),
{
}

/// A retarget falls exactly on the multiples of 2016 from 2016 on.
pub proof fn lemma_retarget_boundary(h: int)
    ensures
        is_retarget_height(h) <==> h >= 2016 && h % 2016 == 0,
        is_retarget_height(2016),
        !is_retarget_height(2015),
        !is_retarget_height(0),
{
}

/// A transaction with `req` confirmations asked for is accepted once the main chain
/// stands `req - 1` blocks above it, and not a block earlier.
pub proof fn lemma_confirmation_boundary(p: Pallet, tx_height: int, req: u32)
    requires
        0 < tx_height + req <= u32::MAX,
    ensures
        p.confirmations_ok(tx_height + req - 1, Some(req), tx_height),
        !p.confirmations_ok(tx_height + req - 2, Some(req), tx_height),
{
}

/// A fork that has climbed to the main chain replaces it when its tip stands
/// `margin + 1` blocks above the main chain's tip, and not when it stands `margin` above.
pub proof fn lemma_swap_threshold(chains: Seq<BlockChain>, pos: int, margin: int)
    requires
        0 <= margin,
        1 <= pos < chains.len(),
        Pallet::climbs_to_front(chains, pos),
        chains[pos].start_height <= chains[0].max_height + 1,
    ensures
        chains[pos].max_height == chains[0].max_height + margin + 1 ==> Pallet::reorg_fires(
            chains,
            pos,
            margin,
        ),
        chains[pos].max_height == chains[0].max_height + margin ==> !Pallet::reorg_fires(
            chains,
            pos,
            margin,
        ),
{
}

} // verus!
