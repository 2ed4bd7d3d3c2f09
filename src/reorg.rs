//! Fork choice: the queue of chains ordered by tip height, and the swap that
//! makes a fork that has pulled far enough ahead the main chain.
use vstd::prelude::*;
use crate::chain::{BlockChain, RichBlockHeader, flag_split, flag_union};
use crate::security::ErrorCode;
use crate::types::H256Le;
use crate::relay::{Event, Pallet, MAIN_CHAIN_ID};

verus! {

/// Moves the headers of chain `from_id` below height `below` to chain `to_id`.
fn move_headers(headers: &mut Vec<RichBlockHeader>, from_id: u32, below: u32, to_id: u32)
    ensures
        final(headers)@.len() == old(headers)@.len(),
        forall|k: int|
            0 <= k < old(headers)@.len() ==> #[trigger] final(headers)@[k] == Pallet::moved_header(
                old(headers)@[k],
                from_id,
                below,
                to_id,
            ),
        Pallet::hashes_distinct(old(headers)@) ==> Pallet::hashes_distinct(final(headers)@),
{
    let mut j: usize = 0;
    while j < headers.len()
        invariant
            0 <= j <= headers@.len(),
            headers@.len() == old(headers)@.len(),
            forall|k: int|
                0 <= k < j ==> #[trigger] headers@[k] == Pallet::moved_header(old(headers)@[k], from_id, below, to_id),
            forall|k: int| j <= k < headers@.len() ==> #[trigger] headers@[k] == old(headers)@[k],
        decreases headers@.len() - j,
    {
        let mut h = headers[j];
        if h.chain_ref == from_id && h.block_height < below {
            h.chain_ref = to_id;
        }
        headers[j] = h;
        j = j + 1;
    }
    proof {
        if Pallet::hashes_distinct(old(headers)@) {
            assert forall|a: int, b: int|
                0 <= a < headers@.len() && 0 <= b < headers@.len() && a != b implies (
                #[trigger] headers@[a]).block_hash@ != (#[trigger] headers@[b]).block_hash@ by {
                assert(headers@[a].block_hash == old(headers)@[a].block_hash);
                assert(headers@[b].block_hash == old(headers)@[b].block_hash);
            }
        }
    }
}

/// Rewrites the owning chain of every header after a main chain swap.
fn remap_headers(headers: &mut Vec<RichBlockHeader>, at: u32, fork_id: u32, displaced: Option<u32>)
    ensures
        final(headers)@.len() == old(headers)@.len(),
        forall|k: int|
            0 <= k < old(headers)@.len() ==> #[trigger] final(headers)@[k] == Pallet::swapped_header(
                old(headers)@[k],
                at,
                fork_id,
                displaced,
            ),
        Pallet::hashes_distinct(old(headers)@) ==> Pallet::hashes_distinct(final(headers)@),
{
    let mut j: usize = 0;
    while j < headers.len()
        invariant
            0 <= j <= headers@.len(),
            headers@.len() == old(headers)@.len(),
            forall|k: int|
                0 <= k < j ==> #[trigger] headers@[k] == Pallet::swapped_header(
                    old(headers)@[k],
                    at,
                    fork_id,
                    displaced,
                ),
            forall|k: int| j <= k < headers@.len() ==> #[trigger] headers@[k] == old(headers)@[k],
        decreases headers@.len() - j,
    {
        let mut h = headers[j];
        if h.chain_ref == MAIN_CHAIN_ID && h.block_height >= at && displaced.is_some() {
            h.chain_ref = displaced.unwrap();
        } else if h.chain_ref == fork_id {
            h.chain_ref = MAIN_CHAIN_ID;
        }
        headers[j] = h;
        j = j + 1;
    }
    proof {
        if Pallet::hashes_distinct(old(headers)@) {
            assert forall|a: int, b: int|
                0 <= a < headers@.len() && 0 <= b < headers@.len() && a != b implies (
                #[trigger] headers@[a]).block_hash@ != (#[trigger] headers@[b]).block_hash@ by {
                assert(headers@[a].block_hash == old(headers)@[a].block_hash);
                assert(headers@[b].block_hash == old(headers)@[b].block_hash);
            }
        }
    }
}

impl Pallet {
    /// The index stays in agreement through a main chain swap: `main2` is the main
    /// chain's prefix below the fork followed by the fork, `displaced` (where the main
    /// chain had blocks from the fork's start on) holds those blocks, the other forks
    /// are kept, and every header is moved to the chain that now holds it.
    pub proof fn lemma_index_swap(
        c1: Seq<BlockChain>,
        hs1: Seq<RichBlockHeader>,
        c2: Seq<BlockChain>,
        hs2: Seq<RichBlockHeader>,
        main2: BlockChain,
        displaced: Option<BlockChain>,
        to_new: spec_fn(int) -> int,
        from_old: spec_fn(int) -> int,
    )
        requires
            Self::index_ok(c1, hs1),
            Self::ids_distinct(c1),
            c1.len() >= 2,
            forall|i: int| 0 <= i < c1.len() ==> (#[trigger] c1[i]).wf(),
            c1[0].chain_id == MAIN_CHAIN_ID,
            c1[0].start_height < c1[1].start_height <= c1[0].max_height + 1,
            main2.chain_id == MAIN_CHAIN_ID,
            main2.start_height == c1[0].start_height,
            main2.max_height == c1[1].max_height,
            main2.hashes@ == c1[0].hashes@.subrange(0, c1[1].start_height - c1[0].start_height)
                + c1[1].hashes@,
            displaced is Some <==> c1[1].start_height <= c1[0].max_height,
            displaced matches Some(d) ==> {
                &&& forall|i: int| 0 <= i < c1.len() ==> (#[trigger] c1[i]).chain_id != d.chain_id
                &&& d.start_height == c1[1].start_height
                &&& d.max_height == c1[0].max_height
                &&& d.hashes@ == c1[0].hashes@.subrange(
                    c1[1].start_height - c1[0].start_height,
                    c1[0].hashes@.len() as int,
                )
            },
            hs2.len() == hs1.len(),
            forall|j: int|
                0 <= j < hs1.len() ==> #[trigger] hs2[j] == Self::swapped_header(
                    hs1[j],
                    c1[1].start_height,
                    c1[1].chain_id,
                    match displaced {
                        Some(d) => Some(d.chain_id),
                        None => None,
                    },
                ),
            c2.len() >= 1,
            c2[0] == main2,
            forall|i: int|
                2 <= i < c1.len() ==> 1 <= #[trigger] to_new(i) < c2.len() && Self::same_key(
                    c1[i],
                    c2[to_new(i)],
                ),
            forall|i: int|
                1 <= i < c2.len() ==> (2 <= #[trigger] from_old(i) < c1.len() && Self::same_key(
                    c1[from_old(i)],
                    c2[i],
                )) || (from_old(i) == -2 && displaced is Some && Self::same_key(
                    displaced->0,
                    c2[i],
                )),
            displaced is Some ==> 1 <= to_new(-2) < c2.len() && Self::same_key(
                displaced->0,
                c2[to_new(-2)],
            ),
        ensures
            Self::index_ok(c2, hs2),
    {
        let m = c1[0];
        let f = c1[1];
        let s = f.start_height;
        let cut = s - m.start_height;
        assert(m.wf() && f.wf());
        assert(c1[0].chain_id != c1[1].chain_id);
        assert forall|j: int| 0 <= j < hs2.len() implies Self::placed(c2, #[trigger] hs2[j]) by {
            let h = hs1[j];
            assert(Self::placed(c1, h));
            let i1 = choose|i: int|
                0 <= i < c1.len() && (#[trigger] c1[i]).chain_id == h.chain_ref
                    && c1[i].start_height <= h.block_height <= c1[i].max_height && c1[i].hash_at(
                    h.block_height as int,
                )@ == h.block_hash@;
            let t = h.block_height as int;
            if i1 == 0 {
                if t >= s {
                    let d = displaced->0;
                    let pd = to_new(-2);
                    assert(hs2[j].chain_ref == d.chain_id);
                    assert(d.hashes@[t - s] == m.hashes@[t - m.start_height]);
                    assert(c2[pd].hash_at(t) == d.hash_at(t));
                } else {
                    assert(hs2[j] == h);
                    assert(main2.hashes@[t - m.start_height] == m.hashes@[t - m.start_height]);
                    assert(c2[0].hash_at(t) == m.hash_at(t));
                }
            } else if i1 == 1 {
                assert(h.chain_ref != MAIN_CHAIN_ID);
                assert(hs2[j].chain_ref == MAIN_CHAIN_ID);
                assert(main2.hashes@[t - m.start_height] == f.hashes@[t - s]);
                assert(c2[0].hash_at(t) == f.hash_at(t));
            } else {
                assert(c1[i1].chain_id != c1[0].chain_id);
                assert(c1[i1].chain_id != c1[1].chain_id);
                assert(hs2[j] == h);
                let i2 = to_new(i1);
                assert(Self::same_key(c1[i1], c2[i2]));
            }
        }
        assert forall|i: int, k: int|
            0 <= i < c2.len() && 0 <= k < c2[i].hashes@.len() implies #[trigger] Self::backed(
                hs2,
                c2[i],
                k,
            ) by {
            if i == 0 {
                if k < cut {
                    assert(c2[0].hashes@[k] == m.hashes@[k]);
                    assert(Self::backed(hs1, c1[0], k));
                    let j = choose|j: int|
                        0 <= j < hs1.len() && (#[trigger] hs1[j]).block_hash@ == c1[0].hashes@[k]@
                            && hs1[j].chain_ref == c1[0].chain_id && hs1[j].block_height
                            == c1[0].start_height + k;
                    assert(hs2[j].chain_ref == MAIN_CHAIN_ID);
                } else {
                    assert(c2[0].hashes@[k] == f.hashes@[k - cut]);
                    assert(Self::backed(hs1, c1[1], k - cut));
                    let j = choose|j: int|
                        0 <= j < hs1.len() && (#[trigger] hs1[j]).block_hash@ == c1[1].hashes@[k
                            - cut]@ && hs1[j].chain_ref == c1[1].chain_id && hs1[j].block_height
                            == c1[1].start_height + (k - cut);
                    assert(hs2[j].chain_ref == MAIN_CHAIN_ID);
                }
            } else {
                let i1 = from_old(i);
                if 2 <= i1 < c1.len() && Self::same_key(c1[i1], c2[i]) {
                    assert(Self::backed(hs1, c1[i1], k));
                    let j = choose|j: int|
                        0 <= j < hs1.len() && (#[trigger] hs1[j]).block_hash@ == c1[i1].hashes@[k]@
                            && hs1[j].chain_ref == c1[i1].chain_id && hs1[j].block_height
                            == c1[i1].start_height + k;
                    assert(c1[i1].chain_id != c1[0].chain_id);
                    assert(c1[i1].chain_id != c1[1].chain_id);
                    assert(hs2[j] == hs1[j]);
                } else {
                    let d = displaced->0;
                    assert(Self::same_key(d, c2[i]));
                    assert(c2[i].hashes@[k] == m.hashes@[cut + k]);
                    assert(Self::backed(hs1, c1[0], cut + k));
                    let j = choose|j: int|
                        0 <= j < hs1.len() && (#[trigger] hs1[j]).block_hash@ == c1[0].hashes@[cut
                            + k]@ && hs1[j].chain_ref == c1[0].chain_id && hs1[j].block_height
                            == c1[0].start_height + cut + k;
                    assert(hs2[j].chain_ref == d.chain_id);
                }
            }
        }
    }

    /// Puts a new fork into the queue after every chain at least as high, and
    /// before the others; the main chain keeps the first place.
    pub(crate) fn insert_sorted(&mut self, chain: BlockChain) -> (pos: usize)
        requires
            old(self).chains_ok_but(0),
            chain.wf(),
            chain.chain_id <= old(self).chain_counter,
            chain.start_height > old(self).start_block_height,
            forall|i: int|
                0 <= i < old(self).chains@.len() ==> (#[trigger] old(self).chains@[i]).chain_id
                    != chain.chain_id,
        ensures
            final(self).chains_ok_but(0),
            1 <= pos <= old(self).chains@.len(),
            forall|k: int| 1 <= k < pos ==> (#[trigger] old(self).chains@[k]).max_height >= chain.max_height,
            forall|k: int| pos <= k < old(self).chains@.len() ==> (#[trigger] old(self).chains@[k]).max_height
                < chain.max_height,
            final(self).chains@ == old(self).chains@.insert(pos as int, chain),
            final(self).block_headers == old(self).block_headers,
            final(self).best_block == old(self).best_block,
            final(self).best_block_height == old(self).best_block_height,
            final(self).start_block_height == old(self).start_block_height,
            final(self).chain_counter == old(self).chain_counter,
            final(self).initialized == old(self).initialized,
            final(self).config == old(self).config,
            final(self).security == old(self).security,
            final(self).events == old(self).events,
    {
        let mut pos: usize = 1;
        while pos < self.chains.len() && self.chains[pos].max_height >= chain.max_height
            invariant
                1 <= pos <= self.chains@.len(),
                self.chains@ == old(self).chains@,
                forall|k: int| 1 <= k < pos ==> (#[trigger] self.chains@[k]).max_height
                    >= chain.max_height,
            decreases self.chains@.len() - pos,
        {
            pos = pos + 1;
        }
        let ghost before = self.chains@;
        self.chains.insert(pos, chain);
        proof {
            let after = self.chains@;
            assert forall|i: int| 0 <= i < after.len() implies (#[trigger] after[i]).wf() by {
                if i < pos {
                    assert(after[i] == before[i]);
                } else if i > pos {
                    assert(after[i] == before[i - 1]);
                }
            }
            assert forall|i: int|
                0 <= i < after.len() implies (#[trigger] after[i]).chain_id
                    <= self.chain_counter by {
                if i < pos {
                    assert(after[i] == before[i]);
                } else if i > pos {
                    assert(after[i] == before[i - 1]);
                }
            }
            assert forall|i: int|
                1 <= i < after.len() implies (#[trigger] after[i]).start_height
                    > self.start_block_height by {
                if i < pos {
                    assert(after[i] == before[i]);
                } else if i > pos {
                    assert(after[i] == before[i - 1]);
                }
            }
            assert forall|i: int, j: int|
                0 <= i < after.len() && 0 <= j < after.len() && i != j implies (
                #[trigger] after[i]).chain_id != (#[trigger] after[j]).chain_id by {
                let bi = if i < pos { i } else { i - 1 };
                let bj = if j < pos { j } else { j - 1 };
                if i != pos as int && j != pos as int {
                    assert(after[i] == before[bi]);
                    assert(after[j] == before[bj]);
                } else if i == pos as int {
                    assert(after[j] == before[bj]);
                } else {
                    assert(after[i] == before[bi]);
                }
            }
            assert forall|i: int, j: int|
                1 <= i < j < after.len() && j != 0 implies (#[trigger] after[i]).max_height
                    >= (#[trigger] after[j]).max_height by {
                if j < pos {
                    assert(after[i] == before[i]);
                    assert(after[j] == before[j]);
                } else if j == pos {
                    assert(after[i] == before[i]);
                } else if i == pos {
                    assert(after[j] == before[j - 1]);
                    assert(before[pos as int].max_height <= chain.max_height || pos
                        == before.len());
                    if j - 1 > pos {
                        assert(before[pos as int].max_height >= before[j - 1].max_height);
                    }
                } else if i < pos {
                    assert(after[i] == before[i]);
                    assert(after[j] == before[j - 1]);
                } else {
                    assert(after[i] == before[i - 1]);
                    assert(after[j] == before[j - 1]);
                }
            }
        }
        pos
    }

    /// A stored header after a main chain swap: blocks of the main chain from height
    /// `at` on move to the displaced chain `displaced`, where one was made, and blocks of
    /// the fork `fork_id` move to the main chain.
    pub open spec fn swapped_header(
        h: RichBlockHeader,
        at: u32,
        fork_id: u32,
        displaced: Option<u32>,
    ) -> RichBlockHeader {
        if h.chain_ref == MAIN_CHAIN_ID && h.block_height >= at && displaced is Some {
            RichBlockHeader { chain_ref: displaced->0, ..h }
        } else if h.chain_ref == fork_id {
            RichBlockHeader { chain_ref: MAIN_CHAIN_ID, ..h }
        } else {
            h
        }
    }

    /// A stored header after the blocks of chain `from_id` below height `below` move to
    /// chain `to_id`.
    pub open spec fn moved_header(h: RichBlockHeader, from_id: u32, below: u32, to_id: u32) -> RichBlockHeader {
        if h.chain_ref == from_id && h.block_height < below {
            RichBlockHeader { chain_ref: to_id, ..h }
        } else {
            h
        }
    }

    /// The index stays in agreement when the fork at position 1 takes over the blocks
    /// below its start of the chain at `gi` (its parent's chain), which keeps the blocks
    /// from the fork's start on, if any.
    pub proof fn lemma_index_absorb(
        c1: Seq<BlockChain>,
        hs1: Seq<RichBlockHeader>,
        c2: Seq<BlockChain>,
        hs2: Seq<RichBlockHeader>,
        gi: int,
        f2: BlockChain,
        g2: Option<BlockChain>,
        to_new: spec_fn(int) -> int,
        from_old: spec_fn(int) -> int,
    )
        requires
            Self::index_ok(c1, hs1),
            Self::ids_distinct(c1),
            forall|i: int| 0 <= i < c1.len() ==> (#[trigger] c1[i]).wf(),
            2 <= gi < c1.len(),
            c1[gi].start_height < c1[1].start_height <= c1[gi].max_height + 1,
            f2.chain_id == c1[1].chain_id,
            f2.start_height == c1[gi].start_height,
            f2.max_height == c1[1].max_height,
            f2.hashes@ == c1[gi].hashes@.subrange(0, c1[1].start_height - c1[gi].start_height)
                + c1[1].hashes@,
            g2 is Some <==> c1[1].start_height <= c1[gi].max_height,
            g2 matches Some(d) ==> {
                &&& d.chain_id == c1[gi].chain_id
                &&& d.start_height == c1[1].start_height
                &&& d.max_height == c1[gi].max_height
                &&& d.hashes@ == c1[gi].hashes@.subrange(
                    c1[1].start_height - c1[gi].start_height,
                    c1[gi].hashes@.len() as int,
                )
            },
            hs2.len() == hs1.len(),
            forall|j: int|
                0 <= j < hs1.len() ==> #[trigger] hs2[j] == Self::moved_header(
                    hs1[j],
                    c1[gi].chain_id,
                    c1[1].start_height,
                    c1[1].chain_id,
                ),
            c2.len() >= 2,
            Self::same_key(f2, c2[1]),
            forall|i: int|
                0 <= i < c1.len() && i != 1 && i != gi ==> 0 <= #[trigger] to_new(i) < c2.len()
                    && to_new(i) != 1 && Self::same_key(c1[i], c2[to_new(i)]),
            forall|i: int|
                0 <= i < c2.len() ==> i == 1 || (0 <= #[trigger] from_old(i) < c1.len() && from_old(i)
                    != 1 && from_old(i) != gi && Self::same_key(c1[from_old(i)], c2[i])) || (from_old(i)
                    == gi && g2 is Some && Self::same_key(g2->0, c2[i])),
            g2 is Some ==> 0 <= to_new(gi) < c2.len() && Self::same_key(g2->0, c2[to_new(gi)]),
        ensures
            Self::index_ok(c2, hs2),
    {
        let f = c1[1];
        let g = c1[gi];
        let s = f.start_height;
        let cut = s - g.start_height;
        assert(f.wf() && g.wf());
        assert(f.chain_id != g.chain_id);
        assert forall|j: int| 0 <= j < hs2.len() implies Self::placed(c2, #[trigger] hs2[j]) by {
            let h = hs1[j];
            assert(Self::placed(c1, h));
            let i1 = choose|i: int|
                0 <= i < c1.len() && (#[trigger] c1[i]).chain_id == h.chain_ref
                    && c1[i].start_height <= h.block_height <= c1[i].max_height && c1[i].hash_at(
                    h.block_height as int,
                )@ == h.block_hash@;
            let t = h.block_height as int;
            if i1 == gi {
                if t < s {
                    assert(hs2[j].chain_ref == f.chain_id);
                    assert(f2.hashes@[t - g.start_height] == g.hashes@[t - g.start_height]);
                    assert(c2[1].hash_at(t) == g.hash_at(t));
                } else {
                    let d = g2->0;
                    assert(hs2[j] == h);
                    assert(d.hashes@[t - s] == g.hashes@[t - g.start_height]);
                    assert(c2[to_new(gi)].hash_at(t) == d.hash_at(t));
                }
            } else if i1 == 1 {
                assert(hs2[j] == h);
                assert(f2.hashes@[t - g.start_height] == f.hashes@[t - s]);
                assert(c2[1].hash_at(t) == f.hash_at(t));
            } else {
                assert(c1[i1].chain_id != g.chain_id);
                assert(hs2[j] == h);
                assert(Self::same_key(c1[i1], c2[to_new(i1)]));
            }
        }
        assert forall|i: int, k: int|
            0 <= i < c2.len() && 0 <= k < c2[i].hashes@.len() implies #[trigger] Self::backed(
                hs2,
                c2[i],
                k,
            ) by {
            if i == 1 {
                if k < cut {
                    assert(c2[1].hashes@[k] == g.hashes@[k]);
                    assert(Self::backed(hs1, g, k));
                    let j = choose|j: int|
                        0 <= j < hs1.len() && (#[trigger] hs1[j]).block_hash@ == g.hashes@[k]@
                            && hs1[j].chain_ref == g.chain_id && hs1[j].block_height
                            == g.start_height + k;
                    assert(hs2[j].chain_ref == f.chain_id);
                } else {
                    assert(c2[1].hashes@[k] == f.hashes@[k - cut]);
                    assert(Self::backed(hs1, f, k - cut));
                    let j = choose|j: int|
                        0 <= j < hs1.len() && (#[trigger] hs1[j]).block_hash@ == f.hashes@[k - cut]@
                            && hs1[j].chain_ref == f.chain_id && hs1[j].block_height
                            == f.start_height + (k - cut);
                    assert(hs2[j] == hs1[j]);
                }
            } else {
                let i1 = from_old(i);
                if 0 <= i1 < c1.len() && i1 != 1 && i1 != gi && Self::same_key(c1[i1], c2[i]) {
                    assert(Self::backed(hs1, c1[i1], k));
                    let j = choose|j: int|
                        0 <= j < hs1.len() && (#[trigger] hs1[j]).block_hash@ == c1[i1].hashes@[k]@
                            && hs1[j].chain_ref == c1[i1].chain_id && hs1[j].block_height
                            == c1[i1].start_height + k;
                    assert(c1[i1].chain_id != g.chain_id);
                    assert(hs2[j] == hs1[j]);
                } else {
                    let d = g2->0;
                    assert(c2[i].hashes@[k] == g.hashes@[cut + k]);
                    assert(Self::backed(hs1, g, cut + k));
                    let j = choose|j: int|
                        0 <= j < hs1.len() && (#[trigger] hs1[j]).block_hash@ == g.hashes@[cut + k]@
                            && hs1[j].chain_ref == g.chain_id && hs1[j].block_height
                            == g.start_height + cut + k;
                    assert(hs2[j] == hs1[j]);
                }
            }
        }
    }

    /// Clears the relay failures of the security collaborator where one is outstanding.
    pub(crate) fn recover_if_needed(&mut self)
        ensures
            final(self).security.active_block_number == old(self).security.active_block_number,
            final(self).security.shutdown == old(self).security.shutdown,
            !final(self).security.error_invalid_btc_relay,
            !final(self).security.error_no_data_btc_relay,
            final(self).block_headers == old(self).block_headers,
            final(self).chains == old(self).chains,
            final(self).best_block == old(self).best_block,
            final(self).best_block_height == old(self).best_block_height,
            final(self).start_block_height == old(self).start_block_height,
            final(self).chain_counter == old(self).chain_counter,
            final(self).initialized == old(self).initialized,
            final(self).config == old(self).config,
            final(self).events == old(self).events,
    {
        if self.security.is_parachain_error_set(ErrorCode::InvalidBTCRelay)
            || self.security.is_parachain_error_set(ErrorCode::NoDataBTCRelay) {
            self.security.clear_relay_failure();
        }
    }

    /// The queue's heights after the chain at `ci` grows by one block.
    pub open spec fn grown_at(chains: Seq<BlockChain>, ci: int) -> Seq<BlockChain> {
        chains.update(ci, BlockChain { max_height: (chains[ci].max_height + 1) as u32, ..chains[ci] })
    }

    /// Position of the chain that holds the parent of the first block of the fork at
    /// position 1, where the fork starts more than one block above the main tip.
    fn parent_chain_of_fork(&self) -> (gi: usize)
        requires
            self.chains_ok_but(0),
            self.chains@.len() >= 2,
            self.chains@[1].start_height > self.chains@[0].max_height + 1,
            Self::hashes_distinct(self.block_headers@),
            Self::index_ok(self.chains@, self.block_headers@),
            Self::parents_ok(self.block_headers@, self.start_block_height),
        ensures
            2 <= gi < self.chains@.len(),
            self.chains@[gi as int].start_height < self.chains@[1].start_height
                <= self.chains@[gi as int].max_height + 1,
    {
        let ghost c1 = self.chains@;
        let ghost hs1 = self.block_headers@;
        let first = self.chains[1].hashes[0];
        proof {
            assert(c1[1].wf());
            assert(Self::backed(hs1, c1[1], 0));
        }
        let j = match self.find_header(&first) {
            Some(j) => j,
            None => {
                proof {
                    let w = choose|w: int|
                        0 <= w < hs1.len() && (#[trigger] hs1[w]).block_hash@ == c1[1].hashes@[0]@
                            && hs1[w].chain_ref == c1[1].chain_id && hs1[w].block_height
                            == c1[1].start_height + 0;
                    assert(self.stored(first@));
                }
                return 2;
            },
        };
        proof {
            self.lemma_found_header(j as int, first@);
            let w = choose|w: int|
                0 <= w < hs1.len() && (#[trigger] hs1[w]).block_hash@ == c1[1].hashes@[0]@
                    && hs1[w].chain_ref == c1[1].chain_id && hs1[w].block_height == c1[1].start_height
                    + 0;
            assert(w == j);
            assert(hs1[j as int].block_height > self.start_block_height);
        }
        let prev_hash = self.block_headers[j].block_header.hash_prev_block;
        let k = match self.find_header(&prev_hash) {
            Some(k) => k,
            None => {
                proof {
                    let w = choose|w: int|
                        0 <= w < hs1.len() && (#[trigger] hs1[w]).block_hash@
                            == hs1[j as int].block_header.hash_prev_block@ && hs1[w].block_height + 1
                            == hs1[j as int].block_height;
                    assert(self.stored(prev_hash@));
                }
                return 2;
            },
        };
        proof {
            self.lemma_found_header(k as int, prev_hash@);
            let w = choose|w: int|
                0 <= w < hs1.len() && (#[trigger] hs1[w]).block_hash@
                    == hs1[j as int].block_header.hash_prev_block@ && hs1[w].block_height + 1
                    == hs1[j as int].block_height;
            assert(w == k);
            assert(Self::placed(c1, hs1[k as int]));
        }
        let parent = self.block_headers[k];
        let gi = match self.find_chain(parent.chain_ref) {
            Some(gi) => gi,
            None => {
                return 2;
            },
        };
        proof {
            let i = choose|i: int|
                0 <= i < c1.len() && (#[trigger] c1[i]).chain_id == parent.chain_ref
                    && c1[i].start_height <= parent.block_height <= c1[i].max_height && c1[i].hash_at(
                    parent.block_height as int,
                )@ == parent.block_hash@;
            assert(i == gi);
            assert(gi != 0);
            assert(gi != 1);
            assert(c1[gi as int].wf());
        }
        gi
    }

    /// Where the fork at position 1 starts more than one block above the main tip, it
    /// takes over, from the chain its first block was built on, the blocks below its
    /// start; that chain keeps the blocks from the fork's start on. The fork then starts
    /// lower, on the same blocks it was built on.
    pub(crate) fn absorb_parent_chain(&mut self)
        requires
            old(self).chains_ok_but(0),
            old(self).chains@.len() >= 2,
            old(self).chains@[1].start_height > old(self).chains@[0].max_height + 1,
            Self::hashes_distinct(old(self).block_headers@),
            Self::index_ok(old(self).chains@, old(self).block_headers@),
            Self::parents_ok(old(self).block_headers@, old(self).start_block_height),
        ensures
            final(self).chains_ok_but(0),
            Self::hashes_distinct(final(self).block_headers@),
            Self::index_ok(final(self).chains@, final(self).block_headers@),
            Self::parents_ok(final(self).block_headers@, final(self).start_block_height),
            final(self).chains@.len() >= 2,
            final(self).chains@[0] == old(self).chains@[0],
            final(self).chains@[1].chain_id == old(self).chains@[1].chain_id,
            final(self).chains@[1].max_height == old(self).chains@[1].max_height,
            final(self).chains@[1].start_height < old(self).chains@[1].start_height,
            final(self).chains@[1].hashes@.subrange(
                old(self).chains@[1].start_height - final(self).chains@[1].start_height,
                final(self).chains@[1].hashes@.len() as int,
            ) == old(self).chains@[1].hashes@,
            final(self).block_headers@.len() == old(self).block_headers@.len(),
            forall|j: int|
                0 <= j < final(self).block_headers@.len() ==> #[trigger] final(self).block_headers@[j]
                    == (RichBlockHeader {
                    chain_ref: final(self).block_headers@[j].chain_ref,
                    ..old(self).block_headers@[j]
                }),
            final(self).best_block == old(self).best_block,
            final(self).best_block_height == old(self).best_block_height,
            final(self).start_block_height == old(self).start_block_height,
            final(self).chain_counter == old(self).chain_counter,
            final(self).initialized == old(self).initialized,
            final(self).config == old(self).config,
            final(self).security == old(self).security,
            final(self).events == old(self).events,
    {
        let ghost c1 = self.chains@;
        let ghost hs1 = self.block_headers@;
        let gi = self.parent_chain_of_fork();
        proof {
            assert(c1[gi as int].wf());
        }
        let g_id = self.chains[gi].chain_id;
        let g_start = self.chains[gi].start_height;
        let g_max = self.chains[gi].max_height;
        let mut g = self.chains.remove(gi);
        let mut f = self.chains.remove(1);
        let s = f.start_height;
        let f_id = f.chain_id;
        let (no_data_low, no_data_high) = flag_split(&g.no_data, s);
        let (invalid_low, invalid_high) = flag_split(&g.invalid, s);
        let cut = (s - g_start) as usize;
        let upper = g.hashes.split_off(cut);
        let mut hashes: Vec<H256Le> = Vec::new();
        hashes.append(&mut g.hashes);
        hashes.append(&mut f.hashes);
        let mut no_data = no_data_low;
        let ghost nd_low = no_data@;
        flag_union(&mut no_data, &f.no_data);
        let mut invalid = invalid_low;
        let ghost inv_low = invalid@;
        flag_union(&mut invalid, &f.invalid);
        proof {
            crate::chain::lemma_concat_contains(nd_low, f.no_data@);
            crate::chain::lemma_concat_contains(inv_low, f.invalid@);
            assert(f.no_data == c1[1].no_data);
            assert(f.invalid == c1[1].invalid);
        }
        let f2 = BlockChain {
            chain_id: f_id,
            start_height: g_start,
            max_height: f.max_height,
            no_data,
            invalid,
            hashes,
        };
        proof {
            let gg = c1[gi as int];
            let ff = c1[1];
            assert(ff.wf());
            assert forall|x: int| 0 <= x < f2.no_data@.len() implies f2.start_height
                <= #[trigger] f2.no_data@[x] <= f2.max_height by {
                let v = f2.no_data@[x];
                assert(f2.no_data@.contains(v));
                if gg.no_data@.contains(v) && v < s {
                    let i = choose|i: int| 0 <= i < gg.no_data@.len() && gg.no_data@[i] == v;
                } else {
                    let i = choose|i: int| 0 <= i < ff.no_data@.len() && ff.no_data@[i] == v;
                }
            }
            assert forall|x: int| 0 <= x < f2.invalid@.len() implies f2.start_height
                <= #[trigger] f2.invalid@[x] <= f2.max_height by {
                let v = f2.invalid@[x];
                assert(f2.invalid@.contains(v));
                if gg.invalid@.contains(v) && v < s {
                    let i = choose|i: int| 0 <= i < gg.invalid@.len() && gg.invalid@[i] == v;
                } else {
                    let i = choose|i: int| 0 <= i < ff.invalid@.len() && ff.invalid@[i] == v;
                }
            }
            assert(f2.wf());
        }
        let ghost c_mid = self.chains@;
        self.chains.insert(1, f2);
        let ghost mut g2: Option<BlockChain> = None;
        if s <= g_max {
            let g_new = BlockChain {
                chain_id: g_id,
                start_height: s,
                max_height: g_max,
                no_data: no_data_high,
                invalid: invalid_high,
                hashes: upper,
            };
            proof {
                let gg = c1[gi as int];
                assert forall|x: int| 0 <= x < g_new.no_data@.len() implies g_new.start_height
                    <= #[trigger] g_new.no_data@[x] <= g_new.max_height by {
                    let v = g_new.no_data@[x];
                    let i = choose|i: int| 0 <= i < gg.no_data@.len() && gg.no_data@[i] == v;
                }
                assert forall|x: int| 0 <= x < g_new.invalid@.len() implies g_new.start_height
                    <= #[trigger] g_new.invalid@[x] <= g_new.max_height by {
                    let v = g_new.invalid@[x];
                    let i = choose|i: int| 0 <= i < gg.invalid@.len() && gg.invalid@[i] == v;
                }
                assert(g_new.wf());
                g2 = Some(g_new);
            }
            self.chains.insert(gi, g_new);
        }
        move_headers(&mut self.block_headers, g_id, s, f_id);
        proof {
            let c2 = self.chains@;
            let hs2 = self.block_headers@;
            if g2 is Some {
                assert(c2 =~= c1.update(1, f2).update(gi as int, g2->0));
            } else {
                assert(c2 =~= c1.update(1, f2).remove(gi as int));
            }
            let to_new = |i: int| if g2 is Some || i < gi { i } else { i - 1 };
            let from_old = |i: int| if g2 is Some || i < gi { i } else { i + 1 };
            assert forall|i: int| 0 <= i < c2.len() implies (#[trigger] c2[i]).wf()
                && c2[i].chain_id <= self.chain_counter && (i >= 1 ==> c2[i].start_height
                > self.start_block_height) by {
                if i != 1 && !(g2 is Some && i == gi) {
                    assert(c2[i] == c1[from_old(i)]);
                }
            }
            assert forall|a: int, b: int|
                0 <= a < c2.len() && 0 <= b < c2.len() && a != b implies (#[trigger] c2[a]).chain_id
                    != (#[trigger] c2[b]).chain_id by {
                assert(c2[a].chain_id == c1[from_old(a)].chain_id);
                assert(c2[b].chain_id == c1[from_old(b)].chain_id);
            }
            assert forall|a: int, b: int|
                1 <= a < b < c2.len() && b != 0 implies (#[trigger] c2[a]).max_height >= (
                #[trigger] c2[b]).max_height by {
                assert(c2[a].max_height == c1[from_old(a)].max_height);
                assert(c2[b].max_height == c1[from_old(b)].max_height);
            }
            Self::lemma_index_absorb(c1, hs1, c2, hs2, gi as int, f2, g2, to_new, from_old);
            Self::lemma_parents_rechain(hs1, hs2, self.start_block_height);
            assert(f2.hashes@.subrange(s - g_start, f2.hashes@.len() as int) =~= c1[1].hashes@);
        }
    }

    /// Makes the fork at position 1 the main chain. The main chain's blocks from the
    /// fork's start height on move to a new chain, which is queued among the forks;
    /// the fork's blocks and flags join the main chain.
    pub(crate) fn swap_main_blockchain(&mut self)
        requires
            old(self).chains_ok_but(0),
            old(self).chains@.len() >= 2,
            old(self).chains@[1].max_height > old(self).chains@[0].max_height,
            old(self).chains@[1].start_height <= old(self).chains@[0].max_height + 1,
            old(self).chains@[1].start_height <= old(self).chains@[0].max_height ==> old(self).chain_counter < u32::MAX,
            Self::hashes_distinct(old(self).block_headers@),
            Self::index_ok(old(self).chains@, old(self).block_headers@),
        ensures
            final(self).chains_ok_but(0),
            final(self).best_ok(),
            Self::hashes_distinct(final(self).block_headers@),
            Self::index_ok(final(self).chains@, final(self).block_headers@),
            final(self).chains@[0].max_height == old(self).chains@[1].max_height,
            final(self).chains@[0].hashes@ == old(self).chains@[0].hashes@.subrange(
                0,
                old(self).chains@[1].start_height - old(self).chains@[0].start_height,
            ) + old(self).chains@[1].hashes@,
            final(self).best_block == old(self).chains@[1].tip(),
            final(self).best_block_height == old(self).chains@[1].max_height,
            final(self).block_headers@.len() == old(self).block_headers@.len(),
            forall|j: int|
                0 <= j < final(self).block_headers@.len() ==> #[trigger] final(self).block_headers@[j]
                    == (RichBlockHeader {
                    chain_ref: final(self).block_headers@[j].chain_ref,
                    ..old(self).block_headers@[j]
                }),
            final(self).start_block_height == old(self).start_block_height,
            final(self).initialized == old(self).initialized,
            final(self).config == old(self).config,
            final(self).events == old(self).events,
            final(self).security.active_block_number == old(self).security.active_block_number,
            final(self).security.shutdown == old(self).security.shutdown,
            ({
                let m = old(self).chains@[0];
                let f = old(self).chains@[1];
                let s = f.start_height;
                let d = old(self).chain_counter + 1;
                let rest = seq![final(self).chains@[0]] + old(self).chains@.subrange(2, old(self).chains@.len() as int);
                &&& final(self).chains@[0].chain_id == MAIN_CHAIN_ID
                &&& final(self).chains@[0].start_height == m.start_height
                &&& forall|x: u32| final(self).chains@[0].no_data@.contains(x) <==> (m.no_data@.contains(x)
                    && x < s) || f.no_data@.contains(x)
                &&& forall|x: u32| final(self).chains@[0].invalid@.contains(x) <==> (m.invalid@.contains(x)
                    && x < s) || f.invalid@.contains(x)
                &&& forall|j: int|
                    0 <= j < old(self).block_headers@.len() ==> #[trigger] final(self).block_headers@[j]
                        == Self::swapped_header(
                        old(self).block_headers@[j],
                        s,
                        f.chain_id,
                        if s <= m.max_height {
                            Some(d as u32)
                        } else {
                            None
                        },
                    )
                &&& s <= m.max_height ==> {
                    &&& final(self).chain_counter == d
                    &&& exists|pd: int|
                        1 <= pd < final(self).chains@.len() && final(self).chains@ == rest.insert(
                            pd,
                            final(self).chains@[pd],
                        ) && final(self).chains@[pd].chain_id == d && final(self).chains@[pd].start_height
                            == s && final(self).chains@[pd].max_height == m.max_height
                            && final(self).chains@[pd].hashes@ == m.hashes@.subrange(
                            s - m.start_height,
                            m.hashes@.len() as int,
                        ) && (forall|x: u32| final(self).chains@[pd].no_data@.contains(x) <==> m.no_data@.contains(x)
                            && x >= s) && (forall|x: u32| final(self).chains@[pd].invalid@.contains(x)
                            <==> m.invalid@.contains(x) && x >= s)
                }
                &&& s > m.max_height ==> final(self).chain_counter == old(self).chain_counter
                    && final(self).chains@ == rest
                &&& if final(self).chains@[0].no_data@.len() == 0 && final(self).chains@[0].invalid@.len() == 0 {
                    !final(self).security.error_invalid_btc_relay && !final(self).security.error_no_data_btc_relay
                } else {
                    final(self).security == old(self).security
                }
            }),
    {
        let ghost old_chains = self.chains@;
        let ghost old_headers = self.block_headers@;
        let mut fork = self.chains.remove(1);
        let mut main = self.chains.remove(0);
        let start_height = fork.start_height;
        let fork_id = fork.chain_id;
        let (no_data_kept, no_data_moved) = flag_split(&main.no_data, start_height);
        let (invalid_kept, invalid_moved) = flag_split(&main.invalid, start_height);
        let cut = (start_height - main.start_height) as usize;
        let displaced_hashes = main.hashes.split_off(cut);
        let displaced_max = main.max_height;
        main.hashes.append(&mut fork.hashes);
        main.max_height = fork.max_height;
        let mut new_no_data = no_data_kept;
        let ghost kept_view = no_data_kept@;
        flag_union(&mut new_no_data, &fork.no_data);
        proof {
            crate::chain::lemma_concat_contains(kept_view, fork.no_data@);
        }
        let mut new_invalid = invalid_kept;
        let ghost kept_invalid = invalid_kept@;
        flag_union(&mut new_invalid, &fork.invalid);
        proof {
            crate::chain::lemma_concat_contains(kept_invalid, fork.invalid@);
        }
        main.no_data = new_no_data;
        main.invalid = new_invalid;
        proof {
            assert(fork.no_data == old_chains[1].no_data);
            assert(fork.invalid == old_chains[1].invalid);
            assert forall|x: u32| main.no_data@.contains(x) <==> (old_chains[0].no_data@.contains(x) && x
                < start_height) || old_chains[1].no_data@.contains(x) by {
                assert(no_data_kept@.contains(x) <==> (old_chains[0].no_data@.contains(x) && x < start_height));
                assert(main.no_data@.contains(x) <==> (no_data_kept@.contains(x) || fork.no_data@.contains(x)));
            }
            assert forall|x: u32| main.invalid@.contains(x) <==> (old_chains[0].invalid@.contains(x) && x
                < start_height) || old_chains[1].invalid@.contains(x) by {
                assert(invalid_kept@.contains(x) <==> (old_chains[0].invalid@.contains(x) && x < start_height));
                assert(main.invalid@.contains(x) <==> (invalid_kept@.contains(x) || fork.invalid@.contains(x)));
            }
        }
        let best = main.hashes[main.hashes.len() - 1];
        let main_clean = !main.is_invalid() && !main.is_no_data();
        proof {
            let m = main;
            assert(m.hashes@.len() == m.max_height - m.start_height + 1);
            assert forall|k: int| 0 <= k < m.no_data@.len() implies m.start_height
                <= #[trigger] m.no_data@[k] <= m.max_height by {
                let x = m.no_data@[k];
                assert(m.no_data@.contains(x));
                if no_data_kept@.contains(x) {
                    let i = choose|i: int| 0 <= i < old_chains[0].no_data@.len() && old_chains[0].no_data@[i] == x;
                    assert(old_chains[0].wf());
                    assert(old_chains[0].start_height <= old_chains[0].no_data@[i]);
                } else {
                    let i = choose|i: int| 0 <= i < fork.no_data@.len() && fork.no_data@[i] == x;
                    assert(old_chains[1].wf());
                    assert(fork.no_data@[i] <= fork.max_height);
                }
            }
            assert forall|k: int| 0 <= k < m.invalid@.len() implies m.start_height
                <= #[trigger] m.invalid@[k] <= m.max_height by {
                let x = m.invalid@[k];
                assert(m.invalid@.contains(x));
                if invalid_kept@.contains(x) {
                    let i = choose|i: int| 0 <= i < old_chains[0].invalid@.len() && old_chains[0].invalid@[i] == x;
                    assert(old_chains[0].wf());
                    assert(old_chains[0].start_height <= old_chains[0].invalid@[i]);
                } else {
                    let i = choose|i: int| 0 <= i < fork.invalid@.len() && fork.invalid@[i] == x;
                    assert(old_chains[1].wf());
                    assert(fork.invalid@[i] <= fork.max_height);
                }
            }
            assert(m.wf());
        }
        let ghost main2 = main;
        self.chains.insert(0, main);
        let ghost cmid = self.chains@;
        self.best_block = best;
        self.best_block_height = self.chains[0].max_height;
        proof {
            let c = self.chains@;
            assert(c == seq![c[0]] + old_chains.subrange(2, old_chains.len() as int));
            assert forall|i: int| 0 <= i < c.len() implies (#[trigger] c[i]).wf() by {
                if i > 0 {
                    assert(c[i] == old_chains[i + 1]);
                }
            }
            assert forall|i: int| 0 <= i < c.len() implies (#[trigger] c[i]).chain_id
                <= self.chain_counter by {
                if i > 0 {
                    assert(c[i] == old_chains[i + 1]);
                }
            }
            assert forall|i: int| 1 <= i < c.len() implies (#[trigger] c[i]).start_height
                > self.start_block_height by {
                assert(c[i] == old_chains[i + 1]);
            }
            assert forall|i: int, j: int|
                0 <= i < c.len() && 0 <= j < c.len() && i != j implies (#[trigger] c[i]).chain_id
                    != (#[trigger] c[j]).chain_id by {
                if i == 0 {
                    assert(c[j] == old_chains[j + 1]);
                } else if j == 0 {
                    assert(c[i] == old_chains[i + 1]);
                } else {
                    assert(c[i] == old_chains[i + 1]);
                    assert(c[j] == old_chains[j + 1]);
                }
            }
            assert forall|i: int, j: int|
                1 <= i < j < c.len() && j != 0 implies (#[trigger] c[i]).max_height >= (
                #[trigger] c[j]).max_height by {
                assert(c[i] == old_chains[i + 1]);
                assert(c[j] == old_chains[j + 1]);
            }
        }
        let ghost mut pd_g: int = 0;
        let ghost mut displaced_g: Option<BlockChain> = None;
        let displaced = if start_height <= displaced_max {
            let displaced_id = self.chain_counter + 1;
            self.chain_counter = displaced_id;
            let chain = BlockChain {
                chain_id: displaced_id,
                start_height,
                max_height: displaced_max,
                no_data: no_data_moved,
                invalid: invalid_moved,
                hashes: displaced_hashes,
            };
            proof {
                assert forall|k: int| 0 <= k < chain.no_data@.len() implies chain.start_height
                    <= #[trigger] chain.no_data@[k] <= chain.max_height by {
                    let x = chain.no_data@[k];
                    let i = choose|i: int| 0 <= i < old_chains[0].no_data@.len() && old_chains[0].no_data@[i] == x;
                    assert(old_chains[0].wf());
                    assert(old_chains[0].no_data@[i] <= old_chains[0].max_height);
                }
                assert forall|k: int| 0 <= k < chain.invalid@.len() implies chain.start_height
                    <= #[trigger] chain.invalid@[k] <= chain.max_height by {
                    let x = chain.invalid@[k];
                    let i = choose|i: int| 0 <= i < old_chains[0].invalid@.len() && old_chains[0].invalid@[i] == x;
                    assert(old_chains[0].wf());
                    assert(old_chains[0].invalid@[i] <= old_chains[0].max_height);
                }
                assert(chain.wf());
                assert forall|i: int| 0 <= i < self.chains@.len() implies (
                #[trigger] self.chains@[i]).chain_id != chain.chain_id by {}
            }
            let pd = self.insert_sorted(chain);
            proof {
                pd_g = pd as int;
                displaced_g = Some(chain);
            }
            Some(displaced_id)
        } else {
            None
        };
        remap_headers(&mut self.block_headers, start_height, fork_id, displaced);
        proof {
            let c2 = self.chains@;
            assert(old_chains[0].wf());
            assert(old_chains[1].wf());
            assert(main2.hashes@ == old_chains[0].hashes@.subrange(0, start_height - old_chains[0].start_height) + old_chains[1].hashes@);
            if displaced_g is Some {
                let to_new = |i: int| if i == -2 { pd_g } else if i - 1 < pd_g { i - 1 } else { i };
                let from_old = |i: int| if i == pd_g { -2 } else if i < pd_g { i + 1 } else { i };
                assert forall|i: int| 2 <= i < old_chains.len() implies 1 <= #[trigger] to_new(i) < c2.len()
                    && Self::same_key(old_chains[i], c2[to_new(i)]) by {
                    assert(cmid[i - 1] == old_chains[i]);
                }
                assert forall|i: int| 1 <= i < c2.len() implies (2 <= #[trigger] from_old(i) < old_chains.len()
                    && Self::same_key(old_chains[from_old(i)], c2[i])) || (from_old(i) == -2
                    && displaced_g is Some && Self::same_key(displaced_g->0, c2[i])) by {
                    if i < pd_g {
                        assert(cmid[i] == old_chains[i + 1]);
                    } else if i > pd_g {
                        assert(cmid[i - 1] == old_chains[i]);
                    }
                }
                Self::lemma_index_swap(old_chains, old_headers, c2, self.block_headers@, main2, displaced_g, to_new, from_old);
            } else {
                let to_new = |i: int| i - 1;
                let from_old = |i: int| i + 1;
                assert forall|i: int| 2 <= i < old_chains.len() implies 1 <= #[trigger] to_new(i) < c2.len()
                    && Self::same_key(old_chains[i], c2[to_new(i)]) by {
                    assert(c2[i - 1] == old_chains[i]);
                }
                assert forall|i: int| 1 <= i < c2.len() implies (2 <= #[trigger] from_old(i) < old_chains.len()
                    && Self::same_key(old_chains[from_old(i)], c2[i])) || (from_old(i) == -2
                    && displaced_g is Some && Self::same_key(displaced_g->0, c2[i])) by {
                    assert(c2[i] == old_chains[i + 1]);
                }
                Self::lemma_index_swap(old_chains, old_headers, c2, self.block_headers@, main2, displaced_g, to_new, from_old);
            }
        }
        if main_clean {
            self.recover_if_needed();
        }
        proof {
            let m = old_chains[0];
            let f = old_chains[1];
            assert(self.chains@[0] == main2);
            assert forall|x: u32| main2.no_data@.contains(x) <==> (m.no_data@.contains(x) && x
                < start_height) || f.no_data@.contains(x) by {
                assert(no_data_kept@.contains(x) <==> (m.no_data@.contains(x) && x < start_height));
            }
            assert forall|x: u32| main2.invalid@.contains(x) <==> (m.invalid@.contains(x) && x
                < start_height) || f.invalid@.contains(x) by {
                assert(invalid_kept@.contains(x) <==> (m.invalid@.contains(x) && x < start_height));
            }
            if start_height <= displaced_max {
                let d = displaced_g->0;
                assert(self.chains@[pd_g] == d);
                assert forall|x: u32| d.no_data@.contains(x) <==> m.no_data@.contains(x) && x >= start_height by {
                    assert(no_data_moved@.contains(x) <==> (m.no_data@.contains(x) && x >= start_height));
                }
                assert forall|x: u32| d.invalid@.contains(x) <==> m.invalid@.contains(x) && x >= start_height by {
                    assert(invalid_moved@.contains(x) <==> (m.invalid@.contains(x) && x >= start_height));
                }
                assert(cmid =~= seq![self.chains@[0]] + old_chains.subrange(2, old_chains.len() as int));
            } else {
                assert(self.chains@ =~= seq![self.chains@[0]] + old_chains.subrange(2, old_chains.len() as int));
            }
        }
    }

    /// Whether the chain at `pos` would climb to the place right after the main chain:
    /// every chain between them has a lower tip.
    pub open spec fn climbs_to_front(chains: Seq<BlockChain>, pos: int) -> bool {
        forall|i: int| 1 <= i < pos ==> (#[trigger] chains[i]).max_height < chains[pos].max_height
    }

    /// Whether the chain at `pos`, once it has climbed, replaces the main chain: its tip
    /// stands more than `margin` blocks above the main chain's.
    pub open spec fn reorg_fires(chains: Seq<BlockChain>, pos: int, margin: int) -> bool {
        &&& Self::climbs_to_front(chains, pos)
        &&& chains[pos].max_height > chains[0].max_height + margin
    }

    /// Whether growing the chain at `ci` by one block would make it replace the main chain.
    pub fn reorg_would_fire(&self, ci: usize) -> (r: bool)
        requires
            1 <= ci < self.chains@.len(),
            self.chains@[ci as int].max_height < u32::MAX,
        ensures
            r == Self::reorg_fires(
                Self::grown_at(self.chains@, ci as int),
                ci as int,
                self.config.bitcoin_confirmations as int,
            ),
    {
        let ghost g = Self::grown_at(self.chains@, ci as int);
        let new_max = self.chains[ci].max_height + 1;
        let mut i: usize = 1;
        while i < ci
            invariant
                1 <= i <= ci,
                ci < self.chains@.len(),
                g == Self::grown_at(self.chains@, ci as int),
                new_max == g[ci as int].max_height,
                forall|k: int| 1 <= k < i ==> (#[trigger] g[k]).max_height < new_max,
            decreases ci - i,
        {
            if self.chains[i].max_height >= new_max {
                proof {
                    assert(g[i as int] == self.chains@[i as int]);
                    assert(!Self::climbs_to_front(g, ci as int));
                }
                return false;
            }
            proof {
                assert(g[i as int] == self.chains@[i as int]);
            }
            i = i + 1;
        }
        proof {
            assert(Self::climbs_to_front(g, ci as int));
            assert(g[0] == self.chains@[0]);
        }
        new_max as u64 > self.chains[0].max_height as u64 + self.config.bitcoin_confirmations as u64
    }

    /// Moves the chain at `pos`, whose tip has just grown, up the queue past every
    /// lower chain. Where it reaches the main chain and stands more than the stable
    /// confirmations above it, it becomes the main chain; where it stands above the
    /// main chain by less, that is announced.
    #[verifier::rlimit(60)]
    pub(crate) fn check_and_do_reorg(&mut self, pos: usize)
        requires
            old(self).chains_ok_but(pos as int),
            1 <= pos < old(self).chains@.len(),
            old(self).best_ok(),
            Self::reorg_fires(old(self).chains@, pos as int, old(self).config.bitcoin_confirmations as int)
                ==> old(self).chain_counter < u32::MAX,
            Self::hashes_distinct(old(self).block_headers@),
            Self::index_ok(old(self).chains@, old(self).block_headers@),
            Self::parents_ok(old(self).block_headers@, old(self).start_block_height),
        ensures
            final(self).chains_ok_but(0),
            final(self).best_ok(),
            Self::hashes_distinct(final(self).block_headers@),
            Self::index_ok(final(self).chains@, final(self).block_headers@),
            Self::parents_ok(final(self).block_headers@, final(self).start_block_height),
            final(self).block_headers@.len() == old(self).block_headers@.len(),
            forall|j: int|
                0 <= j < final(self).block_headers@.len() ==> #[trigger] final(self).block_headers@[j]
                    == (RichBlockHeader {
                    chain_ref: final(self).block_headers@[j].chain_ref,
                    ..old(self).block_headers@[j]
                }),
            final(self).start_block_height == old(self).start_block_height,
            final(self).initialized == old(self).initialized,
            final(self).config == old(self).config,
            final(self).security.active_block_number == old(self).security.active_block_number,
            final(self).security.shutdown == old(self).security.shutdown,
            ({
                let fork = old(self).chains@[pos as int];
                let main = old(self).chains@[0];
                if Self::reorg_fires(old(self).chains@, pos as int, old(self).config.bitcoin_confirmations as int) {
                    &&& final(self).best_block == fork.tip()
                    &&& final(self).best_block_height == fork.max_height
                    &&& final(self).chains@[0].max_height == fork.max_height
                    &&& final(self).chains@[0].start_height == main.start_height
                    &&& final(self).chains@[0].hashes@.subrange(
                        fork.start_height - main.start_height,
                        final(self).chains@[0].hashes@.len() as int,
                    ) == fork.hashes@
                    &&& fork.start_height <= main.max_height + 1 ==> final(self).chains@[0].hashes@
                        == main.hashes@.subrange(0, fork.start_height - main.start_height) + fork.hashes@
                    &&& final(self).events@ == old(self).events@.push(
                        Event::ChainReorg(fork.tip(), fork.max_height, (fork.max_height - fork.start_height) as u32),
                    )
                } else {
                    &&& final(self).best_block == old(self).best_block
                    &&& final(self).best_block_height == old(self).best_block_height
                    &&& final(self).chains@[0] == main
                    &&& final(self).chain_counter == old(self).chain_counter
                    &&& exists|cur: int|
                        1 <= cur <= pos && final(self).chains@ == old(self).chains@.remove(pos as int).insert(
                            cur,
                            fork,
                        ) && (Self::climbs_to_front(old(self).chains@, pos as int) ==> cur == 1)
                            && (forall|i: int| cur <= i < pos ==> (#[trigger] old(self).chains@[i]).max_height
                            < fork.max_height) && (cur > 1 ==> old(self).chains@[cur - 1].max_height
                            >= fork.max_height)
                    &&& final(self).block_headers == old(self).block_headers
                    &&& final(self).security == old(self).security
                    &&& final(self).events@ == (if Self::climbs_to_front(old(self).chains@, pos as int)
                        && main.max_height < fork.max_height {
                        old(self).events@.push(
                            Event::ForkAheadOfMainChain(main.max_height, fork.max_height, fork.chain_id),
                        )
                    } else {
                        old(self).events@
                    })
                }
            }),
    {
        let ghost old_chains = self.chains@;
        let fork_max = self.chains[pos].max_height;
        let fork_start = self.chains[pos].start_height;
        let fork_id = self.chains[pos].chain_id;
        let fork_tip = self.chains[pos].hashes[self.chains[pos].hashes.len() - 1];
        let mut cur: usize = pos;
        while cur > 1 && self.chains[cur - 1].max_height < fork_max
            invariant
                1 <= cur <= pos,
                pos < self.chains@.len(),
                self.chains@ == old_chains,
                fork_max == old_chains[pos as int].max_height,
                forall|k: int| cur <= k < pos ==> (#[trigger] old_chains[k]).max_height < fork_max,
            decreases cur,
        {
            cur = cur - 1;
        }
        proof {
            if cur > 1 {
                assert(old_chains[cur - 1].max_height >= fork_max);
                assert(!Self::climbs_to_front(old_chains, pos as int));
            } else {
                assert(Self::climbs_to_front(old_chains, pos as int));
            }
        }
        proof {
            if cur == pos {
                assert(old_chains.remove(pos as int).insert(pos as int, old_chains[pos as int]) =~= old_chains);
            }
        }
        if cur < pos {
            let c = self.chains.remove(pos);
            self.chains.insert(cur, c);
            proof {
                let after = self.chains@;
                assert forall|i: int| 0 <= i < after.len() implies #[trigger] after[i] == (if i < cur {
                    old_chains[i]
                } else if i == cur {
                    old_chains[pos as int]
                } else if i <= pos {
                    old_chains[i - 1]
                } else {
                    old_chains[i]
                }) by {}
                assert forall|i: int| 0 <= i < after.len() implies (#[trigger] after[i]).wf()
                    && after[i].chain_id <= self.chain_counter && (i >= 1 ==> after[i].start_height
                    > self.start_block_height) by {
                    if i > pos {
                        assert(after[i] == old_chains[i]);
                    } else if i > cur {
                        assert(after[i] == old_chains[i - 1]);
                    }
                }
                assert forall|i: int, j: int|
                    0 <= i < after.len() && 0 <= j < after.len() && i != j implies (
                    #[trigger] after[i]).chain_id != (#[trigger] after[j]).chain_id by {
                    let oi = if i < cur { i } else if i == cur { pos as int } else if i <= pos { i - 1 } else { i };
                    let oj = if j < cur { j } else if j == cur { pos as int } else if j <= pos { j - 1 } else { j };
                    assert(after[i] == old_chains[oi]);
                    assert(after[j] == old_chains[oj]);
                }
                assert forall|i: int, j: int|
                    1 <= i < j < after.len() && j != 0 implies (#[trigger] after[i]).max_height
                        >= (#[trigger] after[j]).max_height by {
                    let oi = if i < cur { i } else if i == cur { pos as int } else if i <= pos { i - 1 } else { i };
                    let oj = if j < cur { j } else if j == cur { pos as int } else if j <= pos { j - 1 } else { j };
                    assert(after[i] == old_chains[oi]);
                    assert(after[j] == old_chains[oj]);
                    if j == cur {
                        assert(old_chains[cur - 1].max_height >= fork_max);
                        if i < cur - 1 {
                            assert(old_chains[i].max_height >= old_chains[cur - 1].max_height);
                        }
                    }
                }
                let to_new = |i: int| if i < cur { i } else if i == pos { cur as int } else if i < pos { i + 1 } else { i };
                let from_old = |i: int| if i < cur { i } else if i == cur { pos as int } else if i <= pos { i - 1 } else { i };
                assert forall|i: int| 0 <= i < old_chains.len() implies 0 <= #[trigger] to_new(i) < after.len()
                    && Self::same_key(old_chains[i], after[to_new(i)]) by {}
                assert forall|i: int| 0 <= i < after.len() implies (0 <= #[trigger] from_old(i) < old_chains.len()
                    && Self::same_key(old_chains[from_old(i)], after[i])) || (from_old(i) < 0 && forall|k: int|
                    0 <= k < after[i].hashes@.len() ==> #[trigger] Self::backed(self.block_headers@, after[i], k)) by {}
                Self::lemma_index_transfer(old_chains, after, self.block_headers@, self.block_headers@, to_new, from_old);
            }
        }
        if cur == 1 && self.chains[0].max_height < fork_max {
            let main_max = self.chains[0].max_height;
            if fork_max as u64 > main_max as u64 + self.config.bitcoin_confirmations as u64 {
                let ghost main0 = self.chains@[0];
                let ghost fork0 = self.chains@[1];
                let ghost h0 = self.block_headers@;
                let ghost counter0 = self.chain_counter;
                proof {
                    assert(fork0.hashes@.subrange(0, fork0.hashes@.len() as int) =~= fork0.hashes@);
                    assert(fork0.wf());
                }
                while self.chains[1].start_height as u64 > self.chains[0].max_height as u64 + 1
                    invariant
                        self.chains_ok_but(0),
                        self.chains@.len() >= 2,
                        self.best_ok(),
                        Self::hashes_distinct(self.block_headers@),
                        Self::index_ok(self.chains@, self.block_headers@),
                        Self::parents_ok(self.block_headers@, self.start_block_height),
                        self.chains@[0] == main0,
                        self.chains@[1].chain_id == fork0.chain_id,
                        self.chains@[1].max_height == fork0.max_height,
                        self.chains@[1].start_height <= fork0.start_height,
                        fork0.start_height <= main0.max_height + 1 ==> self.chains@[1] == fork0,
                        self.chains@[1].hashes@.subrange(
                            fork0.start_height - self.chains@[1].start_height,
                            self.chains@[1].hashes@.len() as int,
                        ) == fork0.hashes@,
                        fork0.max_height > main0.max_height,
                        fork0.start_height <= fork0.max_height,
                        self.block_headers@.len() == h0.len(),
                        forall|j: int|
                            0 <= j < h0.len() ==> #[trigger] self.block_headers@[j] == (RichBlockHeader {
                                chain_ref: self.block_headers@[j].chain_ref,
                                ..h0[j]
                            }),
                        self.chain_counter == counter0,
                        counter0 < u32::MAX,
                        self.start_block_height == old(self).start_block_height,
                        self.initialized == old(self).initialized,
                        self.config == old(self).config,
                        self.security == old(self).security,
                        self.events == old(self).events,
                    decreases self.chains@[1].start_height,
                {
                    let ghost before = self.chains@[1];
                    let ghost hb = self.block_headers@;
                    self.absorb_parent_chain();
                    proof {
                        let now = self.chains@[1];
                        let x = before.start_height - now.start_height;
                        let y = fork0.start_height - before.start_height;
                        assert(now.wf());
                        assert(before.hashes@.len() == before.max_height - before.start_height + 1);
                        assert(now.hashes@.subrange(x, now.hashes@.len() as int) == before.hashes@);
                        assert forall|i: int| 0 <= i < before.hashes@.len() - y implies #[trigger] now.hashes@[x + y + i]
                            == before.hashes@[y + i] by {
                            assert(now.hashes@.subrange(x, now.hashes@.len() as int)[y + i] == now.hashes@[x + y + i]);
                        }
                        let lhs = now.hashes@.subrange(fork0.start_height - now.start_height, now.hashes@.len() as int);
                        let rhs = before.hashes@.subrange(y, before.hashes@.len() as int);
                        assert(0 <= y <= before.hashes@.len());
                        assert(now.hashes@.len() == x + before.hashes@.len());
                        assert(lhs.len() == rhs.len());
                        assert forall|i: int| 0 <= i < lhs.len() implies #[trigger] lhs[i] == rhs[i] by {
                            assert(lhs[i] == now.hashes@[x + y + i]);
                        }
                        assert(lhs =~= rhs);
                        assert forall|j: int| 0 <= j < h0.len() implies #[trigger] self.block_headers@[j] == (RichBlockHeader {
                            chain_ref: self.block_headers@[j].chain_ref,
                            ..h0[j]
                        }) by {
                            assert(self.block_headers@[j] == (RichBlockHeader { chain_ref: self.block_headers@[j].chain_ref, ..hb[j] }));
                        }
                    }
                }
                let ghost fork1 = self.chains@[1];
                let ghost h1 = self.block_headers@;
                self.swap_main_blockchain();
                proof {
                    let m = self.chains@[0];
                    let cut = fork1.start_height - main0.start_height;
                    assert(m.hashes@ == main0.hashes@.subrange(0, cut) + fork1.hashes@);
                    assert(m.hashes@.subrange(fork0.start_height - main0.start_height, m.hashes@.len() as int)
                        =~= fork1.hashes@.subrange(fork0.start_height - fork1.start_height, fork1.hashes@.len() as int));
                    assert(fork1.wf());
                    assert(fork1.hashes@.last() == fork0.hashes@.last());
                    assert forall|j: int| 0 <= j < h0.len() implies #[trigger] self.block_headers@[j] == (RichBlockHeader {
                        chain_ref: self.block_headers@[j].chain_ref,
                        ..h0[j]
                    }) by {
                        assert(self.block_headers@[j] == (RichBlockHeader { chain_ref: self.block_headers@[j].chain_ref, ..h1[j] }));
                    }
                    if fork0.start_height <= main0.max_height + 1 {
                        assert(fork1 == fork0);
                    }
                }
                self.events.push(Event::ChainReorg(fork_tip, fork_max, fork_max - fork_start));
            } else {
                self.events.push(Event::ForkAheadOfMainChain(main_max, fork_max, fork_id));
            }
        }
        proof {
            Self::lemma_parents_rechain(old(self).block_headers@, self.block_headers@, self.start_block_height);
        }
    }
}

} // verus!
