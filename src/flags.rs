//! Flags on blocks whose transactions are not public or that break a rule only
//! watchers can observe, and how they hold back transaction verification.
use vstd::prelude::*;
use crate::chain::{flag_insert, flag_max, flag_remove};
use crate::error::Error;
use crate::security::ErrorCode;
use crate::chain::BlockChain;
use crate::types::H256Le;
use crate::relay::{Event, Pallet, MAIN_CHAIN_ID};

verus! {

impl Pallet {
    /// The flag set of a chain for an error kind.
    pub open spec fn flags_of(c: BlockChain, error: ErrorCode) -> Seq<u32> {
        if error == ErrorCode::NoDataBTCRelay {
            c.no_data@
        } else {
            c.invalid@
        }
    }

    /// `c2` is `c1` with `height` added to (or removed from) its flags of kind `error`,
    /// and nothing else changed.
    pub open spec fn flag_changed(c1: BlockChain, c2: BlockChain, error: ErrorCode, height: u32, add: bool) -> bool {
        &&& c2.chain_id == c1.chain_id
        &&& c2.start_height == c1.start_height
        &&& c2.max_height == c1.max_height
        &&& c2.hashes == c1.hashes
        &&& forall|x: u32|
            Self::flags_of(c2, error).contains(x) <==> (if add {
                Self::flags_of(c1, error).contains(x) || x == height
            } else {
                Self::flags_of(c1, error).contains(x) && x != height
            })
        &&& error == ErrorCode::NoDataBTCRelay ==> c2.invalid == c1.invalid
        &&& error != ErrorCode::NoDataBTCRelay ==> c2.no_data == c1.no_data
    }

    /// Flags the block with this hash as lacking data or as invalid. Announces the
    /// flag where the block did not have it yet.
    pub fn flag_block_error(&mut self, block_hash: H256Le, error: ErrorCode) -> (r: Result<(), Error>)
        requires
            old(self).wf(),
        ensures
            final(self).wf(),
            r is Err ==> *final(self) == *old(self),
            !old(self).stored(block_hash@) ==> r == Err::<(), Error>(Error::BlockNotFound),
            r is Ok ==> error == ErrorCode::NoDataBTCRelay || error == ErrorCode::InvalidBTCRelay,
            old(self).stored(block_hash@) && error != ErrorCode::NoDataBTCRelay && error
                != ErrorCode::InvalidBTCRelay ==> r == Err::<(), Error>(Error::UnknownErrorcode),
            old(self).stored(block_hash@) && (error == ErrorCode::NoDataBTCRelay || error
                == ErrorCode::InvalidBTCRelay) ==> r is Ok,
            r matches Err(e) ==> e == Error::BlockNotFound || e == Error::InvalidChainID || e
                == Error::UnknownErrorcode,
            r is Ok ==> {
                let h = old(self).header_with(block_hash@);
                exists|i: int|
                    0 <= i < final(self).chains@.len() && #[trigger] final(self).chains@[i].chain_id
                        == h.chain_ref && (if error == ErrorCode::NoDataBTCRelay {
                        final(self).chains@[i].no_data@.contains(h.block_height)
                    } else {
                        final(self).chains@[i].invalid@.contains(h.block_height)
                    })
            },
            r is Ok ==> final(self).block_headers == old(self).block_headers
                && final(self).best_block == old(self).best_block
                && final(self).security == old(self).security,
            r is Ok ==> ({
                let h = old(self).header_with(block_hash@);
                forall|i: int|
                    0 <= i < old(self).chains@.len() && (#[trigger] old(self).chains@[i]).chain_id
                        == h.chain_ref ==> final(self).chains@ == old(self).chains@.update(
                        i,
                        final(self).chains@[i],
                    ) && Self::flag_changed(
                        old(self).chains@[i],
                        final(self).chains@[i],
                        error,
                        h.block_height,
                        true,
                    ) && final(self).events@ == (if Self::flags_of(old(self).chains@[i], error).contains(
                        h.block_height,
                    ) {
                        old(self).events@
                    } else {
                        old(self).events@.push(Event::FlagBlockError(block_hash, h.chain_ref, error))
                    })
            }),
    {
        let j = match self.find_header(&block_hash) {
            Some(j) => j,
            None => {
                return Err(Error::BlockNotFound);
            },
        };
        proof {
            self.lemma_found_header(j as int, block_hash@);
        }
        let header = self.block_headers[j];
        proof {
            assert(Self::placed(self.chains@, self.block_headers@[j as int]));
        }
        let ci = match self.find_chain(header.chain_ref) {
            Some(ci) => ci,
            None => {
                return Err(Error::InvalidChainID);
            },
        };
        proof {
            let i = choose|i: int|
                0 <= i < self.chains@.len() && (#[trigger] self.chains@[i]).chain_id == header.chain_ref
                    && self.chains@[i].start_height <= header.block_height <= self.chains@[i].max_height
                    && self.chains@[i].hash_at(header.block_height as int)@ == header.block_hash@;
            assert(i == ci);
        }
        if header.block_height < self.chains[ci].start_height || header.block_height
            > self.chains[ci].max_height {
            return Err(Error::InvalidChainID);
        }
        if error != ErrorCode::NoDataBTCRelay && error != ErrorCode::InvalidBTCRelay {
            return Err(Error::UnknownErrorcode);
        }
        let ghost before = self.chains@;
        let mut c = self.chains.remove(ci);
        let newly = if error == ErrorCode::NoDataBTCRelay {
            flag_insert(&mut c.no_data, header.block_height)
        } else {
            flag_insert(&mut c.invalid, header.block_height)
        };
        proof {
            assert(before[ci as int].wf());
            assert forall|k: int| 0 <= k < c.no_data@.len() implies c.start_height
                <= #[trigger] c.no_data@[k] <= c.max_height by {
                assert(c.no_data@.contains(c.no_data@[k]));
                if c.no_data@[k] != header.block_height {
                    let i = choose|i: int| 0 <= i < before[ci as int].no_data@.len() && before[ci as int].no_data@[i] == c.no_data@[k];
                }
            }
            assert forall|k: int| 0 <= k < c.invalid@.len() implies c.start_height
                <= #[trigger] c.invalid@[k] <= c.max_height by {
                assert(c.invalid@.contains(c.invalid@[k]));
                if c.invalid@[k] != header.block_height {
                    let i = choose|i: int| 0 <= i < before[ci as int].invalid@.len() && before[ci as int].invalid@[i] == c.invalid@[k];
                }
            }
        }
        let chain_id = c.chain_id;
        self.chains.insert(ci, c);
        proof {
            let after = self.chains@;
            assert(after == before.update(ci as int, after[ci as int]));
            assert forall|i: int| 0 <= i < after.len() implies (#[trigger] after[i]).wf() by {
                if i != ci {
                    assert(after[i] == before[i]);
                }
            }
            assert(Self::ids_distinct(after));
            assert(Self::forks_sorted(after));
            assert(after[ci as int].chain_id == header.chain_ref);
            assert forall|i: int| 0 <= i < after.len() implies Self::same_key(before[i], after[i]) by {
                if i != ci {
                    assert(after[i] == before[i]);
                }
            }
            Self::lemma_index_transfer(before, after, self.block_headers@, self.block_headers@, |i: int| i, |i: int| i);
        }
        if newly {
            self.events.push(Event::FlagBlockError(block_hash, chain_id, error));
        }
        proof {
            let c = self.chains@[ci as int];
            assert(c.chain_id == header.chain_ref);
            if error == ErrorCode::NoDataBTCRelay {
                assert(c.no_data@.contains(header.block_height));
            } else {
                assert(c.invalid@.contains(header.block_height));
            }
        }
        Ok(())
    }

    /// Removes a flag from the block with this hash, and announces it where the block
    /// had it. Where the main chain is then free of flags, the security collaborator
    /// is asked to clear its relay failures.
    pub fn clear_block_error(&mut self, block_hash: H256Le, error: ErrorCode) -> (r: Result<(), Error>)
        requires
            old(self).wf(),
        ensures
            final(self).wf(),
            r is Err ==> *final(self) == *old(self),
            !old(self).stored(block_hash@) ==> r == Err::<(), Error>(Error::BlockNotFound),
            r is Ok ==> error == ErrorCode::NoDataBTCRelay || error == ErrorCode::InvalidBTCRelay,
            old(self).stored(block_hash@) && error != ErrorCode::NoDataBTCRelay && error
                != ErrorCode::InvalidBTCRelay ==> r == Err::<(), Error>(Error::UnknownErrorcode),
            old(self).stored(block_hash@) && (error == ErrorCode::NoDataBTCRelay || error
                == ErrorCode::InvalidBTCRelay) ==> r is Ok,
            r matches Err(e) ==> e == Error::BlockNotFound || e == Error::InvalidChainID || e
                == Error::UnknownErrorcode,
            r is Ok ==> {
                let h = old(self).header_with(block_hash@);
                exists|i: int|
                    0 <= i < final(self).chains@.len() && #[trigger] final(self).chains@[i].chain_id
                        == h.chain_ref && !(if error == ErrorCode::NoDataBTCRelay {
                        final(self).chains@[i].no_data@.contains(h.block_height)
                    } else {
                        final(self).chains@[i].invalid@.contains(h.block_height)
                    })
            },
            ({
                let h = old(self).header_with(block_hash@);
                r is Ok && h.chain_ref == MAIN_CHAIN_ID && (if error == ErrorCode::NoDataBTCRelay {
                    old(self).chains@[0].no_data@.contains(h.block_height)
                } else {
                    old(self).chains@[0].invalid@.contains(h.block_height)
                }) && final(self).chains@[0].no_data@.len() == 0
                    && final(self).chains@[0].invalid@.len() == 0
                    ==> !final(self).security.error_invalid_btc_relay
                    && !final(self).security.error_no_data_btc_relay
            }),
            r is Ok ==> final(self).block_headers == old(self).block_headers
                && final(self).best_block == old(self).best_block,
            r is Ok ==> ({
                let h = old(self).header_with(block_hash@);
                forall|i: int|
                    0 <= i < old(self).chains@.len() && (#[trigger] old(self).chains@[i]).chain_id
                        == h.chain_ref ==> ({
                        let had = Self::flags_of(old(self).chains@[i], error).contains(h.block_height);
                        &&& final(self).chains@ == old(self).chains@.update(i, final(self).chains@[i])
                        &&& Self::flag_changed(
                            old(self).chains@[i],
                            final(self).chains@[i],
                            error,
                            h.block_height,
                            false,
                        )
                        &&& final(self).events@ == (if had {
                            old(self).events@.push(Event::ClearBlockError(block_hash, h.chain_ref, error))
                        } else {
                            old(self).events@
                        })
                        &&& final(self).security.active_block_number == old(self).security.active_block_number
                        &&& final(self).security.shutdown == old(self).security.shutdown
                        &&& if had && h.chain_ref == MAIN_CHAIN_ID && final(self).chains@[0].no_data@.len() == 0
                            && final(self).chains@[0].invalid@.len() == 0 {
                            !final(self).security.error_invalid_btc_relay
                                && !final(self).security.error_no_data_btc_relay
                        } else {
                            final(self).security == old(self).security
                        }
                    })
            }),
    {
        let j = match self.find_header(&block_hash) {
            Some(j) => j,
            None => {
                return Err(Error::BlockNotFound);
            },
        };
        proof {
            self.lemma_found_header(j as int, block_hash@);
        }
        let header = self.block_headers[j];
        proof {
            assert(Self::placed(self.chains@, self.block_headers@[j as int]));
        }
        let ci = match self.find_chain(header.chain_ref) {
            Some(ci) => ci,
            None => {
                return Err(Error::InvalidChainID);
            },
        };
        proof {
            let i = choose|i: int|
                0 <= i < self.chains@.len() && (#[trigger] self.chains@[i]).chain_id == header.chain_ref
                    && self.chains@[i].start_height <= header.block_height <= self.chains@[i].max_height
                    && self.chains@[i].hash_at(header.block_height as int)@ == header.block_hash@;
            assert(i == ci);
        }
        if error != ErrorCode::NoDataBTCRelay && error != ErrorCode::InvalidBTCRelay {
            return Err(Error::UnknownErrorcode);
        }
        let ghost before = self.chains@;
        let mut c = self.chains.remove(ci);
        let existed = if error == ErrorCode::NoDataBTCRelay {
            flag_remove(&mut c.no_data, header.block_height)
        } else {
            flag_remove(&mut c.invalid, header.block_height)
        };
        proof {
            assert(before[ci as int].wf());
            assert forall|k: int| 0 <= k < c.no_data@.len() implies c.start_height
                <= #[trigger] c.no_data@[k] <= c.max_height by {
                let i = choose|i: int| 0 <= i < before[ci as int].no_data@.len() && before[ci as int].no_data@[i] == c.no_data@[k];
            }
            assert forall|k: int| 0 <= k < c.invalid@.len() implies c.start_height
                <= #[trigger] c.invalid@[k] <= c.max_height by {
                let i = choose|i: int| 0 <= i < before[ci as int].invalid@.len() && before[ci as int].invalid@[i] == c.invalid@[k];
            }
        }
        let chain_id = c.chain_id;
        let clean = !c.is_invalid() && !c.is_no_data();
        self.chains.insert(ci, c);
        proof {
            let after = self.chains@;
            assert(after == before.update(ci as int, after[ci as int]));
            assert forall|i: int| 0 <= i < after.len() implies (#[trigger] after[i]).wf() by {
                if i != ci {
                    assert(after[i] == before[i]);
                }
            }
            assert(Self::ids_distinct(after));
            assert(Self::forks_sorted(after));
            assert(after[ci as int].chain_id == header.chain_ref);
            assert forall|i: int| 0 <= i < after.len() implies Self::same_key(before[i], after[i]) by {
                if i != ci {
                    assert(after[i] == before[i]);
                }
            }
            Self::lemma_index_transfer(before, after, self.block_headers@, self.block_headers@, |i: int| i, |i: int| i);
        }
        proof {
            if header.chain_ref == MAIN_CHAIN_ID {
                assert(before[0].chain_id == MAIN_CHAIN_ID);
                assert(ci == 0);
            }
        }
        if existed {
            if ci == 0 && clean {
                self.recover_if_needed();
            }
            self.events.push(Event::ClearBlockError(block_hash, chain_id, error));
        }
        proof {
            let c = self.chains@[ci as int];
            assert(c.chain_id == header.chain_ref);
            if error == ErrorCode::NoDataBTCRelay {
                assert(!c.no_data@.contains(header.block_height));
            } else {
                assert(!c.invalid@.contains(header.block_height));
            }
        }
        Ok(())
    }

    /// Whether transactions in a main chain block at `block_height` may be verified:
    /// the system runs, no main chain block is flagged invalid, and the block lies
    /// below the highest main chain block flagged as lacking data, if any.
    pub fn transaction_verification_allowed(&self, block_height: u32) -> (r: Result<(), Error>)
        requires
            self.wf(),
            self.initialized,
        ensures
            ({
                let main = self.chains@[0];
                r == (if self.security.shutdown {
                    Err::<(), Error>(Error::Shutdown)
                } else if main.invalid@.len() > 0 {
                    Err(Error::Invalid)
                } else if exists|k: int| 0 <= k < main.no_data@.len() && block_height < #[trigger] main.no_data@[k] {
                    Ok(())
                } else if main.no_data@.len() > 0 {
                    Err(Error::NoData)
                } else {
                    Ok(())
                })
            }),
    {
        if self.security.is_shutdown() {
            return Err(Error::Shutdown);
        }
        if self.chains[0].is_invalid() {
            return Err(Error::Invalid);
        }
        match flag_max(&self.chains[0].no_data) {
            Some(m) => {
                if block_height < m {
                    let ghost k = choose|k: int| 0 <= k < self.chains@[0].no_data@.len() && self.chains@[0].no_data@[k] == m;
                    assert(block_height < self.chains@[0].no_data@[k]);
                    Ok(())
                } else {
                    Err(Error::NoData)
                }
            },
            None => Ok(()),
        }
    }

    /// Flags a block, as `flag_block_error` does.
    pub fn insert_block_error(&mut self, block_hash: H256Le, error: ErrorCode) -> (r: Result<(), Error>)
        requires
            old(self).wf(),
        ensures
            final(self).wf(),
            r is Err ==> *final(self) == *old(self),
            !old(self).stored(block_hash@) ==> r == Err::<(), Error>(Error::BlockNotFound),
            old(self).stored(block_hash@) && error != ErrorCode::NoDataBTCRelay && error
                != ErrorCode::InvalidBTCRelay ==> r == Err::<(), Error>(Error::UnknownErrorcode),
            old(self).stored(block_hash@) && (error == ErrorCode::NoDataBTCRelay || error
                == ErrorCode::InvalidBTCRelay) ==> r is Ok,
            r is Ok ==> error == ErrorCode::NoDataBTCRelay || error == ErrorCode::InvalidBTCRelay,
            r is Ok ==> {
                let h = old(self).header_with(block_hash@);
                exists|i: int|
                    0 <= i < final(self).chains@.len() && #[trigger] final(self).chains@[i].chain_id
                        == h.chain_ref && (if error == ErrorCode::NoDataBTCRelay {
                        final(self).chains@[i].no_data@.contains(h.block_height)
                    } else {
                        final(self).chains@[i].invalid@.contains(h.block_height)
                    })
            },
            r is Ok ==> ({
                let h = old(self).header_with(block_hash@);
                forall|i: int|
                    0 <= i < old(self).chains@.len() && (#[trigger] old(self).chains@[i]).chain_id
                        == h.chain_ref ==> final(self).chains@ == old(self).chains@.update(
                        i,
                        final(self).chains@[i],
                    ) && Self::flag_changed(
                        old(self).chains@[i],
                        final(self).chains@[i],
                        error,
                        h.block_height,
                        true,
                    ) && final(self).events@ == (if Self::flags_of(old(self).chains@[i], error).contains(
                        h.block_height,
                    ) {
                        old(self).events@
                    } else {
                        old(self).events@.push(Event::FlagBlockError(block_hash, h.chain_ref, error))
                    })
            }),
    {
        self.flag_block_error(block_hash, error)
    }

    /// Removes a flag from a block, as `clear_block_error` does.
    pub fn remove_block_error(&mut self, block_hash: H256Le, error: ErrorCode) -> (r: Result<(), Error>)
        requires
            old(self).wf(),
        ensures
            final(self).wf(),
            r is Err ==> *final(self) == *old(self),
            !old(self).stored(block_hash@) ==> r == Err::<(), Error>(Error::BlockNotFound),
            old(self).stored(block_hash@) && error != ErrorCode::NoDataBTCRelay && error
                != ErrorCode::InvalidBTCRelay ==> r == Err::<(), Error>(Error::UnknownErrorcode),
            old(self).stored(block_hash@) && (error == ErrorCode::NoDataBTCRelay || error
                == ErrorCode::InvalidBTCRelay) ==> r is Ok,
            r is Ok ==> error == ErrorCode::NoDataBTCRelay || error == ErrorCode::InvalidBTCRelay,
            r is Ok ==> {
                let h = old(self).header_with(block_hash@);
                exists|i: int|
                    0 <= i < final(self).chains@.len() && #[trigger] final(self).chains@[i].chain_id
                        == h.chain_ref && !(if error == ErrorCode::NoDataBTCRelay {
                        final(self).chains@[i].no_data@.contains(h.block_height)
                    } else {
                        final(self).chains@[i].invalid@.contains(h.block_height)
                    })
            },
            r is Ok ==> ({
                let h = old(self).header_with(block_hash@);
                forall|i: int|
                    0 <= i < old(self).chains@.len() && (#[trigger] old(self).chains@[i]).chain_id
                        == h.chain_ref ==> ({
                        let had = Self::flags_of(old(self).chains@[i], error).contains(h.block_height);
                        &&& final(self).chains@ == old(self).chains@.update(i, final(self).chains@[i])
                        &&& Self::flag_changed(
                            old(self).chains@[i],
                            final(self).chains@[i],
                            error,
                            h.block_height,
                            false,
                        )
                        &&& final(self).events@ == (if had {
                            old(self).events@.push(Event::ClearBlockError(block_hash, h.chain_ref, error))
                        } else {
                            old(self).events@
                        })
                        &&& final(self).security.active_block_number == old(self).security.active_block_number
                        &&& final(self).security.shutdown == old(self).security.shutdown
                        &&& if had && h.chain_ref == MAIN_CHAIN_ID && final(self).chains@[0].no_data@.len() == 0
                            && final(self).chains@[0].invalid@.len() == 0 {
                            !final(self).security.error_invalid_btc_relay
                                && !final(self).security.error_no_data_btc_relay
                        } else {
                            final(self).security == old(self).security
                        }
                    })
            }),
    {
        self.clear_block_error(block_hash, error)
    }
}

} // verus!
