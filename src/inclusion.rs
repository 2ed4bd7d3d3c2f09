//! Transaction checks: inclusion in a stable main chain block by a Merkle proof,
//! and the accepted payment format.
use vstd::prelude::*;
use crate::error::Error;
use crate::header::{u32_le, compact_target};
use crate::hashing::sha256d_of;
use crate::types::{H256Le, two_256};
use crate::merkle::{MerkleProof, proof_layout, proof_outcome};
use crate::parser::{parse_transaction, parse_transaction_with_id, tx_layout, tx_id_bytes};
use crate::payment::{check_payment, payment_check, ACCEPTED_MAX_TRANSACTION_OUTPUTS};
use crate::transaction::{Address, Transaction, input_address};
use crate::relay::{Pallet, MAIN_CHAIN_ID};

verus! {

/// A validation result in the terms of views.
pub open spec fn outcome_view(r: Result<(Address, i64), Error>) -> Result<((u8, Seq<u8>), i64), Error> {
    match r {
        Ok((a, v)) => Ok((a@, v)),
        Err(e) => Err(e),
    }
}

/// A byte string option in the terms of views.
pub open spec fn opt_view(o: Option<Vec<u8>>) -> Option<Seq<u8>> {
    match o {
        Some(d) => Some(d@),
        None => None,
    }
}

/// What validating a parsed transaction gives: the address the first input spends
/// from and the value paid, or the failure.
pub open spec fn validation(
    tx: Transaction,
    recipient: (u8, Seq<u8>),
    minimum: Option<i64>,
    op_return_id: Option<Seq<u8>>,
    op_return_disabled: bool,
) -> Result<((u8, Seq<u8>), i64), Error> {
    if tx.inputs@.len() == 0 || input_address(tx.inputs@[0].witness_view(), tx.inputs@[0].script@) is None {
        Err(Error::MalformedTransaction)
    } else if tx.outputs@.len() > ACCEPTED_MAX_TRANSACTION_OUTPUTS {
        Err(Error::MalformedTransaction)
    } else {
        match payment_check(tx.outputs@, recipient, minimum, op_return_id, op_return_disabled) {
            Ok(v) => Ok((input_address(tx.inputs@[0].witness_view(), tx.inputs@[0].script@)->0, v)),
            Err(e) => Err(e),
        }
    }
}

impl Pallet {
    /// Checks that a transaction at `tx_block_height` has enough confirmations when the
    /// main chain stands at `main_chain_height`: the requested number, or the stable
    /// confirmations where none is requested.
    pub fn check_bitcoin_confirmations(&self, main_chain_height: u32, req_confs: Option<u32>, tx_block_height: u32) -> (r: Result<(), Error>)
        ensures
            ({
                let req = match req_confs {
                    Some(c) => c as int,
                    None => self.config.bitcoin_confirmations as int,
                };
                &&& tx_block_height + req > u32::MAX ==> r == Err::<(), Error>(Error::ArithmeticOverflow)
                &&& tx_block_height + req == 0 ==> r == Err::<(), Error>(Error::ArithmeticUnderflow)
                &&& 0 < tx_block_height + req <= u32::MAX ==> r == (if main_chain_height
                    >= tx_block_height + req - 1 {
                    Ok::<(), Error>(())
                } else {
                    Err(Error::BitcoinConfirmations)
                })
            }),
    {
        let required_confirmations = match req_confs {
            Some(c) => c,
            None => self.config.bitcoin_confirmations,
        };
        let required_mainchain_height = match tx_block_height.checked_add(required_confirmations) {
            Some(v) => match v.checked_sub(1) {
                Some(w) => w,
                None => {
                    return Err(Error::ArithmeticUnderflow);
                },
            },
            None => {
                return Err(Error::ArithmeticOverflow);
            },
        };
        if main_chain_height >= required_mainchain_height {
            Ok(())
        } else {
            Err(Error::BitcoinConfirmations)
        }
    }

    /// Checks that a header stored when this system stood at `para_height` has waited
    /// the stable parachain confirmations.
    pub fn check_parachain_confirmations(&self, para_height: u32) -> (r: Result<(), Error>)
        ensures
            r == (if para_height + self.config.parachain_confirmations
                <= self.security.active_block_number {
                Ok::<(), Error>(())
            } else {
                Err(Error::ParachainConfirmations)
            }),
    {
        if para_height as u64 + self.config.parachain_confirmations as u64
            <= self.security.active_block_number as u64 {
            Ok(())
        } else {
            Err(Error::ParachainConfirmations)
        }
    }

    /// Fails while the best fork stands within the stable confirmations of the main chain tip.
    pub fn ensure_no_ongoing_fork(&self, best_block_height: u32) -> (r: Result<(), Error>)
        ensures
            r == (if self.chains@.len() > 1 && best_block_height < self.chains@[1].max_height
                + self.config.bitcoin_confirmations {
                Err::<(), Error>(Error::OngoingFork)
            } else {
                Ok(())
            }),
    {
        if self.chains.len() > 1 {
            let next_best_fork_height = self.chains[1].max_height;
            if (best_block_height as u64) < next_best_fork_height as u64
                + self.config.bitcoin_confirmations as u64 {
                return Err(Error::OngoingFork);
            }
        }
        Ok(())
    }

    /// Whether no fork stands within the stable confirmations of the main chain tip.
    pub open spec fn no_ongoing_fork(&self, best_block_height: int) -> bool {
        !(self.chains@.len() > 1 && best_block_height < self.chains@[1].max_height
            + self.config.bitcoin_confirmations)
    }

    /// Whether transactions of a main chain block at `block_height` may be verified.
    pub open spec fn verification_allowed(&self, block_height: int) -> bool {
        let main = self.chains@[0];
        &&& !self.security.shutdown
        &&& main.invalid@.len() == 0
        &&& (main.no_data@.len() == 0 || exists|k: int|
            0 <= k < main.no_data@.len() && block_height < #[trigger] main.no_data@[k])
    }

    /// Whether a block at `tx_block_height` has the confirmations asked for.
    pub open spec fn confirmations_ok(&self, main_chain_height: int, req_confs: Option<u32>, tx_block_height: int) -> bool {
        let req = match req_confs {
            Some(c) => c as int,
            None => self.config.bitcoin_confirmations as int,
        };
        0 < tx_block_height + req <= u32::MAX && main_chain_height >= tx_block_height + req - 1
    }

    /// Whether a transaction with id `tx_id` is proven included, by the raw proof, in a
    /// stable main chain block.
    pub open spec fn inclusion_ok(&self, tx_id: Seq<u8>, raw_proof: Seq<u8>, confirmations: Option<u32>) -> bool {
        let h = self.header_with(sha256d_of(raw_proof.subrange(0, 80)));
        &&& self.no_ongoing_fork(self.best_block_height as int)
        &&& proof_outcome(raw_proof) is Some
        &&& self.stored(sha256d_of(raw_proof.subrange(0, 80)))
        &&& h.chain_ref == MAIN_CHAIN_ID
        &&& self.verification_allowed(h.block_height as int)
        &&& self.confirmations_ok(self.best_block_height as int, confirmations, h.block_height as int)
        &&& h.para_height + self.config.parachain_confirmations <= self.security.active_block_number
        &&& (proof_outcome(raw_proof)->0).1 == tx_id
        &&& (proof_outcome(raw_proof)->0).0 == h.block_header.merkle_root@
    }

    /// The failures an inclusion check can report.
    pub open spec fn inclusion_error(e: Error) -> bool {
        ||| e == Error::OngoingFork
        ||| e == Error::EndOfFile
        ||| e == Error::MalformedMerkleProof
        ||| e == Error::MalformedHeader
        ||| e == Error::BlockNotFound
        ||| e == Error::InvalidChainID
        ||| e == Error::Shutdown
        ||| e == Error::Invalid
        ||| e == Error::NoData
        ||| e == Error::ArithmeticOverflow
        ||| e == Error::ArithmeticUnderflow
        ||| e == Error::BitcoinConfirmations
        ||| e == Error::ParachainConfirmations
        ||| e == Error::InvalidTxid
        ||| e == Error::InvalidMerkleProof
    }

    /// Whether everything before the depth checks passes: no fork close behind, a
    /// well-formed proof for a stored main chain block that may be verified.
    pub open spec fn inclusion_prefix_ok(&self, raw_proof: Seq<u8>) -> bool {
        let h = self.header_with(sha256d_of(raw_proof.subrange(0, 80)));
        &&& self.no_ongoing_fork(self.best_block_height as int)
        &&& proof_layout(raw_proof) is Some
        &&& compact_target(u32_le(raw_proof, 72)) < two_256()
        &&& self.stored(sha256d_of(raw_proof.subrange(0, 80)))
        &&& h.chain_ref == MAIN_CHAIN_ID
        &&& self.verification_allowed(h.block_height as int)
    }

    /// Checks that the transaction `tx_id` is included in a main chain block with
    /// enough confirmations, by a proof in the `gettxoutproof` format. Always succeeds
    /// where inclusion checks are disabled.
    pub fn _verify_transaction_inclusion(&self, tx_id: H256Le, raw_merkle_proof: &[u8], confirmations: Option<u32>) -> (r: Result<(), Error>)
        requires
            self.wf(),
        ensures
            self.config.disable_inclusion_check ==> r is Ok,
            !self.config.disable_inclusion_check ==> (r is Ok <==> self.inclusion_ok(
                tx_id@,
                raw_merkle_proof@,
                confirmations,
            )),
            !self.config.disable_inclusion_check && !self.no_ongoing_fork(self.best_block_height as int)
                ==> r == Err::<(), Error>(Error::OngoingFork),
            ({
                let h = self.header_with(sha256d_of(raw_merkle_proof@.subrange(0, 80)));
                let req = match confirmations {
                    Some(c) => c as int,
                    None => self.config.bitcoin_confirmations as int,
                };
                &&& !self.config.disable_inclusion_check && self.inclusion_prefix_ok(raw_merkle_proof@)
                    && 0 < h.block_height + req <= u32::MAX && self.best_block_height < h.block_height
                    + req - 1 ==> r == Err::<(), Error>(Error::BitcoinConfirmations)
                &&& !self.config.disable_inclusion_check && self.inclusion_prefix_ok(raw_merkle_proof@)
                    && self.confirmations_ok(self.best_block_height as int, confirmations, h.block_height as int)
                    && h.para_height + self.config.parachain_confirmations > self.security.active_block_number
                    ==> r == Err::<(), Error>(Error::ParachainConfirmations)
                &&& !self.config.disable_inclusion_check && self.chains@.len() <= 1 ==> r != Err::<
                    (),
                    Error,
                >(Error::OngoingFork)
                &&& !self.config.disable_inclusion_check && self.no_ongoing_fork(self.best_block_height as int)
                    && proof_layout(raw_merkle_proof@) is Some && compact_target(u32_le(raw_merkle_proof@, 72))
                    < two_256() && !self.stored(sha256d_of(raw_merkle_proof@.subrange(0, 80)))
                    ==> r == Err::<(), Error>(Error::BlockNotFound)
                &&& !self.config.disable_inclusion_check && self.no_ongoing_fork(self.best_block_height as int)
                    && proof_layout(raw_merkle_proof@) is Some && compact_target(u32_le(raw_merkle_proof@, 72))
                    < two_256() && self.stored(sha256d_of(raw_merkle_proof@.subrange(0, 80)))
                    && h.chain_ref != MAIN_CHAIN_ID ==> r == Err::<(), Error>(Error::InvalidChainID)
                &&& !self.config.disable_inclusion_check && self.inclusion_prefix_ok(raw_merkle_proof@)
                    && self.confirmations_ok(self.best_block_height as int, confirmations, h.block_height as int)
                    && h.para_height + self.config.parachain_confirmations <= self.security.active_block_number
                    ==> r == (match proof_outcome(raw_merkle_proof@) {
                    None => Err::<(), Error>(Error::MalformedMerkleProof),
                    Some(o) => if o.1 != tx_id@ {
                        Err(Error::InvalidTxid)
                    } else if o.0 != h.block_header.merkle_root@ {
                        Err(Error::InvalidMerkleProof)
                    } else {
                        Ok(())
                    },
                })
            }),
            r matches Err(e) ==> Self::inclusion_error(e),
    {
        if self.config.disable_inclusion_check {
            return Ok(());
        }
        let best_block_height = self.best_block_height;
        self.ensure_no_ongoing_fork(best_block_height)?;
        let merkle_proof = MerkleProof::parse(raw_merkle_proof)?;
        let block_hash = merkle_proof.raw_header.hash();
        proof {
            assert(merkle_proof.raw_header@ == raw_merkle_proof@.subrange(0, 80));
        }
        let j = match self.find_header(&block_hash) {
            Some(j) => j,
            None => {
                return Err(Error::BlockNotFound);
            },
        };
        proof {
            self.lemma_found_header(j as int, block_hash@);
        }
        let rich_header = self.block_headers[j];
        if rich_header.chain_ref != MAIN_CHAIN_ID {
            return Err(Error::InvalidChainID);
        }
        proof {
            assert(self.initialized);
        }
        let block_height = rich_header.block_height;
        self.transaction_verification_allowed(block_height)?;
        self.check_bitcoin_confirmations(best_block_height, confirmations, block_height)?;
        self.check_parachain_confirmations(rich_header.para_height)?;
        let proof_result = merkle_proof.verify_proof()?;
        if proof_result.transaction_hash != tx_id {
            return Err(Error::InvalidTxid);
        }
        if proof_result.extracted_root != rich_header.block_header.merkle_root {
            return Err(Error::InvalidMerkleProof);
        }
        Ok(())
    }

    /// Checks inclusion as `_verify_transaction_inclusion` does, where the system runs.
    pub fn verify_transaction_inclusion(&self, tx_id: H256Le, raw_merkle_proof: &[u8], confirmations: Option<u32>) -> (r: Result<(), Error>)
        requires
            self.wf(),
        ensures
            self.security.shutdown ==> r == Err::<(), Error>(Error::Shutdown),
            !self.security.shutdown && self.config.disable_inclusion_check ==> r is Ok,
            !self.security.shutdown && !self.config.disable_inclusion_check ==> (r is Ok <==> self.inclusion_ok(
                tx_id@,
                raw_merkle_proof@,
                confirmations,
            )),
            !self.security.shutdown ==> ({
                let h = self.header_with(sha256d_of(raw_merkle_proof@.subrange(0, 80)));
                let req = match confirmations {
                    Some(c) => c as int,
                    None => self.config.bitcoin_confirmations as int,
                };
                &&& !self.config.disable_inclusion_check && self.inclusion_prefix_ok(raw_merkle_proof@)
                    && 0 < h.block_height + req <= u32::MAX && self.best_block_height < h.block_height
                    + req - 1 ==> r == Err::<(), Error>(Error::BitcoinConfirmations)
                &&& !self.config.disable_inclusion_check && self.inclusion_prefix_ok(raw_merkle_proof@)
                    && self.confirmations_ok(self.best_block_height as int, confirmations, h.block_height as int)
                    && h.para_height + self.config.parachain_confirmations > self.security.active_block_number
                    ==> r == Err::<(), Error>(Error::ParachainConfirmations)
                &&& !self.config.disable_inclusion_check && self.chains@.len() <= 1 ==> r != Err::<
                    (),
                    Error,
                >(Error::OngoingFork)
                &&& !self.config.disable_inclusion_check && self.no_ongoing_fork(self.best_block_height as int)
                    && proof_layout(raw_merkle_proof@) is Some && compact_target(u32_le(raw_merkle_proof@, 72))
                    < two_256() && !self.stored(sha256d_of(raw_merkle_proof@.subrange(0, 80)))
                    ==> r == Err::<(), Error>(Error::BlockNotFound)
                &&& !self.config.disable_inclusion_check && self.no_ongoing_fork(self.best_block_height as int)
                    && proof_layout(raw_merkle_proof@) is Some && compact_target(u32_le(raw_merkle_proof@, 72))
                    < two_256() && self.stored(sha256d_of(raw_merkle_proof@.subrange(0, 80)))
                    && h.chain_ref != MAIN_CHAIN_ID ==> r == Err::<(), Error>(Error::InvalidChainID)
                &&& !self.config.disable_inclusion_check && self.inclusion_prefix_ok(raw_merkle_proof@)
                    && self.confirmations_ok(self.best_block_height as int, confirmations, h.block_height as int)
                    && h.para_height + self.config.parachain_confirmations <= self.security.active_block_number
                    ==> r == (match proof_outcome(raw_merkle_proof@) {
                    None => Err::<(), Error>(Error::MalformedMerkleProof),
                    Some(o) => if o.1 != tx_id@ {
                        Err(Error::InvalidTxid)
                    } else if o.0 != h.block_header.merkle_root@ {
                        Err(Error::InvalidMerkleProof)
                    } else {
                        Ok(())
                    },
                })
            }),
            !self.security.shutdown && !self.config.disable_inclusion_check && !self.no_ongoing_fork(
                self.best_block_height as int,
            ) ==> r == Err::<(), Error>(Error::OngoingFork),
    {
        if self.security.is_shutdown() {
            return Err(Error::Shutdown);
        }
        self._verify_transaction_inclusion(tx_id, raw_merkle_proof, confirmations)
    }

    /// Checks a parsed transaction against the accepted format: the address its first
    /// input spends from, and a payment to `recipient` of at least `minimum_btc`, with
    /// the OP_RETURN identifier where one is given and checks are on. Gives the input's
    /// address, to refund to, and the value paid.
    pub fn _validate_transaction(&self, transaction: &Transaction, recipient_btc_address: &Address, minimum_btc: Option<i64>, op_return_id: &Option<Vec<u8>>) -> (r: Result<(Address, i64), Error>)
        ensures
            outcome_view(r) == validation(
                *transaction,
                recipient_btc_address@,
                minimum_btc,
                opt_view(*op_return_id),
                self.config.disable_op_return_check,
            ),
    {
        if transaction.inputs.len() == 0 {
            return Err(Error::MalformedTransaction);
        }
        let input_address = match transaction.inputs[0].extract_address() {
            Ok(a) => a,
            Err(_) => {
                return Err(Error::MalformedTransaction);
            },
        };
        let value = check_payment(
            transaction,
            recipient_btc_address,
            minimum_btc,
            op_return_id,
            self.is_op_return_disabled(),
        )?;
        Ok((input_address, value))
    }

    /// Parses a raw transaction and checks it as `_validate_transaction` does, where the
    /// system runs.
    pub fn validate_transaction(&self, raw_tx: &[u8], minimum_btc: i64, recipient_btc_address: &Address, op_return_id: Option<H256Le>) -> (r: Result<(Address, i64), Error>)
        ensures
            self.security.shutdown ==> r is Err && r->Err_0 == Error::Shutdown,
            !self.security.shutdown && tx_layout(raw_tx@) is None ==> r is Err && (r->Err_0
                == Error::EndOfFile || r->Err_0 == Error::MalformedTransaction),
            !self.security.shutdown && tx_layout(raw_tx@) is Some ==> exists|tx: Transaction|
                crate::parser::tx_matches(tx, tx_layout(raw_tx@)->0) && outcome_view(r) == validation(
                        tx,
                        recipient_btc_address@,
                        Some(minimum_btc),
                        match op_return_id {
                            Some(h) => Some(h@),
                            None => None,
                        },
                        self.config.disable_op_return_check,
                    ),
    {
        if self.security.is_shutdown() {
            return Err(Error::Shutdown);
        }
        let transaction = parse_transaction(raw_tx)?;
        let id = match op_return_id {
            Some(h) => Some(crate::transaction::copy_range(h.content.as_slice(), 0, 32)),
            None => None,
        };
        proof {
            if let Some(h) = op_return_id {
                assert(h.content@.subrange(0, 32) =~= h@);
            }
        }
        let r = self._validate_transaction(&transaction, recipient_btc_address, Some(minimum_btc), &id);
        proof {
            assert(crate::parser::tx_matches(transaction, tx_layout(raw_tx@)->0));
        }
        r
    }

    /// Parses a raw transaction, checks its inclusion by the proof and then its format.
    pub fn _verify_and_validate_transaction(
        &self,
        raw_merkle_proof: &[u8],
        raw_tx: &[u8],
        recipient_btc_address: &Address,
        minimum_btc: Option<i64>,
        op_return_id: Option<H256Le>,
        confirmations: Option<u32>,
    ) -> (r: Result<(Address, i64), Error>)
        requires
            self.wf(),
        ensures
            tx_layout(raw_tx@) is None ==> r is Err && (r->Err_0 == Error::EndOfFile || r->Err_0
                == Error::MalformedTransaction),
            tx_layout(raw_tx@) is Some && !self.config.disable_inclusion_check && !self.inclusion_ok(
                sha256d_of(tx_id_bytes(raw_tx@, tx_layout(raw_tx@)->0)),
                raw_merkle_proof@,
                confirmations,
            ) ==> r is Err && Self::inclusion_error(r->Err_0),
            tx_layout(raw_tx@) is Some && (self.config.disable_inclusion_check || self.inclusion_ok(
                sha256d_of(tx_id_bytes(raw_tx@, tx_layout(raw_tx@)->0)),
                raw_merkle_proof@,
                confirmations,
            )) ==> exists|tx: Transaction|
                crate::parser::tx_matches(tx, tx_layout(raw_tx@)->0) && outcome_view(r) == validation(
                    tx,
                    recipient_btc_address@,
                    minimum_btc,
                    match op_return_id {
                        Some(h) => Some(h@),
                        None => None,
                    },
                    self.config.disable_op_return_check,
                ),
    {
        let (transaction, tx_id) = parse_transaction_with_id(raw_tx)?;
        self._verify_transaction_inclusion(tx_id, raw_merkle_proof, confirmations)?;
        let id = match op_return_id {
            Some(h) => Some(crate::transaction::copy_range(h.content.as_slice(), 0, 32)),
            None => None,
        };
        proof {
            if let Some(h) = op_return_id {
                assert(h.content@.subrange(0, 32) =~= h@);
            }
        }
        let r = self._validate_transaction(&transaction, recipient_btc_address, minimum_btc, &id);
        proof {
            assert(crate::parser::tx_matches(transaction, tx_layout(raw_tx@)->0));
        }
        r
    }

    /// Checks inclusion and format of a transaction, as `_verify_and_validate_transaction`
    /// does, where the system runs.
    pub fn verify_and_validate_transaction(
        &self,
        raw_merkle_proof: &[u8],
        confirmations: Option<u32>,
        raw_tx: &[u8],
        minimum_btc: i64,
        recipient_btc_address: &Address,
        op_return_id: Option<H256Le>,
    ) -> (r: Result<(Address, i64), Error>)
        requires
            self.wf(),
        ensures
            self.security.shutdown ==> r is Err && r->Err_0 == Error::Shutdown,
            !self.security.shutdown && tx_layout(raw_tx@) is None ==> r is Err && (r->Err_0
                == Error::EndOfFile || r->Err_0 == Error::MalformedTransaction),
            !self.security.shutdown && tx_layout(raw_tx@) is Some && !self.config.disable_inclusion_check
                && !self.inclusion_ok(
                sha256d_of(tx_id_bytes(raw_tx@, tx_layout(raw_tx@)->0)),
                raw_merkle_proof@,
                confirmations,
            ) ==> r is Err && Self::inclusion_error(r->Err_0),
            !self.security.shutdown && tx_layout(raw_tx@) is Some && (self.config.disable_inclusion_check
                || self.inclusion_ok(
                sha256d_of(tx_id_bytes(raw_tx@, tx_layout(raw_tx@)->0)),
                raw_merkle_proof@,
                confirmations,
            )) ==> exists|tx: Transaction|
                crate::parser::tx_matches(tx, tx_layout(raw_tx@)->0) && outcome_view(r) == validation(
                    tx,
                    recipient_btc_address@,
                    Some(minimum_btc),
                    match op_return_id {
                        Some(h) => Some(h@),
                        None => None,
                    },
                    self.config.disable_op_return_check,
                ),
    {
        if self.security.is_shutdown() {
            return Err(Error::Shutdown);
        }
        self._verify_and_validate_transaction(
            raw_merkle_proof,
            raw_tx,
            recipient_btc_address,
            Some(minimum_btc),
            op_return_id,
            confirmations,
        )
    }
}

} // verus!
