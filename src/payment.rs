//! The accepted payment format: among the first three outputs exactly one pays the
//! recipient, and, where asked for, another carries an OP_RETURN identifier.
use vstd::prelude::*;
use crate::error::Error;
use crate::relay::Pallet;
use crate::transaction::{
    Address, Transaction, TransactionOutput, extract_op_return_data, script_address,
    script_op_return,
};

verus! {

/// Fewest outputs a plain payment may have.
pub const ACCEPTED_MIN_TRANSACTION_OUTPUTS: usize = 1;

/// Fewest outputs a payment with an OP_RETURN identifier may have.
pub const ACCEPTED_MIN_TRANSACTION_OUTPUTS_WITH_OP_RETURN: usize = 2;

/// Most outputs an accepted transaction may have.
pub const ACCEPTED_MAX_TRANSACTION_OUTPUTS: usize = 32;

/// The value output `k` pays, where it exists and pays `recipient`.
pub open spec fn payment_to(outs: Seq<TransactionOutput>, k: int, recipient: (u8, Seq<u8>)) -> Option<i64> {
    if 0 <= k < outs.len() && script_address(outs[k].script@) == Some(recipient) {
        Some(outs[k].value)
    } else {
        None
    }
}

/// The OP_RETURN data of output `k`, where it exists and carries some.
pub open spec fn op_return_at(outs: Seq<TransactionOutput>, k: int) -> Option<Seq<u8>> {
    if 0 <= k < outs.len() {
        script_op_return(outs[k].script@)
    } else {
        None
    }
}

/// The one value present among three, if exactly one is.
pub open spec fn single_of_three<T>(a: Option<T>, b: Option<T>, c: Option<T>) -> Option<T> {
    match (a, b, c) {
        (Some(x), None, None) => Some(x),
        (None, Some(x), None) => Some(x),
        (None, None, Some(x)) => Some(x),
        _ => None,
    }
}

/// The value paid to `recipient`, where exactly one of the first three outputs pays it.
pub open spec fn payment_value(outs: Seq<TransactionOutput>, recipient: (u8, Seq<u8>)) -> Option<i64> {
    single_of_three(
        payment_to(outs, 0, recipient),
        payment_to(outs, 1, recipient),
        payment_to(outs, 2, recipient),
    )
}

/// Whether one of the first three outputs carries `id` as its OP_RETURN data. An
/// output that pays an address carries no OP_RETURN data, so this is another output
/// than the payment.
pub open spec fn carries_id(outs: Seq<TransactionOutput>, id: Seq<u8>) -> bool {
    exists|k: int| 0 <= k < 3 && #[trigger] op_return_at(outs, k) == Some(id)
}

/// The payment value of a payment with an identifier: at least two outputs, exactly
/// one of the first three paying `recipient`, and one of them carrying `id`.
pub open spec fn payment_value_and_op_return(
    outs: Seq<TransactionOutput>,
    recipient: (u8, Seq<u8>),
    id: Seq<u8>,
) -> Result<i64, Error> {
    if outs.len() < ACCEPTED_MIN_TRANSACTION_OUTPUTS_WITH_OP_RETURN {
        Err(Error::MalformedTransaction)
    } else {
        match payment_value(outs, recipient) {
            None => Err(Error::InvalidPayment),
            Some(v) => if carries_id(outs, id) {
                Ok(v)
            } else {
                Err(Error::InvalidOpReturn)
            },
        }
    }
}

/// The value of an output, where it pays `recipient`.
pub fn maybe_get_payment_value(outs: &Vec<TransactionOutput>, k: usize, recipient: &Address) -> (r: Option<i64>)
    ensures
        r == payment_to(outs@, k as int, recipient@),
{
    if k >= outs.len() {
        return None;
    }
    match outs[k].extract_address() {
        Ok(a) => {
            if a.same(recipient) {
                Some(outs[k].value)
            } else {
                None
            }
        },
        Err(_) => None,
    }
}

/// The OP_RETURN data of output `k`.
fn maybe_get_op_return(outs: &Vec<TransactionOutput>, k: usize) -> (r: Option<Vec<u8>>)
    ensures
        r matches Some(d) ==> op_return_at(outs@, k as int) == Some(d@),
        r is None <==> op_return_at(outs@, k as int) is None,
{
    if k >= outs.len() {
        return None;
    }
    match extract_op_return_data(outs[k].script.as_slice()) {
        Ok(d) => Some(d),
        Err(_) => None,
    }
}

/// The value paid to `recipient` by the one output among the first three that pays it.
pub fn extract_payment_value(transaction: &Transaction, recipient: &Address) -> (r: Result<i64, Error>)
    ensures
        transaction.outputs@.len() < ACCEPTED_MIN_TRANSACTION_OUTPUTS ==> r == Err::<i64, Error>(
            Error::MalformedTransaction,
        ),
        transaction.outputs@.len() >= ACCEPTED_MIN_TRANSACTION_OUTPUTS ==> r == (match payment_value(
            transaction.outputs@,
            recipient@,
        ) {
            Some(v) => Ok::<i64, Error>(v),
            None => Err(Error::InvalidPayment),
        }),
{
    if transaction.outputs.len() < ACCEPTED_MIN_TRANSACTION_OUTPUTS {
        return Err(Error::MalformedTransaction);
    }
    let o0 = maybe_get_payment_value(&transaction.outputs, 0, recipient);
    let o1 = maybe_get_payment_value(&transaction.outputs, 1, recipient);
    let o2 = maybe_get_payment_value(&transaction.outputs, 2, recipient);
    match (o0, o1, o2) {
        (Some(o), None, None) | (None, Some(o), None) | (None, None, Some(o)) => Ok(o),
        _ => Err(Error::InvalidPayment),
    }
}

/// The value of a payment with an identifier: the one output among the first three
/// that pays `recipient`, where another of them carries `id` as OP_RETURN data.
pub fn extract_payment_value_and_op_return(transaction: &Transaction, recipient: &Address, id: &[u8]) -> (r: Result<i64, Error>)
    ensures
        r == payment_value_and_op_return(transaction.outputs@, recipient@, id@),
{
    let outs = &transaction.outputs;
    if outs.len() < ACCEPTED_MIN_TRANSACTION_OUTPUTS_WITH_OP_RETURN {
        return Err(Error::MalformedTransaction);
    }
    let v = match extract_payment_value(transaction, recipient) {
        Ok(v) => v,
        Err(_) => {
            return Err(Error::InvalidPayment);
        },
    };
    let mut k: usize = 0;
    while k < 3 && k < outs.len()
        invariant
            0 <= k <= 3,
            outs@.len() >= ACCEPTED_MIN_TRANSACTION_OUTPUTS_WITH_OP_RETURN,
            payment_value(outs@, recipient@) == Some(v),
            outs@ == transaction.outputs@,
            forall|j: int| 0 <= j < k ==> #[trigger] op_return_at(outs@, j) != Some(id@),
        decreases 3 - k,
    {
        match maybe_get_op_return(outs, k) {
            Some(d) => {
                if crate::transaction::bytes_eq(d.as_slice(), id) {
                    proof {
                        assert(op_return_at(outs@, k as int) == Some(id@));
                    }
                    return Ok(v);
                }
            },
            None => {},
        }
        k = k + 1;
    }
    proof {
        assert forall|j: int| 0 <= j < 3 implies #[trigger] op_return_at(outs@, j) != Some(id@) by {
            if j >= k {
                assert(j >= outs@.len());
            }
        }
    }
    Err(Error::InvalidOpReturn)
}

/// What validation of the payment part decides: the value paid, or the failure.
pub open spec fn payment_check(
    outs: Seq<TransactionOutput>,
    recipient: (u8, Seq<u8>),
    minimum: Option<i64>,
    op_return_id: Option<Seq<u8>>,
    op_return_disabled: bool,
) -> Result<i64, Error> {
    let paid: Result<i64, Error> = if op_return_disabled || op_return_id is None {
        if outs.len() < ACCEPTED_MIN_TRANSACTION_OUTPUTS {
            Err(Error::MalformedTransaction)
        } else {
            match payment_value(outs, recipient) {
                Some(v) => Ok(v),
                None => Err(Error::InvalidPayment),
            }
        }
    } else {
        payment_value_and_op_return(outs, recipient, op_return_id->0)
    };
    match paid {
        Ok(v) => match minimum {
            Some(m) => if v >= m {
                Ok(v)
            } else {
                Err(Error::InsufficientValue)
            },
            None => Ok(v),
        },
        Err(e) => Err(e),
    }
}

/// Checks the payment part of a transaction: too many outputs, the recipient, the
/// OP_RETURN identifier where one is asked for and checks are on, and the minimum.
pub fn check_payment(
    transaction: &Transaction,
    recipient: &Address,
    minimum_btc: Option<i64>,
    op_return_id: &Option<Vec<u8>>,
    op_return_disabled: bool,
) -> (r: Result<i64, Error>)
    ensures
        transaction.outputs@.len() > ACCEPTED_MAX_TRANSACTION_OUTPUTS ==> r == Err::<i64, Error>(
            Error::MalformedTransaction,
        ),
        transaction.outputs@.len() <= ACCEPTED_MAX_TRANSACTION_OUTPUTS ==> r == payment_check(
            transaction.outputs@,
            recipient@,
            minimum_btc,
            match op_return_id {
                Some(d) => Some(d@),
                None => None,
            },
            op_return_disabled,
        ),
{
    if transaction.outputs.len() > ACCEPTED_MAX_TRANSACTION_OUTPUTS {
        return Err(Error::MalformedTransaction);
    }
    let value = if op_return_disabled || op_return_id.is_none() {
        extract_payment_value(transaction, recipient)?
    } else {
        let id = op_return_id.as_ref().unwrap();
        extract_payment_value_and_op_return(transaction, recipient, id.as_slice())?
    };
    match minimum_btc {
        Some(m) => if value >= m {
            Ok(value)
        } else {
            Err(Error::InsufficientValue)
        },
        None => Ok(value),
    }
}

/// The outputs that pay an address, with their values, in order.
pub open spec fn payments_of(outs: Seq<TransactionOutput>) -> Seq<(i64, (u8, Seq<u8>))>
    decreases outs.len(),
{
    if outs.len() == 0 {
        seq![]
    } else {
        let init = payments_of(outs.drop_last());
        match script_address(outs.last().script@) {
            Some(a) => init.push((outs.last().value, a)),
            None => init,
        }
    }
}

/// The outputs that pay no address but carry OP_RETURN data, with their values, in order.
pub open spec fn op_returns_of(outs: Seq<TransactionOutput>) -> Seq<(i64, Seq<u8>)>
    decreases outs.len(),
{
    if outs.len() == 0 {
        seq![]
    } else {
        let init = op_returns_of(outs.drop_last());
        if script_address(outs.last().script@) is None && script_op_return(outs.last().script@) is Some {
            init.push((outs.last().value, script_op_return(outs.last().script@)->0))
        } else {
            init
        }
    }
}

impl Pallet {
    /// Splits the outputs of a transaction into payments and OP_RETURN outputs; refuses
    /// a transaction with too many outputs.
    pub fn extract_outputs(transaction: &Transaction) -> (r: Result<(Vec<(i64, Address)>, Vec<(i64, Vec<u8>)>), Error>)
        ensures
            transaction.outputs@.len() > ACCEPTED_MAX_TRANSACTION_OUTPUTS <==> r is Err,
            r matches Err(e) ==> e == Error::MalformedTransaction,
            r matches Ok((pays, rets)) ==> pays@.map_values(|p: (i64, Address)| (p.0, p.1@))
                == payments_of(transaction.outputs@) && rets@.map_values(|p: (i64, Vec<u8>)| (p.0, p.1@))
                == op_returns_of(transaction.outputs@),
    {
        if transaction.outputs.len() > ACCEPTED_MAX_TRANSACTION_OUTPUTS {
            return Err(Error::MalformedTransaction);
        }
        let outs = &transaction.outputs;
        let mut payments: Vec<(i64, Address)> = Vec::new();
        let mut op_returns: Vec<(i64, Vec<u8>)> = Vec::new();
        let mut i: usize = 0;
        while i < outs.len()
            invariant
                0 <= i <= outs@.len(),
                payments@.map_values(|p: (i64, Address)| (p.0, p.1@)) == payments_of(outs@.subrange(0, i as int)),
                op_returns@.map_values(|p: (i64, Vec<u8>)| (p.0, p.1@)) == op_returns_of(outs@.subrange(0, i as int)),
            decreases outs@.len() - i,
        {
            let ghost pre = outs@.subrange(0, i as int);
            let ghost next = outs@.subrange(0, i + 1);
            proof {
                assert(next.drop_last() =~= pre);
                assert(next.last() == outs@[i as int]);
            }
            let ghost pays0 = payments@;
            let ghost rets0 = op_returns@;
            match outs[i].extract_address() {
                Ok(a) => {
                    payments.push((outs[i].value, a));
                    proof {
                        assert(payments@.map_values(|p: (i64, Address)| (p.0, p.1@)) =~= pays0.map_values(
                            |p: (i64, Address)| (p.0, p.1@),
                        ).push((outs@[i as int].value, a@)));
                    }
                },
                Err(_) => {
                    match extract_op_return_data(outs[i].script.as_slice()) {
                        Ok(d) => {
                            op_returns.push((outs[i].value, d));
                            proof {
                                assert(op_returns@.map_values(|p: (i64, Vec<u8>)| (p.0, p.1@)) =~= rets0.map_values(
                                    |p: (i64, Vec<u8>)| (p.0, p.1@),
                                ).push((outs@[i as int].value, d@)));
                            }
                        },
                        Err(_) => {},
                    }
                },
            }
            i = i + 1;
        }
        proof {
            assert(outs@.subrange(0, outs@.len() as int) =~= outs@);
        }
        Ok((payments, op_returns))
    }
}

} // verus!
