//! Reading the integers of the Bitcoin wire formats.
use vstd::prelude::*;
use crate::error::Error;
use crate::header::pow256;
use crate::types::{H256Le, le_value};
use crate::hashing::{sha256d, sha256d_of};
use crate::header::{read_u32_le, u32_le};
use crate::transaction::{Transaction, TransactionInput, TransactionOutput, copy_range};

verus! {

/// The value of a compact-size integer at `pos` and the position after it: one byte
/// below 0xfd, or a marker byte 0xfd, 0xfe or 0xff followed by 2, 4 or 8 bytes.
pub open spec fn varint_at(s: Seq<u8>, pos: int) -> Option<(int, int)> {
    if pos < 0 || pos >= s.len() {
        None
    } else {
        let b = s[pos];
        let n: int = if b < 0xfd {
            0
        } else if b == 0xfd {
            2
        } else if b == 0xfe {
            4
        } else {
            8
        };
        if n == 0 {
            Some((b as int, pos + 1))
        } else if pos + 1 + n <= s.len() {
            Some((le_value(s.subrange(pos + 1, pos + 1 + n)), pos + 1 + n))
        } else {
            None
        }
    }
}

pub proof fn lemma_le_value_bound(s: Seq<u8>)
    ensures
        0 <= le_value(s) < pow256(s.len()),
    decreases s.len(),
{
    if s.len() > 0 {
        lemma_le_value_bound(s.drop_first());
        assert(s.drop_first().len() == s.len() - 1);
    }
}

/// Reads `n` bytes at `pos` as an integer, least significant first.
pub fn read_le(s: &[u8], pos: usize, n: usize) -> (r: u64)
    requires
        n <= 8,
        pos + n <= s@.len(),
    ensures
        r == le_value(s@.subrange(pos as int, pos + n)),
{
    let len = s.len();
    let mut v: u64 = 0;
    let mut i: usize = n;
    proof {
        assert(s@.subrange(pos + n, pos + n).len() == 0);
        reveal_with_fuel(pow256, 9);
    }
    while i > 0
        invariant
            0 <= i <= n,
            n <= 8,
            len == s@.len(),
            pos + n <= s@.len(),
            v == le_value(s@.subrange(pos + i, pos + n)),
            pow256(8) == 0x1_0000_0000_0000_0000,
        decreases i,
    {
        let ghost tail = s@.subrange(pos + i, pos + n);
        proof {
            lemma_le_value_bound(tail);
            crate::header::lemma_pow256_monotone(tail.len(), 7);
            reveal_with_fuel(pow256, 9);
        }
        i = i - 1;
        let ghost whole = s@.subrange(pos + i, pos + n);
        proof {
            assert(whole.drop_first() =~= tail);
            assert(pow256(7) == 0x100_0000_0000_0000);
        }
        v = s[pos + i] as u64 + 256 * v;
    }
    v
}

/// Reads a compact-size integer at `pos`; gives its value and the position after it.
pub fn read_varint(s: &[u8], pos: usize) -> (r: Result<(u64, usize), Error>)
    ensures
        r matches Ok((v, next)) ==> varint_at(s@, pos as int) == Some((v as int, next as int)),
        r is Err <==> varint_at(s@, pos as int) is None,
        r matches Err(e) ==> e == Error::EndOfFile,
{
    let len = s.len();
    if pos >= len {
        return Err(Error::EndOfFile);
    }
    let b = s[pos];
    let n: usize = if b < 0xfd {
        0
    } else if b == 0xfd {
        2
    } else if b == 0xfe {
        4
    } else {
        8
    };
    if n == 0 {
        return Ok((b as u64, pos + 1));
    }
    if n > len - pos - 1 {
        return Err(Error::EndOfFile);
    }
    Ok((read_le(s, pos + 1, n), pos + 1 + n))
}

/// A length-prefixed byte string at `pos` and the position after it.
pub open spec fn bytes_at(s: Seq<u8>, pos: int) -> Option<(Seq<u8>, int)> {
    match varint_at(s, pos) {
        Some((n, p)) => if p + n <= s.len() {
            Some((s.subrange(p, p + n), p + n))
        } else {
            None
        },
        None => None,
    }
}

/// An input as the wire holds it: previous hash, previous index, script, sequence.
pub type InputView = (Seq<u8>, int, Seq<u8>, int);

/// One input at `pos`.
pub open spec fn input_at(s: Seq<u8>, pos: int) -> Option<(InputView, int)> {
    if pos < 0 || pos + 36 > s.len() {
        None
    } else {
        match bytes_at(s, pos + 36) {
            Some((script, p)) => if p + 4 <= s.len() {
                Some(((s.subrange(pos, pos + 32), u32_le(s, pos + 32), script, u32_le(s, p)), p + 4))
            } else {
                None
            },
            None => None,
        }
    }
}

/// `n` inputs from `pos` on.
pub open spec fn inputs_at(s: Seq<u8>, pos: int, n: nat) -> Option<(Seq<InputView>, int)>
    decreases n,
{
    if n == 0 {
        Some((seq![], pos))
    } else {
        match inputs_at(s, pos, (n - 1) as nat) {
            Some((v, p)) => match input_at(s, p) {
                Some((x, q)) => Some((v.push(x), q)),
                None => None,
            },
            None => None,
        }
    }
}

/// A signed 64-bit value in two's complement.
pub open spec fn as_i64(v: int) -> int {
    if v < 0x8000_0000_0000_0000 {
        v
    } else {
        v - 0x1_0000_0000_0000_0000
    }
}

/// One output at `pos`: its value and script.
pub open spec fn output_at(s: Seq<u8>, pos: int) -> Option<((int, Seq<u8>), int)> {
    if pos < 0 || pos + 8 > s.len() {
        None
    } else {
        match bytes_at(s, pos + 8) {
            Some((script, p)) => Some(((as_i64(le_value(s.subrange(pos, pos + 8))), script), p)),
            None => None,
        }
    }
}

/// `n` outputs from `pos` on.
pub open spec fn outputs_at(s: Seq<u8>, pos: int, n: nat) -> Option<(Seq<(int, Seq<u8>)>, int)>
    decreases n,
{
    if n == 0 {
        Some((seq![], pos))
    } else {
        match outputs_at(s, pos, (n - 1) as nat) {
            Some((v, p)) => match output_at(s, p) {
                Some((x, q)) => Some((v.push(x), q)),
                None => None,
            },
            None => None,
        }
    }
}

/// `n` length-prefixed byte strings from `pos` on.
pub open spec fn items_at(s: Seq<u8>, pos: int, n: nat) -> Option<(Seq<Seq<u8>>, int)>
    decreases n,
{
    if n == 0 {
        Some((seq![], pos))
    } else {
        match items_at(s, pos, (n - 1) as nat) {
            Some((v, p)) => match bytes_at(s, p) {
                Some((x, q)) => Some((v.push(x), q)),
                None => None,
            },
            None => None,
        }
    }
}

/// One witness stack at `pos`.
pub open spec fn witness_at(s: Seq<u8>, pos: int) -> Option<(Seq<Seq<u8>>, int)> {
    match varint_at(s, pos) {
        Some((n, p)) => if n <= s.len() {
            items_at(s, p, n as nat)
        } else {
            None
        },
        None => None,
    }
}

/// `n` witness stacks from `pos` on.
pub open spec fn witnesses_at(s: Seq<u8>, pos: int, n: nat) -> Option<(Seq<Seq<Seq<u8>>>, int)>
    decreases n,
{
    if n == 0 {
        Some((seq![], pos))
    } else {
        match witnesses_at(s, pos, (n - 1) as nat) {
            Some((v, p)) => match witness_at(s, p) {
                Some((x, q)) => Some((v.push(x), q)),
                None => None,
            },
            None => None,
        }
    }
}

/// A transaction as the wire holds it.
pub struct TxView {
    pub version: int,
    pub inputs: Seq<InputView>,
    pub witnesses: Seq<Seq<Seq<u8>>>,
    pub outputs: Seq<(int, Seq<u8>)>,
    pub lock_time: int,
    /// Where the input count begins.
    pub inputs_start: int,
    /// Where the outputs end.
    pub outputs_end: int,
    /// Where the witnesses end and the lock time begins.
    pub witness_end: int,
}

/// The counted list after a compact-size count at `pos`: the count, and where the items begin.
pub open spec fn count_at(s: Seq<u8>, pos: int) -> Option<(nat, int)> {
    match varint_at(s, pos) {
        Some((n, p)) => if n <= s.len() {
            Some((n as nat, p))
        } else {
            None
        },
        None => None,
    }
}

/// The transaction that `s` serializes: a version, where the next two bytes are
/// 0x00 0x01 the witness marker, the inputs, the outputs, a witness stack per input
/// after a marker, and the lock time, which ends the input.
pub open spec fn tx_layout(s: Seq<u8>) -> Option<TxView> {
    if s.len() < 5 {
        None
    } else {
        let segwit = s[4] == 0;
        let start: int = if segwit { 6 } else { 4 };
        if segwit && (s.len() < 6 || s[5] != 1) {
            None
        } else {
            match count_at(s, start) {
                None => None,
                Some((ni, at0)) => match inputs_at(s, at0, ni) {
                    None => None,
                    Some((ins, at1)) => match count_at(s, at1) {
                        None => None,
                        Some((no, at2)) => match outputs_at(s, at2, no) {
                            None => None,
                            Some((outs, at3)) => {
                                let w = if segwit {
                                    witnesses_at(s, at3, ni)
                                } else {
                                    Some((Seq::new(ni, |i: int| Seq::<Seq<u8>>::empty()), at3))
                                };
                                match w {
                                    None => None,
                                    Some((ws, at4)) => if at4 + 4 == s.len() {
                                        Some(
                                            TxView {
                                                version: as_i32(u32_le(s, 0)),
                                                inputs: ins,
                                                witnesses: ws,
                                                outputs: outs,
                                                lock_time: u32_le(s, at4),
                                                inputs_start: start,
                                                outputs_end: at3,
                                                witness_end: at4,
                                            },
                                        )
                                    } else {
                                        None
                                    },
                                }
                            },
                        },
                    },
                },
            }
        }
    }
}

/// A signed 32-bit value in two's complement.
pub open spec fn as_i32(v: int) -> int {
    if v < 0x8000_0000 {
        v
    } else {
        v - 0x1_0000_0000
    }
}

/// What a parsed transaction holds, in the terms of `TxView`.
pub open spec fn tx_matches(tx: Transaction, v: TxView) -> bool {
    &&& tx.version as int == v.version
    &&& tx.lock_time as int == v.lock_time
    &&& tx.inputs@.len() == v.inputs.len()
    &&& v.witnesses.len() == v.inputs.len()
    &&& forall|i: int| 0 <= i < v.inputs.len() ==> {
        let x = #[trigger] tx.inputs@[i];
        &&& x.previous_hash@ == v.inputs[i].0
        &&& x.previous_index as int == v.inputs[i].1
        &&& x.script@ == v.inputs[i].2
        &&& x.sequence as int == v.inputs[i].3
        &&& x.witness_view() == v.witnesses[i]
    }
    &&& tx.outputs@.len() == v.outputs.len()
    &&& forall|i: int| 0 <= i < v.outputs.len() ==> {
        let o = #[trigger] tx.outputs@[i];
        &&& o.value as int == v.outputs[i].0
        &&& o.script@ == v.outputs[i].1
    }
}

/// Reads a length-prefixed byte string.
fn read_bytes(s: &[u8], pos: usize) -> (r: Result<(Vec<u8>, usize), Error>)
    ensures
        r matches Ok((b, p)) ==> bytes_at(s@, pos as int) == Some((b@, p as int)),
        r is Err <==> bytes_at(s@, pos as int) is None,
        r matches Err(e) ==> e == Error::EndOfFile || e == Error::MalformedTransaction,
{
    let (n, p) = read_varint(s, pos)?;
    if n > (s.len() - p) as u64 {
        return Err(Error::EndOfFile);
    }
    let n = n as usize;
    Ok((copy_range(s, p, p + n), p + n))
}

/// Reads a count of items that each take at least one byte.
fn read_count(s: &[u8], pos: usize) -> (r: Result<(usize, usize), Error>)
    ensures
        r matches Ok((n, p)) ==> count_at(s@, pos as int) == Some((n as nat, p as int)),
        r is Err <==> count_at(s@, pos as int) is None,
        r matches Err(e) ==> e == Error::EndOfFile || e == Error::MalformedTransaction,
{
    let (n, p) = read_varint(s, pos)?;
    if n > s.len() as u64 {
        return Err(Error::MalformedTransaction);
    }
    Ok((n as usize, p))
}

/// Reads eight bytes at `pos` as a signed value.
fn read_i64(s: &[u8], pos: usize) -> (r: i64)
    requires
        pos + 8 <= s@.len(),
    ensures
        r as int == as_i64(le_value(s@.subrange(pos as int, pos + 8))),
{
    let v = read_le(s, pos, 8);
    if v < 0x8000_0000_0000_0000 {
        v as i64
    } else {
        (v - 0x8000_0000_0000_0000) as i64 + i64::MIN
    }
}

fn read_input(s: &[u8], pos: usize) -> (r: Result<(TransactionInput, usize), Error>)
    ensures
        r matches Ok((x, p)) ==> input_at(s@, pos as int) matches Some((v, q)) && q == p && x.previous_hash@
            == v.0 && x.previous_index as int == v.1 && x.script@ == v.2 && x.sequence as int == v.3
            && x.witness@.len() == 0,
        r is Err <==> input_at(s@, pos as int) is None,
        r matches Err(e) ==> e == Error::EndOfFile || e == Error::MalformedTransaction,
{
    let len = s.len();
    if pos > len || 36 > len - pos {
        return Err(Error::EndOfFile);
    }
    let previous_hash = H256Le::from_bytes_le(copy_range(s, pos, pos + 32).as_slice());
    let previous_index = read_u32_le(s, pos + 32);
    let (script, p) = read_bytes(s, pos + 36)?;
    if p > len || 4 > len - p {
        return Err(Error::EndOfFile);
    }
    let sequence = read_u32_le(s, p);
    Ok((TransactionInput { previous_hash, previous_index, script, sequence, witness: Vec::new() }, p + 4))
}

fn read_output(s: &[u8], pos: usize) -> (r: Result<(TransactionOutput, usize), Error>)
    ensures
        r matches Ok((o, p)) ==> output_at(s@, pos as int) == Some(((o.value as int, o.script@), p as int)),
        r is Err <==> output_at(s@, pos as int) is None,
        r matches Err(e) ==> e == Error::EndOfFile || e == Error::MalformedTransaction,
{
    let len = s.len();
    if pos > len || 8 > len - pos {
        return Err(Error::EndOfFile);
    }
    let value = read_i64(s, pos);
    let (script, p) = read_bytes(s, pos + 8)?;
    Ok((TransactionOutput { value, script }, p))
}

fn read_witness(s: &[u8], pos: usize) -> (r: Result<(Vec<Vec<u8>>, usize), Error>)
    ensures
        r matches Ok((w, p)) ==> witness_at(s@, pos as int) == Some((w@.map_values(|x: Vec<u8>| x@), p as int)),
        r is Err <==> witness_at(s@, pos as int) is None,
        r matches Err(e) ==> e == Error::EndOfFile || e == Error::MalformedTransaction,
{
    let (n, at0) = read_varint(s, pos)?;
    if n > s.len() as u64 {
        return Err(Error::MalformedTransaction);
    }
    let n = n as usize;
    let mut items: Vec<Vec<u8>> = Vec::new();
    let mut p = at0;
    let mut i: usize = 0;
    while i < n
        invariant
            0 <= i <= n,
            varint_at(s@, pos as int) == Some((n as int, at0 as int)),
            n <= s@.len(),
            items_at(s@, at0 as int, i as nat) == Some((items@.map_values(|x: Vec<u8>| x@), p as int)),
        decreases n - i,
    {
        let (b, q) = match read_bytes(s, p) {
            Ok(v) => v,
            Err(e) => {
                proof {
                    assert(items_at(s@, at0 as int, (i + 1) as nat) is None);
                    lemma_items_none(s@, at0 as int, (i + 1) as nat, n as nat);
                }
                return Err(e);
            },
        };
        let ghost prev = items@;
        items.push(b);
        proof {
            assert(items@.map_values(|x: Vec<u8>| x@) =~= prev.map_values(|x: Vec<u8>| x@).push(b@));
        }
        p = q;
        i = i + 1;
    }
    Ok((items, p))
}

proof fn lemma_items_none(s: Seq<u8>, pos: int, i: nat, n: nat)
    requires
        i <= n,
        items_at(s, pos, i) is None,
    ensures
        items_at(s, pos, n) is None,
    decreases n - i,
{
    if i < n {
        lemma_items_none(s, pos, i + 1, n);
    }
}

proof fn lemma_inputs_none(s: Seq<u8>, pos: int, i: nat, n: nat)
    requires
        i <= n,
        inputs_at(s, pos, i) is None,
    ensures
        inputs_at(s, pos, n) is None,
    decreases n - i,
{
    if i < n {
        lemma_inputs_none(s, pos, i + 1, n);
    }
}

proof fn lemma_outputs_none(s: Seq<u8>, pos: int, i: nat, n: nat)
    requires
        i <= n,
        outputs_at(s, pos, i) is None,
    ensures
        outputs_at(s, pos, n) is None,
    decreases n - i,
{
    if i < n {
        lemma_outputs_none(s, pos, i + 1, n);
    }
}

proof fn lemma_witnesses_none(s: Seq<u8>, pos: int, i: nat, n: nat)
    requires
        i <= n,
        witnesses_at(s, pos, i) is None,
    ensures
        witnesses_at(s, pos, n) is None,
    decreases n - i,
{
    if i < n {
        lemma_witnesses_none(s, pos, i + 1, n);
    }
}

/// An input in the terms of the wire format.
pub open spec fn input_view(x: TransactionInput) -> InputView {
    (x.previous_hash@, x.previous_index as int, x.script@, x.sequence as int)
}

/// An output in the terms of the wire format.
pub open spec fn output_view(o: TransactionOutput) -> (int, Seq<u8>) {
    (o.value as int, o.script@)
}

/// The bytes a transaction id is the hash of: the serialization without the witness
/// marker and the witnesses.
pub open spec fn tx_id_bytes(s: Seq<u8>, v: TxView) -> Seq<u8> {
    s.subrange(0, 4) + s.subrange(v.inputs_start, v.outputs_end) + s.subrange(
        v.witness_end,
        s.len() as int,
    )
}

/// Parses a transaction in the standard serialization, with or without witnesses.
pub fn parse_transaction(s: &[u8]) -> (r: Result<Transaction, Error>)
    ensures
        r is Ok <==> tx_layout(s@) is Some,
        r matches Ok(tx) ==> tx_matches(tx, tx_layout(s@)->0),
        r matches Err(e) ==> e == Error::EndOfFile || e == Error::MalformedTransaction,
{
    let (tx, _, _, _) = parse_transaction_parts(s)?;
    Ok(tx)
}

/// Parses a transaction and computes its id.
pub fn parse_transaction_with_id(s: &[u8]) -> (r: Result<(Transaction, H256Le), Error>)
    ensures
        r is Ok <==> tx_layout(s@) is Some,
        r matches Ok((tx, id)) ==> tx_matches(tx, tx_layout(s@)->0) && id@ == sha256d_of(
            tx_id_bytes(s@, tx_layout(s@)->0),
        ),
        r matches Err(e) ==> e == Error::EndOfFile || e == Error::MalformedTransaction,
{
    let (tx, start, at3, at4) = parse_transaction_parts(s)?;
    let mut bytes = copy_range(s, 0, 4);
    let mut middle = copy_range(s, start, at3);
    let mut tail = copy_range(s, at4, s.len());
    bytes.append(&mut middle);
    bytes.append(&mut tail);
    Ok((tx, H256Le { content: sha256d(bytes.as_slice()) }))
}

fn parse_transaction_parts(s: &[u8]) -> (r: Result<(Transaction, usize, usize, usize), Error>)
    ensures
        r is Ok <==> tx_layout(s@) is Some,
        r matches Ok((tx, a, b, c)) ==> tx_matches(tx, tx_layout(s@)->0) && a == tx_layout(
            s@,
        )->0.inputs_start && b == tx_layout(s@)->0.outputs_end && c == tx_layout(s@)->0.witness_end
            && a <= b <= c <= s@.len(),
        r matches Err(e) ==> e == Error::EndOfFile || e == Error::MalformedTransaction,
{
    let len = s.len();
    if len < 5 {
        return Err(Error::EndOfFile);
    }
    let v = read_u32_le(s, 0);
    let version: i32 = if v < 0x8000_0000 {
        v as i32
    } else {
        (v - 0x8000_0000) as i32 + i32::MIN
    };
    let segwit = s[4] == 0;
    if segwit && (len < 6 || s[5] != 1) {
        return Err(Error::MalformedTransaction);
    }
    let start: usize = if segwit { 6 } else { 4 };
    let (ni, at0) = read_count(s, start)?;
    let mut inputs: Vec<TransactionInput> = Vec::new();
    let mut p = at0;
    let mut i: usize = 0;
    while i < ni
        invariant
            0 <= i <= ni,
            s@.len() >= 5,
            segwit == (s@[4] == 0),
            segwit ==> s@.len() >= 6 && s@[5] == 1,
            start == (if segwit { 6usize } else { 4usize }),
            count_at(s@, start as int) == Some((ni as nat, at0 as int)),
            inputs@.len() == i,
            inputs_at(s@, at0 as int, i as nat) == Some((inputs@.map_values(|x: TransactionInput| input_view(x)), p as int)),
            forall|k: int| 0 <= k < inputs@.len() ==> (#[trigger] inputs@[k]).witness@.len() == 0,
        decreases ni - i,
    {
        let (x, q) = match read_input(s, p) {
            Ok(v) => v,
            Err(e) => {
                proof {
                    lemma_inputs_none(s@, at0 as int, (i + 1) as nat, ni as nat);
                }
                return Err(e);
            },
        };
        let ghost prev = inputs@;
        inputs.push(x);
        proof {
            assert(inputs@.map_values(|x: TransactionInput| input_view(x)) =~= prev.map_values(
                |x: TransactionInput| input_view(x),
            ).push(input_view(x)));
        }
        p = q;
        i = i + 1;
    }
    let at1 = p;
    let (no, at2) = read_count(s, at1)?;
    let mut outputs: Vec<TransactionOutput> = Vec::new();
    p = at2;
    i = 0;
    while i < no
        invariant
            0 <= i <= no,
            s@.len() >= 5,
            segwit == (s@[4] == 0),
            segwit ==> s@.len() >= 6 && s@[5] == 1,
            start == (if segwit { 6usize } else { 4usize }),
            count_at(s@, start as int) == Some((ni as nat, at0 as int)),
            inputs@.len() == ni,
            inputs_at(s@, at0 as int, ni as nat) == Some((inputs@.map_values(|x: TransactionInput| input_view(x)), at1 as int)),
            forall|k: int| 0 <= k < inputs@.len() ==> (#[trigger] inputs@[k]).witness@.len() == 0,
            count_at(s@, at1 as int) == Some((no as nat, at2 as int)),
            outputs_at(s@, at2 as int, i as nat) == Some((outputs@.map_values(|o: TransactionOutput| output_view(o)), p as int)),
        decreases no - i,
    {
        let (o, q) = match read_output(s, p) {
            Ok(v) => v,
            Err(e) => {
                proof {
                    lemma_outputs_none(s@, at2 as int, (i + 1) as nat, no as nat);
                }
                return Err(e);
            },
        };
        let ghost prev = outputs@;
        outputs.push(o);
        proof {
            assert(outputs@.map_values(|o: TransactionOutput| output_view(o)) =~= prev.map_values(
                |o: TransactionOutput| output_view(o),
            ).push(output_view(o)));
        }
        p = q;
        i = i + 1;
    }
    let at3 = p;
    let ghost ins_view = inputs@.map_values(|x: TransactionInput| input_view(x));
    if segwit {
        i = 0;
        while i < ni
            invariant
                0 <= i <= ni,
                    s@.len() >= 5,
                segwit == (s@[4] == 0),
                segwit ==> s@.len() >= 6 && s@[5] == 1,
                start == (if segwit { 6usize } else { 4usize }),
                count_at(s@, start as int) == Some((ni as nat, at0 as int)),
                segwit,
                inputs_at(s@, at0 as int, ni as nat) == Some((ins_view, at1 as int)),
                count_at(s@, at1 as int) == Some((no as nat, at2 as int)),
                outputs_at(s@, at2 as int, no as nat) == Some((outputs@.map_values(|o: TransactionOutput| output_view(o)), at3 as int)),
                inputs@.len() == ni,
                inputs@.map_values(|x: TransactionInput| input_view(x)) == ins_view,
                witnesses_at(s@, at3 as int, i as nat) == Some((
                    Seq::new(i as nat, |k: int| inputs@[k].witness_view()),
                    p as int,
                )),
                forall|k: int| i <= k < inputs@.len() ==> (#[trigger] inputs@[k]).witness@.len() == 0,
            decreases ni - i,
        {
            let (w, q) = match read_witness(s, p) {
                Ok(v) => v,
                Err(e) => {
                    proof {
                        lemma_witnesses_none(s@, at3 as int, (i + 1) as nat, ni as nat);
                        assert(witnesses_at(s@, at3 as int, ni as nat) is None);
                        assert(segwit);
                        assert(tx_layout(s@) is None);
                    }
                    return Err(e);
                },
            };
            let ghost before = inputs@;
            inputs[i].witness = w;
            proof {
                assert forall|k: int| 0 <= k < inputs@.len() implies #[trigger] input_view(inputs@[k])
                    == input_view(before[k]) by {}
                assert(inputs@.map_values(|x: TransactionInput| input_view(x)) =~= ins_view);
                assert(Seq::new((i + 1) as nat, |k: int| inputs@[k].witness_view()) =~= Seq::new(
                    i as nat,
                    |k: int| before[k].witness_view(),
                ).push(w@.map_values(|x: Vec<u8>| x@)));
            }
            p = q;
            i = i + 1;
        }
    } else {
        proof {
            assert forall|k: int| 0 <= k < ni implies #[trigger] inputs@[k].witness_view() =~= Seq::<Seq<u8>>::empty() by {
                assert(inputs@[k].witness@.len() == 0);
            }
            assert(Seq::new(ni as nat, |k: int| inputs@[k].witness_view()) =~= Seq::new(
                ni as nat,
                |k: int| Seq::<Seq<u8>>::empty(),
            ));
        }
    }
    let at4 = p;
    if at4 > len || len - at4 != 4 {
        return Err(Error::MalformedTransaction);
    }
    let lock_time = read_u32_le(s, at4);
    let tx = Transaction { version, inputs, outputs, lock_time };
    proof {
        lemma_positions_ordered(s@, at0 as int, ni as nat);
        lemma_outputs_ordered(s@, at2 as int, no as nat);
        if segwit {
            lemma_witnesses_ordered(s@, at3 as int, ni as nat);
        }
    }
    proof {
        let v = tx_layout(s@)->0;
        assert(Seq::new(ni as nat, |k: int| tx.inputs@[k].witness_view()) == v.witnesses);
        assert forall|k: int| 0 <= k < v.inputs.len() implies #[trigger] input_view(tx.inputs@[k]) == v.inputs[k] by {
            assert(ins_view[k] == input_view(tx.inputs@[k]));
        }
        assert forall|k: int| 0 <= k < v.outputs.len() implies #[trigger] output_view(tx.outputs@[k]) == v.outputs[k] by {
            assert(tx.outputs@.map_values(|o: TransactionOutput| output_view(o))[k] == output_view(tx.outputs@[k]));
        }
    }
    Ok((tx, start, at3, at4))
}

proof fn lemma_varint_next(s: Seq<u8>, pos: int)
    ensures
        varint_at(s, pos) matches Some((v, p)) ==> p > pos && v >= 0,
        bytes_at(s, pos) matches Some((b, p)) ==> p > pos,
{
    if pos >= 0 && pos < s.len() && s[pos] >= 0xfd {
        let n: int = if s[pos] == 0xfd { 2 } else if s[pos] == 0xfe { 4 } else { 8 };
        if pos + 1 + n <= s.len() {
            lemma_le_value_bound(s.subrange(pos + 1, pos + 1 + n));
        }
    }
}

proof fn lemma_positions_ordered(s: Seq<u8>, pos: int, n: nat)
    ensures
        inputs_at(s, pos, n) matches Some((v, p)) ==> p >= pos,
    decreases n,
{
    if n > 0 {
        lemma_positions_ordered(s, pos, (n - 1) as nat);
        if let Some((v, p)) = inputs_at(s, pos, (n - 1) as nat) {
            lemma_varint_next(s, p + 36);
        }
    }
}

proof fn lemma_outputs_ordered(s: Seq<u8>, pos: int, n: nat)
    ensures
        outputs_at(s, pos, n) matches Some((v, p)) ==> p >= pos,
    decreases n,
{
    if n > 0 {
        lemma_outputs_ordered(s, pos, (n - 1) as nat);
        if let Some((v, p)) = outputs_at(s, pos, (n - 1) as nat) {
            lemma_varint_next(s, p + 8);
        }
    }
}

proof fn lemma_items_ordered(s: Seq<u8>, pos: int, n: nat)
    ensures
        items_at(s, pos, n) matches Some((v, p)) ==> p >= pos,
    decreases n,
{
    if n > 0 {
        lemma_items_ordered(s, pos, (n - 1) as nat);
        if let Some((v, p)) = items_at(s, pos, (n - 1) as nat) {
            lemma_varint_next(s, p);
        }
    }
}

proof fn lemma_witnesses_ordered(s: Seq<u8>, pos: int, n: nat)
    ensures
        witnesses_at(s, pos, n) matches Some((v, p)) ==> p >= pos,
    decreases n,
{
    if n > 0 {
        lemma_witnesses_ordered(s, pos, (n - 1) as nat);
        if let Some((v, p)) = witnesses_at(s, pos, (n - 1) as nat) {
            lemma_varint_next(s, p);
            if let Some((n2, at2)) = varint_at(s, p) {
                lemma_items_ordered(s, at2, n2 as nat);
            }
        }
    }
}

} // verus!
