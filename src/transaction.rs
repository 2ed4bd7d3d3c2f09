//! Bitcoin transactions, their output scripts and the addresses they pay to.
use vstd::prelude::*;
use crate::error::Error;
use crate::hashing::{hash160, hash160_of};
use crate::types::H256Le;

verus! {

pub const OP_DUP: u8 = 0x76;
pub const OP_HASH160: u8 = 0xa9;
pub const OP_EQUALVERIFY: u8 = 0x88;
pub const OP_CHECKSIG: u8 = 0xac;
pub const OP_EQUAL: u8 = 0x87;
pub const OP_0: u8 = 0x00;
pub const OP_RETURN: u8 = 0x6a;

/// The largest OP_RETURN script that is relayed as standard.
pub const MAX_OPRETURN_SIZE: usize = 83;

/// Kinds of address.
pub const P2PKH: u8 = 0;
pub const P2SH: u8 = 1;
pub const P2WPKH_V0: u8 = 2;
pub const P2WSH_V0: u8 = 3;

/// A Bitcoin address: its kind and the hash it commits to (20 bytes, or 32 for a
/// witness script hash).
#[derive(Clone, Debug)]
pub struct Address {
    pub kind: u8,
    pub hash: Vec<u8>,
}

impl View for Address {
    type V = (u8, Seq<u8>);

    open spec fn view(&self) -> (u8, Seq<u8>) {
        (self.kind, self.hash@)
    }
}

/// Whether two byte strings are equal.
pub fn bytes_eq(a: &[u8], b: &[u8]) -> (r: bool)
    ensures
        r == (a@ == b@),
{
    if a.len() != b.len() {
        return false;
    }
    let mut i: usize = 0;
    while i < a.len()
        invariant
            0 <= i <= a@.len(),
            a@.len() == b@.len(),
            forall|k: int| 0 <= k < i ==> a@[k] == b@[k],
        decreases a@.len() - i,
    {
        if a[i] != b[i] {
            return false;
        }
        i = i + 1;
    }
    proof {
        assert(a@ =~= b@);
    }
    true
}

/// Copies `s[from..to]`.
pub fn copy_range(s: &[u8], from: usize, to: usize) -> (r: Vec<u8>)
    requires
        from <= to <= s@.len(),
    ensures
        r@ == s@.subrange(from as int, to as int),
{
    let mut r: Vec<u8> = Vec::new();
    let mut i = from;
    while i < to
        invariant
            from <= i <= to,
            to <= s@.len(),
            r@ == s@.subrange(from as int, i as int),
        decreases to - i,
    {
        r.push(s[i]);
        proof {
            assert(s@.subrange(from as int, i + 1) =~= s@.subrange(from as int, i as int).push(
                s@[i as int],
            ));
        }
        i = i + 1;
    }
    r
}

impl Address {
    /// Whether two addresses are equal.
    pub fn same(&self, o: &Address) -> (r: bool)
        ensures
            r == (self@ == o@),
    {
        self.kind == o.kind && bytes_eq(self.hash.as_slice(), o.hash.as_slice())
    }
}

/// The address that an output script pays to, where the script has one of the
/// standard forms.
pub open spec fn script_address(s: Seq<u8>) -> Option<(u8, Seq<u8>)> {
    if s.len() == 25 && s[0] == OP_DUP && s[1] == OP_HASH160 && s[2] == 20 && s[23]
        == OP_EQUALVERIFY && s[24] == OP_CHECKSIG {
        Some((P2PKH, s.subrange(3, 23)))
    } else if s.len() == 23 && s[0] == OP_HASH160 && s[1] == 20 && s[22] == OP_EQUAL {
        Some((P2SH, s.subrange(2, 22)))
    } else if s.len() == 22 && s[0] == OP_0 && s[1] == 20 {
        Some((P2WPKH_V0, s.subrange(2, 22)))
    } else if s.len() == 34 && s[0] == OP_0 && s[1] == 32 {
        Some((P2WSH_V0, s.subrange(2, 34)))
    } else {
        None
    }
}

/// The data that an OP_RETURN script carries: `OP_RETURN <n> <n bytes>`, at most
/// `MAX_OPRETURN_SIZE` bytes in all.
pub open spec fn script_op_return(s: Seq<u8>) -> Option<Seq<u8>> {
    if 2 <= s.len() <= MAX_OPRETURN_SIZE && s[0] == OP_RETURN && s[1] == s.len() - 2 {
        Some(s.subrange(2, s.len() as int))
    } else {
        None
    }
}

/// The address an output script pays to.
pub fn extract_script_address(script: &[u8]) -> (r: Result<Address, Error>)
    ensures
        r matches Ok(a) ==> script_address(script@) == Some(a@),
        r is Err <==> script_address(script@) is None,
        r matches Err(e) ==> e == Error::UnsupportedOutputFormat,
{
    let n = script.len();
    if n == 25 && script[0] == OP_DUP && script[1] == OP_HASH160 && script[2] == 20 && script[23]
        == OP_EQUALVERIFY && script[24] == OP_CHECKSIG {
        Ok(Address { kind: P2PKH, hash: copy_range(script, 3, 23) })
    } else if n == 23 && script[0] == OP_HASH160 && script[1] == 20 && script[22] == OP_EQUAL {
        Ok(Address { kind: P2SH, hash: copy_range(script, 2, 22) })
    } else if n == 22 && script[0] == OP_0 && script[1] == 20 {
        Ok(Address { kind: P2WPKH_V0, hash: copy_range(script, 2, 22) })
    } else if n == 34 && script[0] == OP_0 && script[1] == 32 {
        Ok(Address { kind: P2WSH_V0, hash: copy_range(script, 2, 34) })
    } else {
        Err(Error::UnsupportedOutputFormat)
    }
}

/// The data an OP_RETURN script carries.
pub fn extract_op_return_data(script: &[u8]) -> (r: Result<Vec<u8>, Error>)
    ensures
        r matches Ok(d) ==> script_op_return(script@) == Some(d@),
        r is Err <==> script_op_return(script@) is None,
        r matches Err(e) ==> e == Error::MalformedOpReturnOutput,
{
    let n = script.len();
    if 2 <= n && n <= MAX_OPRETURN_SIZE && script[0] == OP_RETURN && script[1] as usize == n - 2 {
        Ok(copy_range(script, 2, n))
    } else {
        Err(Error::MalformedOpReturnOutput)
    }
}

/// A transaction input.
#[derive(Clone, Debug)]
pub struct TransactionInput {
    pub previous_hash: H256Le,
    pub previous_index: u32,
    pub script: Vec<u8>,
    pub sequence: u32,
    /// The witness stack; empty for an input without one.
    pub witness: Vec<Vec<u8>>,
}

/// A transaction output: a value in satoshi and the script that locks it.
#[derive(Clone, Debug)]
pub struct TransactionOutput {
    pub value: i64,
    pub script: Vec<u8>,
}

/// A parsed transaction.
#[derive(Clone, Debug)]
pub struct Transaction {
    pub version: i32,
    pub inputs: Vec<TransactionInput>,
    pub outputs: Vec<TransactionOutput>,
    pub lock_time: u32,
}

/// Length of a compressed public key.
pub const PUBLIC_KEY_SIZE: usize = 33;

/// Length of an uncompressed public key.
pub const UNCOMPRESSED_PUBLIC_KEY_SIZE: usize = 65;

/// The public key at the end of a P2PKH signature script `<n> <signature> <m> <key>`.
pub open spec fn script_sig_key(s: Seq<u8>) -> Option<Seq<u8>> {
    if s.len() >= 1 && s[0] >= 1 && s[0] <= 75 && s.len() >= s[0] + 2 {
        let k = s[0] + 1;
        let m = s[k as int];
        if (m == PUBLIC_KEY_SIZE || m == UNCOMPRESSED_PUBLIC_KEY_SIZE) && s.len() == k + 1 + m {
            Some(s.subrange(k + 1, s.len() as int))
        } else {
            None
        }
    } else {
        None
    }
}

/// The address that an input spends from: for a witness input `[signature, key]` the
/// P2WPKH address of the key, or the P2SH address of the redeem script where the
/// signature script pushes one; for a signature script `<signature> <key>` the
/// P2PKH address of the key.
pub open spec fn input_address(witness: Seq<Seq<u8>>, script: Seq<u8>) -> Option<(u8, Seq<u8>)> {
    if witness.len() == 2 && witness[1].len() == PUBLIC_KEY_SIZE {
        if script.len() == 0 {
            Some((P2WPKH_V0, hash160_of(witness[1])))
        } else if script.len() >= 2 && script[0] == script.len() - 1 {
            Some((P2SH, hash160_of(script.subrange(1, script.len() as int))))
        } else {
            None
        }
    } else {
        match script_sig_key(script) {
            Some(key) => Some((P2PKH, hash160_of(key))),
            None => None,
        }
    }
}

impl TransactionInput {
    pub open spec fn witness_view(&self) -> Seq<Seq<u8>> {
        self.witness@.map_values(|w: Vec<u8>| w@)
    }

    /// The address this input spends from.
    pub fn extract_address(&self) -> (r: Result<Address, Error>)
        ensures
            r matches Ok(a) ==> input_address(self.witness_view(), self.script@) == Some(a@),
            r is Err <==> input_address(self.witness_view(), self.script@) is None,
            r matches Err(e) ==> e == Error::UnsupportedInputFormat,
    {
        let s = self.script.as_slice();
        let n = s.len();
        if self.witness.len() == 2 && self.witness[1].len() == PUBLIC_KEY_SIZE {
            proof {
                assert(self.witness_view()[1] == self.witness@[1]@);
            }
            if n == 0 {
                return Ok(Address { kind: P2WPKH_V0, hash: copy_range(hash160(self.witness[1].as_slice()).as_slice(), 0, 20) });
            } else if n >= 2 && s[0] as usize == n - 1 {
                let redeem = copy_range(s, 1, n);
                return Ok(Address { kind: P2SH, hash: copy_range(hash160(redeem.as_slice()).as_slice(), 0, 20) });
            } else {
                return Err(Error::UnsupportedInputFormat);
            }
        }
        if n >= 1 && s[0] >= 1 && s[0] <= 75 && n >= s[0] as usize + 2 {
            let k = s[0] as usize + 1;
            let m = s[k] as usize;
            if (m == PUBLIC_KEY_SIZE || m == UNCOMPRESSED_PUBLIC_KEY_SIZE) && n == k + 1 + m {
                let key = copy_range(s, k + 1, n);
                return Ok(Address { kind: P2PKH, hash: copy_range(hash160(key.as_slice()).as_slice(), 0, 20) });
            }
        }
        Err(Error::UnsupportedInputFormat)
    }
}

impl TransactionOutput {
    /// The address this output pays to.
    pub fn extract_address(&self) -> (r: Result<Address, Error>)
        ensures
            r matches Ok(a) ==> script_address(self.script@) == Some(a@),
            r is Err <==> script_address(self.script@) is None,
    {
        extract_script_address(self.script.as_slice())
    }
}

} // verus!
