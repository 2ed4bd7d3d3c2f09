//! Fixed-width values shared by the codec and the chain store.
use vstd::prelude::*;

verus! {

/// A 256-bit hash as 32 bytes, least significant byte first.
#[derive(Clone, Copy, Debug)]
pub struct H256Le {
    pub content: [u8; 32],
}

impl View for H256Le {
    type V = Seq<u8>;

    open spec fn view(&self) -> Seq<u8> {
        self.content@
    }
}

impl PartialEq for H256Le {
    fn eq(&self, o: &H256Le) -> (r: bool) {
        let mut i: usize = 0;
        while i < 32
            invariant
                0 <= i <= 32,
                forall|k: int| 0 <= k < i ==> self.content@[k] == o.content@[k],
            decreases 32 - i,
        {
            if self.content[i] != o.content[i] {
                return false;
            }
            i = i + 1;
        }
        proof {
            assert(self.content@ =~= o.content@);
        }
        true
    }
}

impl vstd::std_specs::cmp::PartialEqSpecImpl for H256Le {
    open spec fn obeys_eq_spec() -> bool {
        true
    }

    open spec fn eq_spec(&self, o: &H256Le) -> bool {
        self.content@ == o.content@
    }
}

impl H256Le {
    /// The all-zero hash.
    pub fn zero() -> (r: H256Le)
        ensures
            r@ == Seq::new(32, |i: int| 0u8),
    {
        let r = H256Le { content: [0u8; 32] };
        proof {
            assert(r@ =~= Seq::new(32, |i: int| 0u8));
        }
        r
    }

    /// Builds a hash from exactly 32 bytes.
    pub fn from_bytes_le(bytes: &[u8]) -> (r: H256Le)
        requires
            bytes@.len() == 32,
        ensures
            r@ == bytes@,
    {
        let mut content = [0u8; 32];
        let mut i: usize = 0;
        while i < 32
            invariant
                0 <= i <= 32,
                bytes@.len() == 32,
                content@.len() == 32,
                forall|k: int| 0 <= k < i ==> content@[k] == bytes@[k],
            decreases 32 - i,
        {
            content[i] = bytes[i];
            i = i + 1;
        }
        proof {
            assert(content@ =~= bytes@);
        }
        H256Le { content }
    }
}

/// The number 2^64.
pub open spec fn word() -> int {
    0x1_0000_0000_0000_0000
}

/// An unsigned 256-bit integer as four 64-bit words, least significant first.
#[derive(Clone, Copy, Debug)]
pub struct U256 {
    pub w: [u64; 4],
}

impl U256 {
    pub open spec fn value(&self) -> int {
        self.w@[0] as int + word() * (self.w@[1] as int + word() * (self.w@[2] as int + word()
            * (self.w@[3] as int)))
    }

    pub fn from_u64(x: u64) -> (r: U256)
        ensures
            r.value() == x,
    {
        U256 { w: [x, 0, 0, 0] }
    }
}

/// 2^256, one past the largest value a `U256` holds.
pub open spec fn two_256() -> int {
    word() * word() * word() * word()
}

/// The integer that bytes encode least significant first.
pub open spec fn le_value(s: Seq<u8>) -> int
    decreases s.len(),
{
    if s.len() == 0 {
        0
    } else {
        s[0] as int + 256 * le_value(s.drop_first())
    }
}

/// Every `U256` lies in `[0, 2^256)`.
pub proof fn lemma_u256_bounds(a: U256)
    ensures
        0 <= a.value() < two_256(),
{
    let w0 = a.w@[0] as int;
    let w1 = a.w@[1] as int;
    let w2 = a.w@[2] as int;
    let w3 = a.w@[3] as int;
    let b = word();
    assert(0 <= w2 + b * w3 < b * b) by (nonlinear_arith)
        requires
            0 <= w2 < b,
            0 <= w3 < b,
            b == word(),
    ;
    assert(0 <= w1 + b * (w2 + b * w3) < b * b * b) by (nonlinear_arith)
        requires
            0 <= w1 < b,
            0 <= w2 + b * w3 < b * b,
            b == word(),
    ;
    assert(0 <= w0 + b * (w1 + b * (w2 + b * w3)) < b * b * b * b) by (nonlinear_arith)
        requires
            0 <= w0 < b,
            0 <= w1 + b * (w2 + b * w3) < b * b * b,
            b == word(),
    ;
}

/// Relies on primitive_types::U256::from_little_endian: the bytes read least significant first.
#[verifier::external_body]
pub(crate) fn u256_from_le_bytes(b: &[u8; 32]) -> (r: U256)
    ensures
        r.value() == le_value(b@),
{
    U256 { w: primitive_types::U256::from_little_endian(&b[..]).0 }
}

/// Relies on primitive_types::U256::checked_mul: the product, or `None` where it needs more than 256 bits.
#[verifier::external_body]
pub(crate) fn u256_checked_mul(a: U256, b: U256) -> (r: Option<U256>)
    ensures
        r matches Some(p) ==> p.value() == a.value() * b.value(),
        r is None <==> a.value() * b.value() >= two_256(),
{
    match primitive_types::U256(a.w).checked_mul(primitive_types::U256(b.w)) {
        Some(p) => Some(U256 { w: p.0 }),
        None => None,
    }
}

/// Relies on primitive_types::U256's `/`: the quotient rounded down.
#[verifier::external_body]
pub(crate) fn u256_div(a: U256, b: U256) -> (r: U256)
    requires
        b.value() > 0,
    ensures
        r.value() == a.value() / b.value(),
{
    U256 { w: (primitive_types::U256(a.w) / primitive_types::U256(b.w)).0 }
}

/// Relies on primitive_types::U256's `<`, which compares the numbers.
#[verifier::external_body]
pub(crate) fn u256_lt(a: &U256, b: &U256) -> (r: bool)
    ensures
        r == (a.value() < b.value()),
{
    primitive_types::U256(a.w) < primitive_types::U256(b.w)
}

impl U256 {
    /// Whether two numbers are equal.
    pub fn same_value(&self, o: &U256) -> (r: bool)
        ensures
            r == (self.value() == o.value()),
    {
        !u256_lt(self, o) && !u256_lt(o, self)
    }
}

} // verus!
