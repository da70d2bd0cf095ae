//! Fixed-width identifiers and their big-endian byte forms.

use vstd::prelude::*;
use vstd::std_specs::cmp::PartialEqSpecImpl;

verus! {

/// The 32-byte big-endian form of `bytes`: zeros on the left, `bytes` on the right.
pub open spec fn left_pad_32(bytes: Seq<u8>) -> Seq<u8>
    recommends
        bytes.len() <= 32,
{
    Seq::new((32 - bytes.len()) as nat, |i: int| 0u8) + bytes
}

/// The number that `bytes` is in big-endian notation.
pub open spec fn be_value(bytes: Seq<u8>) -> nat
    decreases bytes.len(),
{
    if bytes.len() == 0 {
        0
    } else {
        be_value(bytes.drop_last()) * 256 + bytes.last() as nat
    }
}

/// The eight bytes of `v`, most significant first.
pub open spec fn u64_be_bytes(v: u64) -> Seq<u8> {
    seq![
        (v / 0x100_0000_0000_0000) as u8,
        ((v / 0x1_0000_0000_0000) % 256) as u8,
        ((v / 0x100_0000_0000) % 256) as u8,
        ((v / 0x1_0000_0000) % 256) as u8,
        ((v / 0x100_0000) % 256) as u8,
        ((v / 0x1_0000) % 256) as u8,
        ((v / 0x100) % 256) as u8,
        (v % 256) as u8,
    ]
}

/// The bytes of [`u64_be_bytes`] are the big-endian notation of `v`: there
/// are eight of them and the number that they are is `v`.
pub proof fn lemma_u64_be_bytes(v: u64)
    ensures
        u64_be_bytes(v).len() == 8,
        be_value(u64_be_bytes(v)) == v,
{
    let b = u64_be_bytes(v);
    assert(v == (v / 0x100_0000_0000_0000) * 0x100_0000_0000_0000 + ((v / 0x1_0000_0000_0000) % 256)
        * 0x1_0000_0000_0000 + ((v / 0x100_0000_0000) % 256) * 0x100_0000_0000 + ((v
        / 0x1_0000_0000) % 256) * 0x1_0000_0000 + ((v / 0x100_0000) % 256) * 0x100_0000 + ((v
        / 0x1_0000) % 256) * 0x1_0000 + ((v / 0x100) % 256) * 0x100 + (v % 256)) by (bit_vector);
    assert(v / 0x100_0000_0000_0000 < 256) by (bit_vector);
    let front8 = b;
    let front7 = front8.drop_last();
    let front6 = front7.drop_last();
    let front5 = front6.drop_last();
    let front4 = front5.drop_last();
    let front3 = front4.drop_last();
    let front2 = front3.drop_last();
    let front1 = front2.drop_last();
    let front0 = front1.drop_last();
    assert(front0.len() == 0);
    assert(be_value(front0) == 0);
    assert(be_value(front1) == be_value(front0) * 256 + b[0]);
    assert(be_value(front2) == be_value(front1) * 256 + b[1]);
    assert(be_value(front3) == be_value(front2) * 256 + b[2]);
    assert(be_value(front4) == be_value(front3) * 256 + b[3]);
    assert(be_value(front5) == be_value(front4) * 256 + b[4]);
    assert(be_value(front6) == be_value(front5) * 256 + b[5]);
    assert(be_value(front7) == be_value(front6) * 256 + b[6]);
    assert(be_value(front8) == be_value(front7) * 256 + b[7]);
}

/// Writes `v` as eight big-endian bytes.
pub fn u64_to_be_bytes(v: u64) -> (out: [u8; 8])
    ensures
        out@ == u64_be_bytes(v),
        be_value(out@) == v,
{
    proof {
        lemma_u64_be_bytes(v);
    }
    let out: [u8; 8] = [
        (v / 0x100_0000_0000_0000) as u8,
        ((v / 0x1_0000_0000_0000) % 256) as u8,
        ((v / 0x100_0000_0000) % 256) as u8,
        ((v / 0x1_0000_0000) % 256) as u8,
        ((v / 0x100_0000) % 256) as u8,
        ((v / 0x1_0000) % 256) as u8,
        ((v / 0x100) % 256) as u8,
        (v % 256) as u8,
    ];
    assert(out@ =~= u64_be_bytes(v));
    out
}

/// A 256-bit unsigned integer, held as 32 big-endian bytes.
#[derive(Clone, Copy, Debug, Eq, Hash)]
pub struct U256 {
    pub bytes: [u8; 32],
}

impl View for U256 {
    type V = Seq<u8>;

    open spec fn view(&self) -> Seq<u8> {
        self.bytes@
    }
}

impl PartialEq for U256 {
    fn eq(&self, other: &U256) -> (r: bool) {
        let mut i: usize = 0;
        while i < 32
            invariant
                i <= 32,
                forall|j: int| 0 <= j < i ==> self.bytes@[j] == other.bytes@[j],
            decreases 32 - i,
        {
            if self.bytes[i] != other.bytes[i] {
                return false;
            }
            i = i + 1;
        }
        assert(self.bytes =~= other.bytes);
        true
    }
}

impl PartialEqSpecImpl for U256 {
    open spec fn obeys_eq_spec() -> bool {
        true
    }

    open spec fn eq_spec(&self, other: &U256) -> bool {
        *self == *other
    }
}

impl U256 {
    /// The value zero.
    pub fn zero() -> (r: U256)
        ensures
            r@ == left_pad_32(Seq::<u8>::empty()),
    {
        let r = U256 { bytes: [0u8; 32] };
        assert(r@ =~= left_pad_32(Seq::<u8>::empty()));
        r
    }

    /// Reads a big-endian integer of at most 32 bytes.
    pub fn from_big_endian(slice: &[u8]) -> (r: U256)
        requires
            slice@.len() <= 32,
        ensures
            r@ == left_pad_32(slice@),
    {
        let mut out = [0u8; 32];
        let n = slice.len();
        let mut i: usize = 0;
        while i < n
            invariant
                n == slice@.len(),
                n <= 32,
                i <= n,
                forall|j: int| 0 <= j < 32 - n ==> out@[j] == 0u8,
                forall|j: int| 32 - n <= j < 32 - n + i ==> out@[j] == slice@[j - (32 - n)],
            decreases n - i,
        {
            out[32 - n + i] = slice[i];
            i = i + 1;
        }
        let r = U256 { bytes: out };
        assert(r@ =~= left_pad_32(slice@));
        r
    }

    /// The integer `v`.
    pub fn from_u64(v: u64) -> (r: U256)
        ensures
            r@ == left_pad_32(u64_be_bytes(v)),
    {
        let b = u64_to_be_bytes(v);
        U256::from_big_endian(b.as_slice())
    }

    /// The 32 big-endian bytes of the value.
    pub fn to_big_endian(&self) -> (out: Vec<u8>)
        ensures
            out@ == self@,
    {
        let mut out: Vec<u8> = Vec::new();
        let mut i: usize = 0;
        while i < 32
            invariant
                i <= 32,
                out@ == self@.subrange(0, i as int),
            decreases 32 - i,
        {
            out.push(self.bytes[i]);
            assert(out@ =~= self@.subrange(0, i + 1));
            i = i + 1;
        }
        assert(out@ =~= self@);
        out
    }
}

/// A 20-byte account or contract address.
#[derive(Clone, Copy, Debug, Eq, Hash)]
pub struct Address {
    pub bytes: [u8; 20],
}

impl View for Address {
    type V = Seq<u8>;

    open spec fn view(&self) -> Seq<u8> {
        self.bytes@
    }
}

impl PartialEq for Address {
    fn eq(&self, other: &Address) -> (r: bool) {
        let mut i: usize = 0;
        while i < 20
            invariant
                i <= 20,
                forall|j: int| 0 <= j < i ==> self.bytes@[j] == other.bytes@[j],
            decreases 20 - i,
        {
            if self.bytes[i] != other.bytes[i] {
                return false;
            }
            i = i + 1;
        }
        assert(self.bytes =~= other.bytes);
        true
    }
}

impl PartialEqSpecImpl for Address {
    open spec fn obeys_eq_spec() -> bool {
        true
    }

    open spec fn eq_spec(&self, other: &Address) -> bool {
        *self == *other
    }
}

impl Address {
    /// Reads an address from exactly 20 bytes; `None` for any other length.
    pub fn from_slice(slice: &[u8]) -> (r: Option<Address>)
        ensures
            r is Some <==> slice@.len() == 20,
            r matches Some(a) ==> a@ == slice@,
    {
        if slice.len() != 20 {
            return None;
        }
        let mut out = [0u8; 20];
        let mut i: usize = 0;
        while i < 20
            invariant
                slice@.len() == 20,
                i <= 20,
                forall|j: int| 0 <= j < i ==> out@[j] == slice@[j],
            decreases 20 - i,
        {
            out[i] = slice[i];
            i = i + 1;
        }
        let a = Address { bytes: out };
        assert(a@ =~= slice@);
        Some(a)
    }
}

} // verus!
