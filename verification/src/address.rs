use vstd::prelude::*;
use vstd::std_specs::cmp::PartialEqSpecImpl;

verus! {

/// Number of bytes in an address.
pub const ADDRESS_LEN: usize = 32;

/// The address of an account: thirty-two bytes. The all-zero address names nobody
/// and marks an empty place wherever addresses are stored.
#[derive(Debug, Clone, Copy, Eq)]
pub struct Address {
    pub bytes: [u8; 32],
}

impl View for Address {
    type V = Seq<u8>;

    open spec fn view(&self) -> Seq<u8> {
        self.bytes@
    }
}

/// Whether every byte of a sequence is zero.
pub open spec fn all_zero(s: Seq<u8>) -> bool {
    forall|i: int| 0 <= i < s.len() ==> s[i] == 0u8
}

/// Two addresses with the same bytes are the same address.
pub proof fn lemma_address_ext(a: Address, b: Address)
    requires
        a@ == b@,
    ensures
        a == b,
{
    assert(a.bytes =~= b.bytes);
}

impl PartialEq for Address {
    fn eq(&self, other: &Address) -> (r: bool) {
        let mut i: usize = 0;
        while i < 32
            invariant
                i <= 32,
                forall|j: int| 0 <= j < i ==> self.bytes@[j] == other.bytes@[j],
            decreases 32 - i,
        {
            if self.bytes[i] != other.bytes[i] {
                return false;
            }
            i += 1;
        }
        assert(self.bytes@ =~= other.bytes@);
        true
    }
}

impl PartialEqSpecImpl for Address {
    open spec fn obeys_eq_spec() -> bool {
        true
    }

    open spec fn eq_spec(&self, other: &Address) -> bool {
        self@ == other@
    }
}

impl Default for Address {
    fn default() -> (a: Address)
        ensures
            all_zero(a@),
            a@.len() == 32,
    {
        Address { bytes: [0u8; 32] }
    }
}

impl Address {
    /// An address from its bytes.
    pub fn new(bytes: [u8; 32]) -> (a: Address)
        ensures
            a@ == bytes@,
            a.bytes == bytes,
    {
        Address { bytes }
    }

    /// The bytes of the address.
    pub fn to_bytes(&self) -> (b: [u8; 32])
        ensures
            b@ == self@,
    {
        self.bytes
    }

    /// Whether this is the all-zero address.
    pub fn is_zero(&self) -> (r: bool)
        ensures
            r == all_zero(self@),
    {
        let mut i: usize = 0;
        while i < 32
            invariant
                i <= 32,
                forall|j: int| 0 <= j < i ==> self.bytes@[j] == 0u8,
            decreases 32 - i,
        {
            if self.bytes[i] != 0 {
                return false;
            }
            i += 1;
        }
        true
    }

    /// Reads an address from the thirty-two bytes of `data` that start at `start`.
    pub fn read(data: &[u8], start: usize) -> (a: Address)
        requires
            start + 32 <= data@.len(),
        ensures
            a@ == data@.subrange(start as int, start + 32),
    {
        let n: usize = data.len();
        let mut bytes: [u8; 32] = [0u8; 32];
        let mut i: usize = 0;
        while i < 32
            invariant
                i <= 32,
                start + 32 <= data@.len(),
                n == data@.len(),
                forall|j: int| 0 <= j < i ==> bytes@[j] == data@[start + j],
            decreases 32 - i,
        {
            bytes[i] = data[start + i];
            i += 1;
        }
        assert(bytes@ =~= data@.subrange(start as int, start + 32));
        Address { bytes }
    }

    /// Whether the thirty-two bytes of `data` that start at `start` are this address.
    pub fn matches(&self, data: &[u8], start: usize) -> (r: bool)
        requires
            start + 32 <= data@.len(),
        ensures
            r == (self@ == data@.subrange(start as int, start + 32)),
    {
        let n: usize = data.len();
        let mut i: usize = 0;
        while i < 32
            invariant
                i <= 32,
                start + 32 <= data@.len(),
                n == data@.len(),
                forall|j: int| 0 <= j < i ==> self.bytes@[j] == data@[start + j],
            decreases 32 - i,
        {
            if self.bytes[i] != data[start + i] {
                assert(data@.subrange(start as int, start + 32)[i as int] == data@[start + i]);
                return false;
            }
            i += 1;
        }
        assert(self.bytes@ =~= data@.subrange(start as int, start + 32));
        true
    }
}

} // verus!
