use vstd::prelude::*;
use vstd::std_specs::bits::u8_leading_zeros;
use crate::encoding::{blake3_digest, blake3_of, hex_decode, hex_encode, hex_spells, is_lower_hex_char, lemma_hex_spells_unique};
use crate::keys::PublicKey;

verus! {

broadcast use vstd::std_specs::bits::axiom_u8_leading_zeros, vstd::array::axiom_array_ext_equal;

/// Identifier of a node: the BLAKE3 digest of its public key.
#[derive(Debug, Clone, Copy, Eq, Hash, PartialOrd, Ord)]
pub struct NodeId(pub [u8; 32]);

/// Compares two 32-byte strings.
pub fn bytes32_equal(a: &[u8; 32], b: &[u8; 32]) -> (r: bool)
    ensures
        r == (*a == *b),
{
    let mut i: usize = 0;
    while i < 32
        invariant
            0 <= i <= 32,
            forall|j: int| 0 <= j < i ==> a@[j] == b@[j],
        decreases 32 - i,
    {
        if a[i] != b[i] {
            return false;
        }
        i = i + 1;
    }
    assert(*a =~= *b);
    true
}

impl PartialEq for NodeId {
    fn eq(&self, other: &NodeId) -> (r: bool) {
        bytes32_equal(&self.0, &other.0)
    }
}

impl vstd::std_specs::cmp::PartialEqSpecImpl for NodeId {
    open spec fn obeys_eq_spec() -> bool {
        true
    }

    open spec fn eq_spec(&self, other: &NodeId) -> bool {
        *self == *other
    }
}

/// Bytes of the XOR of two 32-byte strings.
pub open spec fn xor_bytes(a: Seq<u8>, b: Seq<u8>) -> Seq<u8> {
    Seq::new(32, |i: int| a[i] ^ b[i])
}

/// Big-endian value of a byte string.
pub open spec fn be_value(s: Seq<u8>) -> nat
    decreases s.len(),
{
    if s.len() == 0 {
        0
    } else {
        be_value(s.drop_last()) * 256 + s.last() as nat
    }
}

/// Leading zero bits of `s` from byte `i` on.
pub open spec fn leading_zero_bits_from(s: Seq<u8>, i: int) -> nat
    decreases s.len() - i,
{
    if i < 0 || i >= s.len() {
        0
    } else if s[i] == 0 {
        8 + leading_zero_bits_from(s, i + 1)
    } else {
        u8_leading_zeros(s[i]) as nat
    }
}

/// Leading zero bits of a byte string read as a big-endian number.
pub open spec fn leading_zero_bits(s: Seq<u8>) -> nat {
    leading_zero_bits_from(s, 0)
}

pub proof fn lemma_leading_zero_bits_bound(s: Seq<u8>, i: int)
    requires
        0 <= i <= s.len(),
    ensures
        leading_zero_bits_from(s, i) <= 8 * (s.len() - i),
    decreases s.len() - i,
{
    if i < s.len() {
        lemma_leading_zero_bits_bound(s, i + 1);
    }
}

/// Counts the leading zero bits of `bytes`.
pub fn count_leading_zero_bits(bytes: &[u8; 32]) -> (r: u32)
    ensures
        r == leading_zero_bits(bytes@),
        r <= 256,
{
    let mut count: u32 = 0;
    let mut i: usize = 0;
    proof {
        lemma_leading_zero_bits_bound(bytes@, 0);
    }
    while i < 32
        invariant
            0 <= i <= 32,
            bytes@.len() == 32,
            count == 8 * i,
            count + leading_zero_bits_from(bytes@, i as int) == leading_zero_bits(bytes@),
        decreases 32 - i,
    {
        let zeros = bytes[i].leading_zeros();
        if zeros < 8 {
            return count + zeros;
        }
        count = count + 8;
        i = i + 1;
    }
    count
}

impl NodeId {
    /// The identifier that belongs to `public_key`.
    pub fn from_public_key(public_key: &PublicKey) -> (r: NodeId)
        ensures
            r.0@ == blake3_of(public_key.bytes@),
    {
        NodeId(blake3_digest(&public_key.bytes))
    }

    pub fn from_bytes(bytes: [u8; 32]) -> (r: NodeId)
        ensures
            r.0 == bytes,
    {
        NodeId(bytes)
    }

    pub fn as_bytes(&self) -> (r: &[u8; 32])
        ensures
            *r == self.0,
    {
        &self.0
    }

    /// Lower-case hexadecimal text of the identifier.
    pub fn to_hex(&self) -> (r: String)
        ensures
            hex_spells(r@, self.0@),
            forall|i: int| 0 <= i < r@.len() ==> is_lower_hex_char(#[trigger] r@[i]),
    {
        hex_encode(&self.0)
    }

    /// Reads an identifier from 64 hex digits of either case.
    pub fn from_hex(s: &str) -> (r: Result<NodeId, NodeIdError>)
        ensures
            (exists|b: Seq<u8>| b.len() == 32 && hex_spells(s@, b)) <==> r is Ok,
            r matches Ok(id) ==> hex_spells(s@, id.0@),
            r matches Err(e) ==> (e == NodeIdError::InvalidHex <==> !crate::encoding::is_hex_text(s@)),
    {
        let decoded = hex_decode(s);
        match decoded {
            None => {
                proof {
                    assert forall|b: Seq<u8>| b.len() == 32 implies !hex_spells(s@, b) by {}
                }
                Err(NodeIdError::InvalidHex)
            },
            Some(v) => {
                if v.len() != 32 {
                    proof {
                        assert forall|b: Seq<u8>| b.len() == 32 implies !hex_spells(s@, b) by {
                            if hex_spells(s@, b) {
                                lemma_hex_spells_unique(s@, b, v@);
                            }
                        }
                    }
                    return Err(NodeIdError::InvalidLength);
                }
                let mut array = [0u8; 32];
                let mut i: usize = 0;
                while i < 32
                    invariant
                        0 <= i <= 32,
                        v@.len() == 32,
                        forall|j: int| 0 <= j < i ==> array@[j] == v@[j],
                    decreases 32 - i,
                {
                    array[i] = v[i];
                    i = i + 1;
                }
                assert(array@ =~= v@);
                Ok(NodeId(array))
            },
        }
    }

    /// XOR distance to `other`.
    pub fn distance(&self, other: &NodeId) -> (r: Distance)
        ensures
            r.0@ == xor_bytes(self.0@, other.0@),
    {
        let mut result = [0u8; 32];
        let mut i: usize = 0;
        while i < 32
            invariant
                0 <= i <= 32,
                forall|j: int| 0 <= j < i ==> result@[j] == self.0@[j] ^ other.0@[j],
            decreases 32 - i,
        {
            result[i] = self.0[i] ^ other.0[i];
            i = i + 1;
        }
        assert(result@ =~= xor_bytes(self.0@, other.0@));
        Distance(result)
    }

    /// Lower-case hex of the first 8 bytes.
    pub fn short_hex(&self) -> (r: String)
        ensures
            hex_spells(r@, self.0@.subrange(0, 8)),
    {
        let head: &[u8] = &self.0[0..8];
        hex_encode(head)
    }
}

/// XOR distance between two identifiers, ordered as a big-endian number.
#[derive(Debug, Clone, Copy, Eq, PartialOrd, Ord)]
pub struct Distance(pub [u8; 32]);

impl PartialEq for Distance {
    fn eq(&self, other: &Distance) -> (r: bool) {
        bytes32_equal(&self.0, &other.0)
    }
}

impl vstd::std_specs::cmp::PartialEqSpecImpl for Distance {
    open spec fn obeys_eq_spec() -> bool {
        true
    }

    open spec fn eq_spec(&self, other: &Distance) -> bool {
        *self == *other
    }
}

impl Distance {
    pub open spec fn value(&self) -> nat {
        be_value(self.0@)
    }

    pub fn as_bytes(&self) -> (r: &[u8; 32])
        ensures
            *r == self.0,
    {
        &self.0
    }

    /// Number of leading zero bits, 256 for the zero distance.
    pub fn leading_zeros(&self) -> (r: u32)
        ensures
            r == leading_zero_bits(self.0@),
            r <= 256,
    {
        count_leading_zero_bits(&self.0)
    }

    /// `self` is strictly smaller than `other` as a big-endian number.
    pub fn is_less_than(&self, other: &Distance) -> (r: bool)
        ensures
            r == (self.value() < other.value()),
    {
        let mut i: usize = 0;
        while i < 32
            invariant
                0 <= i <= 32,
                forall|j: int| 0 <= j < i ==> self.0@[j] == other.0@[j],
            decreases 32 - i,
        {
            if self.0[i] != other.0[i] {
                proof {
                    lemma_first_difference_orders(self.0@, other.0@, i as int);
                }
                return self.0[i] < other.0[i];
            }
            i = i + 1;
        }
        assert(self.0@ =~= other.0@);
        false
    }
}

/// Of two byte strings of one length that agree before index `k` and differ
/// at `k`, the one with the smaller byte there is the smaller number.
pub proof fn lemma_first_difference_orders(s: Seq<u8>, t: Seq<u8>, k: int)
    requires
        s.len() == t.len(),
        0 <= k < s.len(),
        forall|j: int| 0 <= j < k ==> s[j] == t[j],
        s[k] != t[k],
    ensures
        s[k] < t[k] ==> be_value(s) < be_value(t),
        s[k] > t[k] ==> be_value(t) < be_value(s),
    decreases s.len(),
{
    let n = s.len();
    if k == n - 1 {
        assert(s.drop_last() =~= t.drop_last());
    } else {
        lemma_first_difference_orders(s.drop_last(), t.drop_last(), k);
        let a = be_value(s.drop_last());
        let b = be_value(t.drop_last());
        let x = s.last() as nat;
        let y = t.last() as nat;
        assert(a < b ==> a * 256 + x < b * 256 + y) by (nonlinear_arith)
            requires
                x < 256,
                y < 256,
        ;
        assert(b < a ==> b * 256 + y < a * 256 + x) by (nonlinear_arith)
            requires
                x < 256,
                y < 256,
        ;
    }
}

/// XOR distance is symmetric, and zero from an identifier to itself.
pub proof fn lemma_distance_symmetric(a: NodeId, b: NodeId)
    ensures
        xor_bytes(a.0@, b.0@) == xor_bytes(b.0@, a.0@),
        forall|i: int| 0 <= i < 32 ==> #[trigger] xor_bytes(a.0@, a.0@)[i] == 0,
{
    assert forall|i: int| 0 <= i < 32 implies #[trigger] xor_bytes(a.0@, b.0@)[i] == xor_bytes(
        b.0@,
        a.0@,
    )[i] by {
        let x = a.0@[i];
        let y = b.0@[i];
        assert(x ^ y == y ^ x) by (bit_vector);
    }
    assert(xor_bytes(a.0@, b.0@) =~= xor_bytes(b.0@, a.0@));
    assert forall|i: int| 0 <= i < 32 implies #[trigger] xor_bytes(a.0@, a.0@)[i] == 0 by {
        let x = a.0@[i];
        assert(x ^ x == 0) by (bit_vector);
    }
}

/// Hex text of an identifier reads back as the same identifier.
pub proof fn lemma_hex_round_trip(id: NodeId, s: Seq<char>, back: NodeId)
    requires
        hex_spells(s, id.0@),
        hex_spells(s, back.0@),
    ensures
        back == id,
{
    lemma_hex_spells_unique(s, id.0@, back.0@);
    assert(back.0 == id.0);
}

/// Errors of reading an identifier from text.
#[derive(Debug, Clone, Copy, PartialEq, Eq, Structural)]
pub enum NodeIdError {
    InvalidHex,
    InvalidLength,
}

} // verus!
