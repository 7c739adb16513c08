use vstd::prelude::*;

verus! {

/// BLAKE3 digest (32 bytes) of a byte string.
pub uninterp spec fn blake3_of(data: Seq<u8>) -> Seq<u8>;

/// BLAKE3 keyed digest (32 bytes) of a byte string under a 32-byte key.
pub uninterp spec fn blake3_keyed_of(key: Seq<u8>, data: Seq<u8>) -> Seq<u8>;

/// RFC 4648 base32 text, without padding, of a byte string, as ASCII bytes.
pub uninterp spec fn base32_of(data: Seq<u8>) -> Seq<u8>;

/// Relies on `blake3::hash`: the 32-byte digest of `data`, a function of `data` alone.
#[verifier::external_body]
pub(crate) fn blake3_digest(data: &[u8]) -> (r: [u8; 32])
    ensures
        r@ == blake3_of(data@),
{
    *blake3::hash(data).as_bytes()
}

/// Relies on `blake3::keyed_hash`: the 32-byte keyed digest, a function of its arguments alone.
#[verifier::external_body]
pub(crate) fn blake3_keyed_digest(key: &[u8; 32], data: &[u8]) -> (r: [u8; 32])
    ensures
        r@ == blake3_keyed_of(key@, data@),
{
    *blake3::keyed_hash(key, data).as_bytes()
}

/// Copies a byte slice into a vector.
pub fn bytes_to_vec(s: &[u8]) -> (r: Vec<u8>)
    ensures
        r@ == s@,
{
    let mut out: Vec<u8> = Vec::new();
    let mut i: usize = 0;
    while i < s.len()
        invariant
            0 <= i <= s@.len(),
            out@ == s@.subrange(0, i as int),
        decreases s@.len() - i,
    {
        out.push(s[i]);
        i = i + 1;
    }
    assert(out@ =~= s@);
    out
}

/// Value of a hexadecimal digit of either case, or -1.
pub open spec fn hex_value(c: char) -> int {
    if '0' <= c && c <= '9' {
        c as int - '0' as int
    } else if 'a' <= c && c <= 'f' {
        c as int - 'a' as int + 10
    } else if 'A' <= c && c <= 'F' {
        c as int - 'A' as int + 10
    } else {
        -1
    }
}

pub open spec fn is_hex_char(c: char) -> bool {
    hex_value(c) >= 0
}

pub open spec fn is_lower_hex_char(c: char) -> bool {
    ('0' <= c && c <= '9') || ('a' <= c && c <= 'f')
}

/// `s` is a hexadecimal text: an even number of hex digits.
pub open spec fn is_hex_text(s: Seq<char>) -> bool {
    s.len() % 2 == 0 && forall|i: int| 0 <= i < s.len() ==> is_hex_char(#[trigger] s[i])
}

/// `s` spells out the bytes `b`, two digits per byte, high digit first.
pub open spec fn hex_spells(s: Seq<char>, b: Seq<u8>) -> bool {
    &&& s.len() == 2 * b.len()
    &&& is_hex_text(s)
    &&& forall|i: int|
        0 <= i < b.len() ==> #[trigger] b[i] == 16 * hex_value(s[2 * i]) + hex_value(s[2 * i + 1])
}

/// Relies on `hex::encode`: two lower-case digits per byte, high digit first.
#[verifier::external_body]
pub(crate) fn hex_encode(b: &[u8]) -> (r: String)
    ensures
        hex_spells(r@, b@),
        forall|i: int| 0 <= i < r@.len() ==> is_lower_hex_char(#[trigger] r@[i]),
{
    hex::encode(b)
}

/// Relies on `hex::decode`: it fails on an odd length or on a character that
/// is not a hex digit of either case, and otherwise reads two digits per byte.
#[verifier::external_body]
pub(crate) fn hex_decode(s: &str) -> (r: Option<Vec<u8>>)
    ensures
        r is Some <==> is_hex_text(s@),
        r matches Some(v) ==> hex_spells(s@, v@),
{
    hex::decode(s).ok()
}

/// Two texts that spell bytes agree on those bytes.
pub proof fn lemma_hex_spells_unique(s: Seq<char>, a: Seq<u8>, b: Seq<u8>)
    requires
        hex_spells(s, a),
        hex_spells(s, b),
    ensures
        a == b,
{
    assert forall|i: int| 0 <= i < a.len() implies a[i] == b[i] by {
        assert(a[i] == 16 * hex_value(s[2 * i]) + hex_value(s[2 * i + 1]));
        assert(b[i] == 16 * hex_value(s[2 * i]) + hex_value(s[2 * i + 1]));
    }
    assert(a =~= b);
}

/// An upper-case letter or a digit 2..7: the base32 alphabet.
pub open spec fn is_base32_byte(c: u8) -> bool {
    (65 <= c && c <= 90) || (50 <= c && c <= 55)
}

/// Relies on `data_encoding::BASE32_NOPAD.encode`: RFC 4648 base32 without
/// padding, in the alphabet A-Z, 2-7, as ASCII bytes.
#[verifier::external_body]
pub(crate) fn base32_encode(b: &[u8]) -> (r: Vec<u8>)
    ensures
        r@ == base32_of(b@),
        forall|i: int| 0 <= i < r@.len() ==> is_base32_byte(#[trigger] r@[i]),
{
    data_encoding::BASE32_NOPAD.encode(b).into_bytes()
}

/// Relies on `data_encoding::BASE32_NOPAD.decode`: it inverts `encode`; any
/// other failure gives `None`.
#[verifier::external_body]
pub(crate) fn base32_decode(s: &[u8]) -> (r: Option<Vec<u8>>)
    ensures
        forall|b: Seq<u8>| s@ == #[trigger] base32_of(b) ==> r is Some && r.unwrap()@ == b,
{
    data_encoding::BASE32_NOPAD.decode(s).ok()
}

/// Relies on std's `char::from(u8)`: each ASCII byte as a character.
#[verifier::external_body]
pub(crate) fn ascii_string(b: &Vec<u8>) -> (r: String)
    ensures
        r@ == b@.map_values(|x: u8| x as char),
{
    b.iter().map(|&x| char::from(x)).collect()
}

} // verus!
