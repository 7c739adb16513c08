use vstd::prelude::*;
use vstd::string::StringSliceAdditionalSpecFns;
use crate::encoding::{ascii_string, base32_decode, base32_encode, base32_of, blake3_digest, blake3_of, is_base32_byte};
use crate::keys::PublicKey;

verus! {

broadcast use vstd::array::axiom_array_ext_equal;

/// Domain-separation prefix of service addresses.
pub open spec fn service_label() -> Seq<u8> {
    "ANONNET-SERVICE-V1".spec_bytes()
}

/// The bytes of `.anon`.
pub open spec fn anon_suffix() -> Seq<u8> {
    seq![46u8, 97u8, 110u8, 111u8, 110u8]
}

/// ASCII white space, as `str::trim` removes it.
pub open spec fn is_space(c: u8) -> bool {
    c == 32 || c == 9 || c == 10 || c == 11 || c == 12 || c == 13
}

pub open spec fn lower_byte(c: u8) -> u8 {
    if 65 <= c && c <= 90 {
        (c + 32) as u8
    } else {
        c
    }
}

pub open spec fn upper_byte(c: u8) -> u8 {
    if 97 <= c && c <= 122 {
        (c - 32) as u8
    } else {
        c
    }
}

pub open spec fn ascii_lower(s: Seq<u8>) -> Seq<u8> {
    s.map_values(|c: u8| lower_byte(c))
}

pub open spec fn ascii_upper(s: Seq<u8>) -> Seq<u8> {
    s.map_values(|c: u8| upper_byte(c))
}

/// `s` without leading and trailing white space.
pub open spec fn trim_spaces(s: Seq<u8>) -> Seq<u8>
    decreases s.len(),
{
    if s.len() > 0 && is_space(s[0]) {
        trim_spaces(s.drop_first())
    } else if s.len() > 0 && is_space(s.last()) {
        trim_spaces(s.drop_last())
    } else {
        s
    }
}

pub open spec fn ends_with_anon(s: Seq<u8>) -> bool {
    s.len() >= 5 && s.subrange(s.len() - 5, s.len() as int) == anon_suffix()
}

/// The base32 part of a host name: trimmed, without a `.anon` suffix of
/// either case, in upper case.
pub open spec fn hostname_base32(s: Seq<u8>) -> Seq<u8> {
    let t = ascii_lower(trim_spaces(s));
    let core = if ends_with_anon(t) { t.subrange(0, t.len() - 5) } else { t };
    ascii_upper(core)
}

/// The host name of an address: lower-case base32 and `.anon`.
pub open spec fn hostname_of(bytes: Seq<u8>) -> Seq<u8> {
    ascii_lower(base32_of(bytes)) + anon_suffix()
}

/// A self-authenticating address: the digest of a service's public key.
#[derive(Debug, Clone, Copy, Eq, Hash)]
pub struct ServiceAddress(pub [u8; 32]);

impl PartialEq for ServiceAddress {
    fn eq(&self, other: &ServiceAddress) -> (r: bool) {
        crate::node_id::bytes32_equal(&self.0, &other.0)
    }
}

impl vstd::std_specs::cmp::PartialEqSpecImpl for ServiceAddress {
    open spec fn obeys_eq_spec() -> bool {
        true
    }

    open spec fn eq_spec(&self, other: &ServiceAddress) -> bool {
        *self == *other
    }
}

/// Errors of reading an address.
#[derive(Debug, Clone, Copy, PartialEq, Eq, Structural)]
pub enum ServiceAddressError {
    InvalidEncoding,
    InvalidLength(usize),
    NotAnonAddress,
}

/// Lower-cases ASCII letters.
fn to_lower(s: &[u8]) -> (r: Vec<u8>)
    ensures
        r@ == ascii_lower(s@),
{
    let mut out: Vec<u8> = Vec::new();
    let mut i: usize = 0;
    while i < s.len()
        invariant
            0 <= i <= s@.len(),
            out@ == ascii_lower(s@.subrange(0, i as int)),
        decreases s@.len() - i,
    {
        let c = s[i];
        out.push(if 65 <= c && c <= 90 { c + 32 } else { c });
        i = i + 1;
        proof {
            assert(ascii_lower(s@.subrange(0, i as int)) =~= ascii_lower(s@.subrange(0, i - 1)).push(lower_byte(c)));
        }
    }
    assert(s@.subrange(0, s@.len() as int) =~= s@);
    out
}

/// Upper-cases ASCII letters.
fn to_upper(s: &[u8]) -> (r: Vec<u8>)
    ensures
        r@ == ascii_upper(s@),
{
    let mut out: Vec<u8> = Vec::new();
    let mut i: usize = 0;
    while i < s.len()
        invariant
            0 <= i <= s@.len(),
            out@ == ascii_upper(s@.subrange(0, i as int)),
        decreases s@.len() - i,
    {
        let c = s[i];
        out.push(if 97 <= c && c <= 122 { c - 32 } else { c });
        i = i + 1;
        proof {
            assert(ascii_upper(s@.subrange(0, i as int)) =~= ascii_upper(s@.subrange(0, i - 1)).push(upper_byte(c)));
        }
    }
    assert(s@.subrange(0, s@.len() as int) =~= s@);
    out
}

/// Strips ASCII white space from both ends.
fn trim(s: &[u8]) -> (r: Vec<u8>)
    ensures
        r@ == trim_spaces(s@),
{
    let mut lo: usize = 0;
    let mut hi: usize = s.len();
    assert(s@.subrange(0, s@.len() as int) =~= s@);
    while lo < hi && (s[lo] == 32 || s[lo] == 9 || s[lo] == 10 || s[lo] == 11 || s[lo] == 12 || s[lo] == 13)
        invariant
            0 <= lo <= hi == s@.len(),
            trim_spaces(s@) == trim_spaces(s@.subrange(lo as int, hi as int)),
        decreases hi - lo,
    {
        assert(s@.subrange(lo as int, hi as int).drop_first() =~= s@.subrange(lo + 1, hi as int));
        lo = lo + 1;
    }
    while lo < hi && (s[hi - 1] == 32 || s[hi - 1] == 9 || s[hi - 1] == 10 || s[hi - 1] == 11 || s[hi - 1] == 12 || s[hi - 1] == 13)
        invariant
            0 <= lo <= hi <= s@.len(),
            lo < hi ==> !is_space(s@[lo as int]),
            trim_spaces(s@) == trim_spaces(s@.subrange(lo as int, hi as int)),
        decreases hi - lo,
    {
        assert(s@.subrange(lo as int, hi as int).drop_last() =~= s@.subrange(lo as int, hi - 1));
        hi = hi - 1;
    }
    let mut out: Vec<u8> = Vec::new();
    let mut i: usize = lo;
    while i < hi
        invariant
            lo <= i <= hi <= s@.len(),
            out@ == s@.subrange(lo as int, i as int),
        decreases hi - i,
    {
        out.push(s[i]);
        i = i + 1;
        proof {
            assert(s@.subrange(lo as int, i as int) =~= s@.subrange(lo as int, i - 1).push(s@[i - 1]));
        }
    }
    out
}

/// Whether `s` ends with `.anon`.
fn has_anon_suffix(s: &Vec<u8>) -> (r: bool)
    ensures
        r == ends_with_anon(s@),
{
    let n = s.len();
    if n < 5 {
        return false;
    }
    let r = s[n - 5] == 46 && s[n - 4] == 97 && s[n - 3] == 110 && s[n - 2] == 111 && s[n - 1] == 110;
    proof {
        if r {
            assert(s@.subrange(n - 5, n as int) =~= anon_suffix());
        } else {
            if s@.subrange(n - 5, n as int) == anon_suffix() {
                assert(s@.subrange(n - 5, n as int)[0] == s@[n - 5]);
                assert(s@.subrange(n - 5, n as int)[4] == s@[n - 1]);
                assert(s@.subrange(n - 5, n as int)[1] == s@[n - 4]);
                assert(s@.subrange(n - 5, n as int)[2] == s@[n - 3]);
                assert(s@.subrange(n - 5, n as int)[3] == s@[n - 2]);
            }
        }
    }
    r
}

impl ServiceAddress {
    /// The address of a service key: the digest of the label and the key.
    pub fn from_public_key(public_key: &PublicKey) -> (r: ServiceAddress)
        ensures
            r.0@ == blake3_of(service_label() + public_key.bytes@),
    {
        let label: &[u8] = "ANONNET-SERVICE-V1".as_bytes();
        let mut input = crate::encoding::bytes_to_vec(label);
        let mut key = crate::encoding::bytes_to_vec(&public_key.bytes);
        input.append(&mut key);
        ServiceAddress(blake3_digest(input.as_slice()))
    }

    pub fn from_bytes(bytes: [u8; 32]) -> (r: ServiceAddress)
        ensures
            r.0 == bytes,
    {
        ServiceAddress(bytes)
    }

    pub fn as_bytes(&self) -> (r: &[u8; 32])
        ensures
            *r == self.0,
    {
        &self.0
    }

    /// Lower-case base32 of the address.
    pub fn to_base32(&self) -> (r: String)
        ensures
            r@ == ascii_lower(base32_of(self.0@)).map_values(|x: u8| x as char),
            forall|i: int| 0 <= i < r@.len() ==> ('a' <= #[trigger] r@[i] <= 'z' || '2' <= r@[i] <= '7'),
            ascii_upper(vstd::utf8::encode_utf8(r@)) == base32_of(self.0@),
    {
        let encoded = base32_encode(&self.0);
        let lower = to_lower(encoded.as_slice());
        proof {
            let low = ascii_lower(encoded@);
            assert(lower@ == low);
            assert forall|i: int| 0 <= i < low.len() implies #[trigger] low[i] < 128 && (97 <= low[i] <= 122 || 50 <= low[i] <= 55) by {
                assert(is_base32_byte(encoded@[i]));
            }
            lemma_ascii_round_trip(low);
            assert(ascii_upper(low) =~= encoded@) by {
                assert forall|i: int| 0 <= i < encoded@.len() implies #[trigger] ascii_upper(low)[i] == encoded@[i] by {
                    assert(is_base32_byte(encoded@[i]));
                }
            }
        }
        ascii_string(&lower)
    }

    /// The host name: lower-case base32 and `.anon`.
    pub fn to_hostname(&self) -> (r: String)
        ensures
            r@ == hostname_of(self.0@).map_values(|x: u8| x as char),
            hostname_base32(vstd::utf8::encode_utf8(r@)) == base32_of(self.0@),
    {
        let encoded = base32_encode(&self.0);
        let mut out = to_lower(encoded.as_slice());
        let mut suffix: Vec<u8> = vec![46u8, 97u8, 110u8, 111u8, 110u8];
        assert(suffix@ =~= anon_suffix());
        out.append(&mut suffix);
        proof {
            let h = hostname_of(self.0@);
            assert(out@ == h);
            lemma_hostname_base32(self.0@);
            assert forall|i: int| 0 <= i < h.len() implies #[trigger] h[i] < 128 by {
                let low = ascii_lower(encoded@);
                if i < low.len() {
                    assert(is_base32_byte(encoded@[i]));
                    assert(h[i] == lower_byte(encoded@[i]));
                } else {
                    assert(h[i] == anon_suffix()[i - low.len()]);
                }
            }
            lemma_ascii_round_trip(h);
        }
        ascii_string(&out)
    }

    /// Reads a host name with or without `.anon`, of either case, with
    /// surrounding white space.
    pub fn from_hostname(hostname: &str) -> (r: Result<ServiceAddress, ServiceAddressError>)
        ensures
            forall|b: Seq<u8>|
                b.len() == 32 && hostname_base32(hostname.spec_bytes()) == #[trigger] base32_of(b) ==> (r matches Ok(a)
                    && a.0@ == b),
            r matches Err(ServiceAddressError::InvalidLength(n)) ==> n != 32,
    {
        let trimmed = trim(hostname.as_bytes());
        let lower = to_lower(trimmed.as_slice());
        let core: Vec<u8> = if has_anon_suffix(&lower) {
            let n = lower.len() - 5;
            let mut c: Vec<u8> = Vec::new();
            let mut i: usize = 0;
            while i < n
                invariant
                    0 <= i <= n,
                    n == lower@.len() - 5,
                    c@ == lower@.subrange(0, i as int),
                decreases n - i,
            {
                c.push(lower[i]);
                i = i + 1;
                proof {
                    assert(lower@.subrange(0, i as int) =~= lower@.subrange(0, i - 1).push(lower@[i - 1]));
                }
            }
            c
        } else {
            lower
        };
        let upper = to_upper(core.as_slice());
        match base32_decode(upper.as_slice()) {
            None => Err(ServiceAddressError::InvalidEncoding),
            Some(bytes) => {
                if bytes.len() != 32 {
                    return Err(ServiceAddressError::InvalidLength(bytes.len()));
                }
                let mut array = [0u8; 32];
                let mut i: usize = 0;
                while i < 32
                    invariant
                        0 <= i <= 32,
                        bytes@.len() == 32,
                        forall|j: int| 0 <= j < i ==> array@[j] == bytes@[j],
                    decreases 32 - i,
                {
                    array[i] = bytes[i];
                    i = i + 1;
                }
                assert(array@ =~= bytes@);
                Ok(ServiceAddress(array))
            },
        }
    }

    /// Whether `hostname`, trimmed, ends with `.anon` in either case.
    pub fn is_anon_address(hostname: &str) -> (r: bool)
        ensures
            r == ends_with_anon(ascii_lower(trim_spaces(hostname.spec_bytes()))),
    {
        let trimmed = trim(hostname.as_bytes());
        let lower = to_lower(trimmed.as_slice());
        has_anon_suffix(&lower)
    }

    /// Whether this is the address of `public_key`.
    pub fn verify_public_key(&self, public_key: &PublicKey) -> (r: bool)
        ensures
            r == (self.0@ == blake3_of(service_label() + public_key.bytes@)),
    {
        let expected = ServiceAddress::from_public_key(public_key);
        let r = *self == expected;
        proof {
            if self.0@ == expected.0@ {
                assert(self.0 =~= expected.0);
            }
        }
        r
    }
}

/// The base32 part of `hostname_of(a)` is the base32 text of `a`.
proof fn lemma_hostname_base32(bytes: Seq<u8>)
    requires
        forall|i: int| 0 <= i < base32_of(bytes).len() ==> is_base32_byte(#[trigger] base32_of(bytes)[i]),
    ensures
        hostname_base32(hostname_of(bytes)) == base32_of(bytes),
{
    let enc = base32_of(bytes);
    let h = hostname_of(bytes);
    let low = ascii_lower(enc);
    assert(h.len() == low.len() + 5);
    assert(h[h.len() - 1] == 110u8);
    if low.len() > 0 {
        assert(h[0] == lower_byte(enc[0]));
        assert(!is_space(h[0]));
    } else {
        assert(h[0] == 46u8);
    }
    assert(trim_spaces(h) == h);
    assert(ascii_lower(h) =~= h) by {
        assert forall|i: int| 0 <= i < h.len() implies #[trigger] ascii_lower(h)[i] == h[i] by {
            if i < low.len() {
                assert(h[i] == lower_byte(enc[i]));
            } else {
                assert(h[i] == anon_suffix()[i - low.len()]);
            }
        }
    }
    assert(h.subrange(h.len() - 5, h.len() as int) =~= anon_suffix());
    assert(h.subrange(0, h.len() - 5) =~= low);
    assert(ascii_upper(low) =~= enc) by {
        assert forall|i: int| 0 <= i < enc.len() implies #[trigger] ascii_upper(low)[i] == enc[i] by {
            assert(is_base32_byte(enc[i]));
        }
    }
}

/// ASCII bytes, read as characters, encode back to themselves.
proof fn lemma_ascii_round_trip(h: Seq<u8>)
    requires
        forall|i: int| 0 <= i < h.len() ==> #[trigger] h[i] < 128,
    ensures
        vstd::utf8::encode_utf8(h.map_values(|x: u8| x as char)) == h,
{
    let chars = h.map_values(|x: u8| x as char);
    assert(vstd::utf8::is_ascii_chars(chars)) by {
        assert forall|i: int| 0 <= i < chars.len() implies '\0' <= #[trigger] chars[i] <= '\u{7f}' by {
            assert(h[i] < 128);
        }
    }
    vstd::utf8::is_ascii_chars_encode_utf8(chars);
    assert(vstd::utf8::encode_utf8(chars) =~= h);
}

} // verus!
