use vstd::prelude::*;
use crate::circuit::{be16, be32, RelayCell, RelayCellType};
use crate::crypto::{CryptoError, LayerCrypto, OnionCrypto};
use crate::encoding::bytes_to_vec;
use crate::framing::{le32, le32_value, lemma_le32_round_trip};

verus! {

/// Bytes of a cell's header: type, stream id, sequence (big-endian) and
/// payload length (little-endian).
pub const CELL_HEADER_LEN: usize = 11;

/// The wire form of a cell: header, payload, digest.
pub open spec fn cell_bytes(c: RelayCell) -> Seq<u8> {
    seq![c.cell_type.code_spec()] + be16(c.stream_id) + be32(c.sequence) + le32(c.payload@.len() as u32) + c.payload@
        + c.digest@
}

/// Two cells agree on every field.
pub open spec fn same_cell(a: RelayCell, b: RelayCell) -> bool {
    &&& a.cell_type == b.cell_type
    &&& a.stream_id == b.stream_id
    &&& a.sequence == b.sequence
    &&& a.payload@ == b.payload@
    &&& a.digest == b.digest
}

proof fn lemma_code_injective(a: RelayCellType, b: RelayCellType)
    requires
        a.code_spec() == b.code_spec(),
    ensures
        a == b,
{
}

proof fn lemma_be16(x: u16)
    ensures
        be16(x)[0] as int * 256 + be16(x)[1] as int == x,
{
}

proof fn lemma_be32(x: u32)
    ensures
        be32(x)[0] as int * 16777216 + be32(x)[1] as int * 65536 + be32(x)[2] as int * 256 + be32(x)[3] as int == x,
{
    let b = be32(x);
    assert(b[0] as int * 16777216 + b[1] as int * 65536 + b[2] as int * 256 + b[3] as int == x) by (nonlinear_arith)
        requires
            b[0] == (x / 0x1000000) as u8,
            b[1] == ((x / 0x10000) % 256) as u8,
            b[2] == ((x / 256) % 256) as u8,
            b[3] == (x % 256) as u8,
            x <= u32::MAX,
    ;
}

/// Length, type byte and length field of a cell's wire form.
proof fn lemma_encoding_facts(c: RelayCell)
    requires
        c.payload@.len() <= u32::MAX,
    ensures
        cell_bytes(c).len() == 15 + c.payload@.len(),
        cell_bytes(c)[0] == c.cell_type.code_spec(),
        le32_value(cell_bytes(c).subrange(7, 11)) == c.payload@.len(),
{
    let n = c.payload@.len() as u32;
    lemma_le32_round_trip(n);
    assert(cell_bytes(c).subrange(7, 11) =~= le32(n));
}

/// The fields read from `b` write back to `b`.
proof fn lemma_parsed(b: Seq<u8>, cell: RelayCell, n: int)
    requires
        b.len() == 15 + n,
        0 <= n <= u32::MAX,
        cell.payload@.len() == n,
        cell.cell_type.code_spec() == b[0],
        cell.stream_id as int == b[1] as int * 256 + b[2] as int,
        cell.sequence as int == b[3] as int * 16777216 + b[4] as int * 65536 + b[5] as int * 256 + b[6] as int,
        n == b[7] as int + 256 * b[8] as int + 65536 * b[9] as int + 16777216 * b[10] as int,
        cell.payload@ == b.subrange(11, 11 + n),
        cell.digest@ == b.subrange(11 + n, 15 + n),
    ensures
        cell_bytes(cell) == b,
{
    let sid = cell.stream_id;
    let sq = cell.sequence;
    let nn = n as u32;
    assert((sid / 256) as u8 == b[1] && (sid % 256) as u8 == b[2]) by (nonlinear_arith)
        requires
            sid as int == b[1] as int * 256 + b[2] as int,
            b[2] < 256,
    ;
    assert((sq / 0x1000000) as u8 == b[3] && ((sq / 0x10000) % 256) as u8 == b[4] && ((sq / 256) % 256) as u8 == b[5]
        && (sq % 256) as u8 == b[6]) by (nonlinear_arith)
        requires
            sq as int == b[3] as int * 16777216 + b[4] as int * 65536 + b[5] as int * 256 + b[6] as int,
            b[4] < 256,
            b[5] < 256,
            b[6] < 256,
    ;
    assert((nn % 256) as u8 == b[7] && ((nn / 256) % 256) as u8 == b[8] && ((nn / 65536) % 256) as u8 == b[9]
        && (nn / 16777216) as u8 == b[10]) by (nonlinear_arith)
        requires
            nn as int == b[7] as int + 256 * b[8] as int + 65536 * b[9] as int + 16777216 * b[10] as int,
            b[7] < 256,
            b[8] < 256,
            b[9] < 256,
            b[10] < 256,
    ;
    assert(cell_bytes(cell) =~= b);
}

impl RelayCell {
    /// The wire form of the cell.
    pub fn to_bytes(&self) -> (r: Vec<u8>)
        requires
            self.payload@.len() <= u32::MAX,
        ensures
            r@ == cell_bytes(*self),
    {
        let mut out: Vec<u8> = Vec::new();
        out.push(self.cell_type.code());
        out.push((self.stream_id / 256) as u8);
        out.push((self.stream_id % 256) as u8);
        out.push((self.sequence / 0x1000000) as u8);
        out.push(((self.sequence / 0x10000) % 256) as u8);
        out.push(((self.sequence / 256) % 256) as u8);
        out.push((self.sequence % 256) as u8);
        let n = self.payload.len() as u32;
        out.push((n % 256) as u8);
        out.push(((n / 256) % 256) as u8);
        out.push(((n / 65536) % 256) as u8);
        out.push((n / 16777216) as u8);
        let mut body = bytes_to_vec(self.payload.as_slice());
        out.append(&mut body);
        out.push(self.digest[0]);
        out.push(self.digest[1]);
        out.push(self.digest[2]);
        out.push(self.digest[3]);
        assert(out@ =~= cell_bytes(*self));
        out
    }

    /// Reads a cell from its exact wire form; `None` on a short or overlong
    /// input, an unknown type, or a length that does not match.
    pub fn from_bytes(b: &[u8]) -> (r: Option<RelayCell>)
        ensures
            r matches Some(c) ==> cell_bytes(c) == b@,
            forall|c: RelayCell| c.payload@.len() <= u32::MAX && b@ == #[trigger] cell_bytes(c) ==> (r matches Some(d) && same_cell(c, d)),
    {
        if b.len() < CELL_HEADER_LEN + 4 {
            proof {
                assert forall|c: RelayCell| c.payload@.len() <= u32::MAX && b@ == #[trigger] cell_bytes(c) implies false by {
                    lemma_encoding_facts(c);
                }
            }
            return None;
        }
        let cell_type = match RelayCellType::from_code(b[0]) {
            Some(t) => t,
            None => {
                proof {
                    assert forall|c: RelayCell| c.payload@.len() <= u32::MAX && b@ == #[trigger] cell_bytes(c) implies false by {
                        lemma_encoding_facts(c);
                    }
                }
                return None;
            },
        };
        let stream_id: u16 = (b[1] as u16) * 256 + b[2] as u16;
        let sequence: u32 = (b[3] as u32) * 16777216 + (b[4] as u32) * 65536 + (b[5] as u32) * 256 + b[6] as u32;
        let len64: u64 = b[7] as u64 + 256 * (b[8] as u64) + 65536 * (b[9] as u64) + 16777216 * (b[10] as u64);
        assert(len64 == le32_value(b@.subrange(7, 11)));
        if len64 != (b.len() - CELL_HEADER_LEN - 4) as u64 {
            proof {
                assert forall|c: RelayCell| c.payload@.len() <= u32::MAX && b@ == #[trigger] cell_bytes(c) implies false by {
                    lemma_encoding_facts(c);
                }
            }
            return None;
        }
        let n = len64 as usize;
        let mut payload: Vec<u8> = Vec::new();
        let mut i: usize = 0;
        while i < n
            invariant
                0 <= i <= n,
                n == b@.len() - 15,
                b@.len() <= usize::MAX,
                payload@ == b@.subrange(11, 11 + i as int),
            decreases n - i,
        {
            payload.push(b[CELL_HEADER_LEN + i]);
            i = i + 1;
            proof {
                assert(b@.subrange(11, 11 + i as int) =~= b@.subrange(11, 11 + i - 1).push(b@[11 + i - 1]));
            }
        }
        let digest: [u8; 4] = [b[11 + n], b[12 + n], b[13 + n], b[14 + n]];
        let cell = RelayCell { cell_type, stream_id, sequence, payload, digest };
        proof {
            assert(cell.digest@ =~= b@.subrange(11 + n as int, 15 + n as int));
            lemma_parsed(b@, cell, n as int);
            assert forall|c: RelayCell| c.payload@.len() <= u32::MAX && b@ == #[trigger] cell_bytes(c) implies same_cell(c, cell) by {
                lemma_cell_round_trip(c, cell);
            }
        }
        Some(cell)
    }
}

impl OnionCrypto {
    /// Writes `cell` out and wraps it in one layer per hop, the last hop innermost.
    pub fn encrypt_cell_for_circuit(layers: &mut Vec<LayerCrypto>, cell: &RelayCell) -> (r: Result<Vec<u8>, CryptoError>)
        requires
            cell.payload@.len() <= u32::MAX,
        ensures
            final(layers)@.len() == old(layers)@.len(),
            (forall|i: int| 0 <= i < old(layers)@.len() ==> #[trigger] old(layers)@[i].count() < u64::MAX)
                && 15 + cell.payload@.len() + 16 * old(layers)@.len() < crate::crypto::AEAD_MAX_LEN ==> r is Ok,
            r matches Ok(c) ==> crate::crypto::onion_open(crate::crypto::layer_views(old(layers)@), c@) == Some(cell_bytes(*cell)),
            r is Ok ==> forall|i: int|
                0 <= i < old(layers)@.len() ==> #[trigger] final(layers)@[i].count() == old(layers)@[i].count() + 1
                    && final(layers)@[i].key_view() == old(layers)@[i].key_view()
                    && final(layers)@[i].base_view() == old(layers)@[i].base_view(),
    {
        let bytes = cell.to_bytes();
        proof {
            lemma_encoding_facts(*cell);
        }
        OnionCrypto::encrypt_onion(layers, bytes.as_slice())
    }

    /// Peels one layer and reads the cell inside; a cell that cannot be read
    /// counts as a failed decryption.
    pub fn decrypt_cell_at_hop(layer: &mut LayerCrypto, encrypted: &[u8]) -> (r: Result<RelayCell, CryptoError>)
        ensures
            final(layer).key_view() == old(layer).key_view(),
            old(layer).count() == u64::MAX ==> r == Err::<RelayCell, CryptoError>(CryptoError::NonceCounterExhausted),
            old(layer).count() < u64::MAX ==> final(layer).count() == old(layer).count() + 1,
            r matches Ok(c) ==> crate::crypto::aead_open_of(old(layer).key_view(), old(layer).next_nonce_view(), encrypted@)
                == Some(cell_bytes(c)),
            forall|c: RelayCell|
                old(layer).count() < u64::MAX && c.payload@.len() <= u32::MAX && crate::crypto::aead_open_of(
                    old(layer).key_view(),
                    old(layer).next_nonce_view(),
                    encrypted@,
                ) == Some(#[trigger] cell_bytes(c)) ==> (r matches Ok(d) && same_cell(c, d)),
    {
        let plain = match OnionCrypto::decrypt_layer(layer, encrypted) {
            Ok(p) => p,
            Err(e) => {
                return Err(e);
            },
        };
        match RelayCell::from_bytes(plain.as_slice()) {
            Some(c) => Ok(c),
            None => Err(CryptoError::DecryptionFailed),
        }
    }
}

/// A cell read back from its wire form is the same cell.
pub proof fn lemma_cell_round_trip(c: RelayCell, d: RelayCell)
    requires
        c.payload@.len() <= u32::MAX,
        cell_bytes(d) == cell_bytes(c),
    ensures
        same_cell(c, d),
{
    let m = c.payload@.len();
    assert(cell_bytes(c).len() == 15 + m);
    assert(cell_bytes(d).len() == 15 + d.payload@.len());
    lemma_be16(c.stream_id);
    lemma_be16(d.stream_id);
    lemma_be32(c.sequence);
    lemma_be32(d.sequence);
    assert(cell_bytes(c)[0] == c.cell_type.code_spec());
    assert(cell_bytes(d)[0] == d.cell_type.code_spec());
    lemma_code_injective(c.cell_type, d.cell_type);
    assert(cell_bytes(c)[1] == be16(c.stream_id)[0] && cell_bytes(c)[2] == be16(c.stream_id)[1]);
    assert(cell_bytes(d)[1] == be16(d.stream_id)[0] && cell_bytes(d)[2] == be16(d.stream_id)[1]);
    assert(cell_bytes(c)[3] == be32(c.sequence)[0] && cell_bytes(c)[4] == be32(c.sequence)[1]);
    assert(cell_bytes(c)[5] == be32(c.sequence)[2] && cell_bytes(c)[6] == be32(c.sequence)[3]);
    assert(cell_bytes(d)[3] == be32(d.sequence)[0] && cell_bytes(d)[4] == be32(d.sequence)[1]);
    assert(cell_bytes(d)[5] == be32(d.sequence)[2] && cell_bytes(d)[6] == be32(d.sequence)[3]);
    assert(c.payload@ =~= cell_bytes(c).subrange(11, 11 + m as int));
    assert(d.payload@ =~= cell_bytes(d).subrange(11, 11 + m as int));
    assert(c.digest@ =~= cell_bytes(c).subrange(11 + m as int, 15 + m as int));
    assert(d.digest@ =~= cell_bytes(d).subrange(11 + m as int, 15 + m as int));
    assert(c.digest =~= d.digest);
}

} // verus!
