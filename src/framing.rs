use vstd::prelude::*;
use crate::config::MAX_MESSAGE_SIZE;
use crate::encoding::bytes_to_vec;
use crate::stats::MessageCodec;

verus! {

/// Little-endian bytes of a `u32`.
pub open spec fn le32(x: u32) -> Seq<u8> {
    seq![(x % 256) as u8, ((x / 256) % 256) as u8, ((x / 65536) % 256) as u8, (x / 16777216) as u8]
}

/// Value of four little-endian bytes.
pub open spec fn le32_value(b: Seq<u8>) -> nat {
    b[0] as nat + 256 * b[1] as nat + 65536 * b[2] as nat + 16777216 * b[3] as nat
}

/// A framed message: its length in four little-endian bytes, then the bytes.
pub open spec fn framed(payload: Seq<u8>) -> Seq<u8> {
    le32(payload.len() as u32) + payload
}

/// Failures of framing.
#[derive(Debug, Clone, Copy, PartialEq, Eq, Structural)]
pub enum FrameError {
    /// The declared or given length exceeds `MAX_MESSAGE_SIZE`.
    TooLarge(usize),
    /// More bytes are needed.
    Incomplete,
}

pub proof fn lemma_le32_round_trip(x: u32)
    ensures
        le32_value(le32(x)) == x,
{
    let b = le32(x);
    assert(b[0] as nat + 256 * b[1] as nat + 65536 * b[2] as nat + 16777216 * b[3] as nat == x) by (nonlinear_arith)
        requires
            b[0] == (x % 256) as u8,
            b[1] == ((x / 256) % 256) as u8,
            b[2] == ((x / 65536) % 256) as u8,
            b[3] == (x / 16777216) as u8,
            x <= u32::MAX,
    ;
}

impl MessageCodec {
    /// Frames `payload`; refused above `MAX_MESSAGE_SIZE`.
    pub fn frame(payload: &[u8]) -> (r: Result<Vec<u8>, FrameError>)
        ensures
            payload@.len() > MAX_MESSAGE_SIZE ==> r == Err::<Vec<u8>, FrameError>(FrameError::TooLarge(payload@.len() as usize)),
            payload@.len() <= MAX_MESSAGE_SIZE ==> (r matches Ok(v) && v@ == framed(payload@)),
    {
        let n = payload.len();
        if n > MAX_MESSAGE_SIZE {
            return Err(FrameError::TooLarge(n));
        }
        let x = n as u32;
        let mut out: Vec<u8> = Vec::new();
        out.push((x % 256) as u8);
        out.push(((x / 256) % 256) as u8);
        out.push(((x / 65536) % 256) as u8);
        out.push((x / 16777216) as u8);
        let mut body = bytes_to_vec(payload);
        out.append(&mut body);
        assert(out@ =~= framed(payload@));
        Ok(out)
    }

    /// Reads one framed message from the front of `buf`: its bytes and the
    /// number of bytes it took. A declared length above `MAX_MESSAGE_SIZE`
    /// is refused before anything is read.
    pub fn read_frame(buf: &[u8]) -> (r: Result<(Vec<u8>, usize), FrameError>)
        ensures
            buf@.len() < 4 ==> r == Err::<(Vec<u8>, usize), FrameError>(FrameError::Incomplete),
            buf@.len() >= 4 && le32_value(buf@.subrange(0, 4)) > MAX_MESSAGE_SIZE ==> r matches Err(FrameError::TooLarge(_)),
            buf@.len() >= 4 && le32_value(buf@.subrange(0, 4)) <= MAX_MESSAGE_SIZE ==> {
                let n = le32_value(buf@.subrange(0, 4));
                &&& buf@.len() < 4 + n ==> r == Err::<(Vec<u8>, usize), FrameError>(FrameError::Incomplete)
                &&& buf@.len() >= 4 + n ==> (r matches Ok((p, used)) && used == 4 + n && p@ == buf@.subrange(4, 4 + n as int))
            },
    {
        if buf.len() < 4 {
            return Err(FrameError::Incomplete);
        }
        let n64: u64 = buf[0] as u64 + 256 * (buf[1] as u64) + 65536 * (buf[2] as u64) + 16777216 * (buf[3] as u64);
        assert(n64 == le32_value(buf@.subrange(0, 4)));
        if n64 > MAX_MESSAGE_SIZE as u64 {
            return Err(FrameError::TooLarge(MAX_MESSAGE_SIZE + 1));
        }
        let n = n64 as usize;
        if buf.len() - 4 < n {
            return Err(FrameError::Incomplete);
        }
        let mut p: Vec<u8> = Vec::new();
        let mut i: usize = 0;
        assert(buf@.len() == buf.len());
        while i < n
            invariant
                0 <= i <= n,
                4 + n <= buf@.len(),
                buf@.len() <= usize::MAX,
                p@ == buf@.subrange(4, 4 + i as int),
            decreases n - i,
        {
            p.push(buf[4 + i]);
            i = i + 1;
            proof {
                assert(buf@.subrange(4, 4 + i as int) =~= buf@.subrange(4, 4 + i - 1).push(buf@[4 + i - 1]));
            }
        }
        Ok((p, 4 + n))
    }
}

/// A framed message reads back whole, whatever follows it.
pub proof fn lemma_frame_round_trip(payload: Seq<u8>, rest: Seq<u8>)
    requires
        payload.len() <= MAX_MESSAGE_SIZE,
    ensures
        ({
            let buf = framed(payload) + rest;
            &&& buf.len() >= 4
            &&& le32_value(buf.subrange(0, 4)) == payload.len()
            &&& buf.subrange(4, 4 + payload.len() as int) == payload
        }),
{
    let buf = framed(payload) + rest;
    lemma_le32_round_trip(payload.len() as u32);
    assert(buf.subrange(0, 4) =~= le32(payload.len() as u32));
    assert(buf.subrange(4, 4 + payload.len() as int) =~= payload);
}

} // verus!
