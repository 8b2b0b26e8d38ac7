//! Framing of compressed access units on a byte stream: every unit is
//! preceded by its length as a big-endian 32-bit number, so that a reader
//! can buffer or skip whole units.

use crate::types::CodecError;
use vstd::prelude::*;

verus! {

/// Number of bytes of the length field.
pub const FRAME_HEADER_BYTES: usize = 4;

/// The four big-endian bytes of `v`.
pub open spec fn spec_be_bytes(v: u32) -> Seq<u8> {
    seq![
        (v / 0x100_0000) as u8,
        ((v / 0x1_0000) % 256) as u8,
        ((v / 0x100) % 256) as u8,
        (v % 256) as u8,
    ]
}

/// The value of four big-endian bytes.
pub open spec fn spec_be_value(b0: u8, b1: u8, b2: u8, b3: u8) -> int {
    b0 * 0x100_0000 + b1 * 0x1_0000 + b2 * 0x100 + b3
}

/// A payload behind its length.
pub open spec fn spec_frame(payload: Seq<u8>) -> Seq<u8> {
    spec_be_bytes(payload.len() as u32) + payload
}

/// The frames of the first `n` payloads, one behind the other.
pub open spec fn spec_frames(payloads: Seq<Seq<u8>>, n: int) -> Seq<u8>
    decreases n,
{
    if n <= 0 {
        Seq::empty()
    } else {
        spec_frames(payloads, n - 1) + spec_frame(payloads[n - 1])
    }
}

/// What reading a frame at `pos` finds.
pub enum FrameAt {
    /// The stream ends at `pos`: no frame begins here.
    End,
    /// The stream ends inside the length field or inside the payload.
    Truncated,
    /// A whole frame: its payload, and the position behind it.
    Frame(Seq<u8>, int),
}

/// What reading a frame of `s` at `pos` finds.
pub open spec fn spec_read_frame(s: Seq<u8>, pos: int) -> FrameAt {
    if pos >= s.len() {
        FrameAt::End
    } else if pos + FRAME_HEADER_BYTES > s.len() {
        FrameAt::Truncated
    } else {
        let n = spec_be_value(s[pos], s[pos + 1], s[pos + 2], s[pos + 3]);
        if pos + FRAME_HEADER_BYTES + n > s.len() {
            FrameAt::Truncated
        } else {
            FrameAt::Frame(
                s.subrange(pos + FRAME_HEADER_BYTES, pos + FRAME_HEADER_BYTES + n),
                pos + FRAME_HEADER_BYTES + n,
            )
        }
    }
}

/// Appends the frame of `payload` to `out`. A payload whose length does not
/// fit the length field is refused, and `out` stays as it was.
pub fn write_frame(payload: &Vec<u8>, out: &mut Vec<u8>) -> (r: Result<(), CodecError>)
    ensures
        payload.len() <= u32::MAX ==> r is Ok && final(out)@ == old(out)@ + spec_frame(payload@),
        payload.len() > u32::MAX ==> r == Err::<(), CodecError>(CodecError::MalformedEncoder)
            && final(out)@ == old(out)@,
{
    if payload.len() > u32::MAX as usize {
        return Err(CodecError::MalformedEncoder);
    }
    let n: u32 = payload.len() as u32;
    out.push((n / 0x100_0000) as u8);
    out.push(((n / 0x1_0000) % 256) as u8);
    out.push(((n / 0x100) % 256) as u8);
    out.push((n % 256) as u8);
    let ghost head = out@;
    assert(head =~= old(out)@ + spec_be_bytes(n));
    let mut i: usize = 0;
    while i < payload.len()
        invariant
            i <= payload.len(),
            out@ == head + payload@.subrange(0, i as int),
        decreases payload.len() - i,
    {
        out.push(payload[i]);
        i += 1;
        assert(out@ =~= head + payload@.subrange(0, i as int));
    }
    assert(payload@.subrange(0, payload.len() as int) =~= payload@);
    assert(out@ =~= old(out)@ + spec_frame(payload@));
    Ok(())
}

/// Reads the frame that begins at `pos`: its payload and the position
/// behind it. Where the stream ends at `pos` the answer is `Eof`; where it
/// ends inside the frame, `Deserialize`.
pub fn read_frame(s: &Vec<u8>, pos: usize) -> (r: Result<(Vec<u8>, usize), CodecError>)
    ensures
        match spec_read_frame(s@, pos as int) {
            FrameAt::End => r == Err::<(Vec<u8>, usize), CodecError>(CodecError::Eof),
            FrameAt::Truncated => r == Err::<(Vec<u8>, usize), CodecError>(
                CodecError::Deserialize,
            ),
            FrameAt::Frame(payload, next) => r matches Ok(out) && out.0@ == payload && out.1
                == next && pos < next <= s.len(),
        },
{
    if pos >= s.len() {
        return Err(CodecError::Eof);
    }
    if s.len() - pos < FRAME_HEADER_BYTES {
        return Err(CodecError::Deserialize);
    }
    let n: u32 = (s[pos] as u32) * 0x100_0000 + (s[pos + 1] as u32) * 0x1_0000 + (s[pos
        + 2] as u32) * 0x100 + (s[pos + 3] as u32);
    let start: usize = pos + FRAME_HEADER_BYTES;
    let left: u64 = (s.len() - start) as u64;
    if left < (n as u64) {
        return Err(CodecError::Deserialize);
    }
    let end: usize = start + n as usize;
    let mut payload: Vec<u8> = Vec::new();
    let mut i: usize = start;
    while i < end
        invariant
            start <= i <= end <= s.len(),
            payload@ == s@.subrange(start as int, i as int),
        decreases end - i,
    {
        payload.push(s[i]);
        i += 1;
        assert(payload@ =~= s@.subrange(start as int, i as int));
    }
    Ok((payload, end))
}

/// The length field reads back as the length it was written for.
pub proof fn lemma_be_round_trip(v: u32)
    ensures
        spec_be_bytes(v).len() == 4,
        spec_be_value(
            spec_be_bytes(v)[0],
            spec_be_bytes(v)[1],
            spec_be_bytes(v)[2],
            spec_be_bytes(v)[3],
        ) == v,
{
}

/// A frame that stands at `pos` is read there whole, whatever follows it:
/// units written one behind the other, in one session or in several, are
/// read back one by one.
pub proof fn lemma_read_frame(s: Seq<u8>, pos: int, payload: Seq<u8>)
    requires
        0 <= pos,
        payload.len() <= u32::MAX,
        pos + spec_frame(payload).len() <= s.len(),
        s.subrange(pos, pos + spec_frame(payload).len()) == spec_frame(payload),
    ensures
        spec_read_frame(s, pos) == FrameAt::Frame(payload, pos + 4 + payload.len()),
{
    let f = spec_frame(payload);
    let head = spec_be_bytes(payload.len() as u32);
    lemma_be_round_trip(payload.len() as u32);
    let sub = s.subrange(pos, pos + f.len());
    assert(s[pos] == sub[0] && sub[0] == head[0]);
    assert(s[pos + 1] == sub[1] && sub[1] == head[1]);
    assert(s[pos + 2] == sub[2] && sub[2] == head[2]);
    assert(s[pos + 3] == sub[3] && sub[3] == head[3]);
    let got = s.subrange(pos + 4, pos + 4 + payload.len());
    assert(got =~= payload) by {
        assert forall|j: int| 0 <= j < payload.len() implies got[j] == payload[j] by {
            assert(s[pos + 4 + j] == sub[4 + j]);
            assert(f[4 + j] == payload[j]);
        }
    }
}

/// The frames of payloads written one behind the other are the frames of
/// the first payloads followed by the frames of the rest.
pub proof fn lemma_frames_concat(a: Seq<Seq<u8>>, b: Seq<Seq<u8>>, n: int)
    requires
        0 <= n <= b.len(),
    ensures
        spec_frames(a + b, a.len() + n) == spec_frames(a, a.len() as int) + spec_frames(b, n),
    decreases n,
{
    if n == 0 {
        lemma_frames_prefix(a, a + b, a.len() as int);
        assert(spec_frames(b, 0) =~= Seq::<u8>::empty());
        assert(spec_frames(a, a.len() as int) + Seq::<u8>::empty() =~= spec_frames(
            a,
            a.len() as int,
        ));
    } else {
        lemma_frames_concat(a, b, n - 1);
        assert((a + b)[a.len() + n - 1] == b[n - 1]);
        assert(spec_frames(a + b, a.len() + n) =~= spec_frames(a, a.len() as int) + spec_frames(
            b,
            n,
        ));
    }
}

/// The frames of the first `n` payloads depend on those payloads only.
pub proof fn lemma_frames_prefix(a: Seq<Seq<u8>>, b: Seq<Seq<u8>>, n: int)
    requires
        0 <= n <= a.len(),
        n <= b.len(),
        forall|i: int| 0 <= i < n ==> a[i] == b[i],
    ensures
        spec_frames(a, n) == spec_frames(b, n),
    decreases n,
{
    if n > 0 {
        lemma_frames_prefix(a, b, n - 1);
    }
}

} // verus!
