//! Framing of byte messages: a length of four bytes, most significant first,
//! and then that many bytes.

use vstd::prelude::*;

verus! {

/// Why a frame could not be written or read.
#[derive(Debug, Clone, Copy, PartialEq, Eq, Structural)]
pub enum FrameError {
    /// The input ends before the frame does.
    UnexpectedEof,
    /// The message has more bytes than a length of four bytes can say.
    TooLong,
}

/// The four bytes that stand for the length `n`.
pub open spec fn length_prefix(n: u32) -> Seq<u8> {
    seq![
        (n / 0x100_0000) as u8,
        ((n / 0x1_0000) % 0x100) as u8,
        ((n / 0x100) % 0x100) as u8,
        (n % 0x100) as u8,
    ]
}

/// The length that the first four bytes of `input` stand for.
pub open spec fn prefix_value(input: Seq<u8>) -> int {
    input[0] * 0x100_0000 + input[1] * 0x1_0000 + input[2] * 0x100 + input[3]
}

/// A message with its length before it.
pub open spec fn framed(bytes: Seq<u8>) -> Seq<u8> {
    length_prefix(bytes.len() as u32) + bytes
}

/// Whether `input` begins with a whole frame.
pub open spec fn holds_frame(input: Seq<u8>) -> bool {
    input.len() >= 4 && input.len() - 4 >= prefix_value(input)
}

/// The message of the frame that `input` begins with.
pub open spec fn frame_payload(input: Seq<u8>) -> Seq<u8> {
    input.subrange(4, 4 + prefix_value(input))
}

/// The length of the message that follows the header `header`, where the
/// header is whole: for reading the rest of a frame from a stream.
pub fn frame_len(header: &[u8]) -> (len: Option<u64>)
    ensures
        header@.len() >= 4 ==> len == Some(prefix_value(header@) as u64),
        header@.len() < 4 ==> len is None,
{
    if header.len() < 4 {
        return None;
    }
    Some(
        (header[0] as u64) * 0x100_0000 + (header[1] as u64) * 0x1_0000 + (header[2] as u64)
            * 0x100 + (header[3] as u64),
    )
}

/// Reads the frame that `reader` begins with and hands back its message.
/// Bytes after the frame are left alone: the next frame starts four bytes
/// and the message's length further on.
pub fn read_len_prefixed(reader: &[u8]) -> (result: Result<Vec<u8>, FrameError>)
    ensures
        holds_frame(reader@) ==> result is Ok && result->Ok_0@ == frame_payload(reader@),
        !holds_frame(reader@) ==> result == Err::<Vec<u8>, FrameError>(FrameError::UnexpectedEof),
{
    if reader.len() < 4 {
        return Err(FrameError::UnexpectedEof);
    }
    let len: u64 = match frame_len(reader) {
        Some(len) => len,
        None => {
            return Err(FrameError::UnexpectedEof);
        },
    };
    if ((reader.len() - 4) as u64) < len {
        return Err(FrameError::UnexpectedEof);
    }
    let end: usize = 4 + len as usize;
    let mut data: Vec<u8> = Vec::new();
    let mut i: usize = 4;
    while i < end
        invariant
            4 <= i <= end <= reader.len(),
            data@ == reader@.subrange(4, i as int),
        decreases end - i,
    {
        data.push(reader[i]);
        i += 1;
    }
    Ok(data)
}

/// Appends `bytes` to `writer` as one frame. A message too long for the
/// length field is refused and nothing is written.
pub fn write_len_prefixed(writer: &mut Vec<u8>, bytes: &[u8]) -> (result: Result<
    (),
    FrameError,
>)
    ensures
        bytes@.len() <= u32::MAX ==> result is Ok && final(writer)@ == old(writer)@ + framed(
            bytes@,
        ),
        bytes@.len() > u32::MAX ==> result == Err::<(), FrameError>(FrameError::TooLong)
            && final(writer)@ == old(writer)@,
{
    if bytes.len() > u32::MAX as usize {
        return Err(FrameError::TooLong);
    }
    let len: u32 = bytes.len() as u32;
    writer.push((len / 0x100_0000) as u8);
    writer.push(((len / 0x1_0000) % 0x100) as u8);
    writer.push(((len / 0x100) % 0x100) as u8);
    writer.push((len % 0x100) as u8);
    let mut i: usize = 0;
    while i < bytes.len()
        invariant
            i <= bytes.len(),
            writer@ == old(writer)@ + length_prefix(len) + bytes@.subrange(0, i as int),
        decreases bytes.len() - i,
    {
        writer.push(bytes[i]);
        i += 1;
    }
    proof {
        assert(bytes@.subrange(0, bytes@.len() as int) == bytes@);
        assert(writer@ == old(writer)@ + framed(bytes@));
    }
    Ok(())
}

/// What was written as a frame is read back as it was, whatever follows it.
pub proof fn lemma_frame_round_trip(bytes: Seq<u8>, rest: Seq<u8>)
    requires
        bytes.len() <= u32::MAX,
    ensures
        holds_frame(framed(bytes) + rest),
        frame_payload(framed(bytes) + rest) == bytes,
{
    let input = framed(bytes) + rest;
    let n = bytes.len() as u32;
    assert(input[0] == (n / 0x100_0000) as u8);
    assert(input[1] == ((n / 0x1_0000) % 0x100) as u8);
    assert(input[2] == ((n / 0x100) % 0x100) as u8);
    assert(input[3] == (n % 0x100) as u8);
    assert(prefix_value(input) == n);
    assert(input.subrange(4, 4 + n) =~= bytes);
}

} // verus!
