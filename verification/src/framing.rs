use vstd::prelude::*;

verus! {

/// Largest payload, in bytes, that a frame may announce (1 MiB).
pub const MAX_FRAME_LEN: usize = 1_048_576;

/// Why a frame header was refused.
#[derive(Debug, Clone, Copy, PartialEq, Eq, Structural)]
pub enum FrameError {
    /// The header announces more than `MAX_FRAME_LEN` bytes.
    TooLarge,
}

/// The four little-endian bytes of `n`.
pub open spec fn le_bytes(n: u32) -> Seq<u8> {
    seq![
        (n % 0x100) as u8,
        ((n / 0x100) % 0x100) as u8,
        ((n / 0x1_0000) % 0x100) as u8,
        (n / 0x100_0000) as u8,
    ]
}

/// The number whose little-endian bytes are `b[0..4]`.
pub open spec fn le_value(b: Seq<u8>) -> int {
    b[0] + b[1] * 0x100 + b[2] * 0x1_0000 + b[3] * 0x100_0000
}

/// The header in front of a payload of `len` bytes: the length, cut to 32
/// bits, in little-endian order.
pub open spec fn header_of(len: nat) -> Seq<u8> {
    le_bytes((len % 0x1_0000_0000) as u32)
}

/// What a reader makes of a header: the announced length, unless it exceeds
/// the limit.
pub open spec fn decoded_length(header: Seq<u8>) -> Result<usize, FrameError> {
    if le_value(header) > MAX_FRAME_LEN {
        Err(FrameError::TooLarge)
    } else {
        Ok(le_value(header) as usize)
    }
}

/// The bytes of one frame: header, then payload.
pub open spec fn frame_of(payload: Seq<u8>) -> Seq<u8> {
    header_of(payload.len()) + payload
}

proof fn lemma_le_roundtrip(n: u32)
    ensures
        le_value(le_bytes(n)) == n,
{
    let b0: u32 = n % 0x100;
    let b1: u32 = (n / 0x100) % 0x100;
    let b2: u32 = (n / 0x1_0000) % 0x100;
    let b3: u32 = n / 0x100_0000;
    assert(b0 + b1 * 0x100 + b2 * 0x1_0000 + b3 * 0x100_0000 == n) by (bit_vector)
        requires
            b0 == n % 0x100,
            b1 == (n / 0x100) % 0x100,
            b2 == (n / 0x1_0000) % 0x100,
            b3 == n / 0x100_0000,
    ;
    assert(b3 < 0x100) by (bit_vector)
        requires
            b3 == n / 0x100_0000,
    ;
}

/// The header for a payload of `len` bytes.
pub fn frame_header(len: usize) -> (header: [u8; 4])
    ensures
        header@ == header_of(len as nat),
{
    let n: u32 = (len as u64 % 0x1_0000_0000u64) as u32;
    assert(n / 0x100_0000 < 0x100) by (bit_vector);
    let header = [
        (n % 0x100) as u8,
        ((n / 0x100) % 0x100) as u8,
        ((n / 0x1_0000) % 0x100) as u8,
        (n / 0x100_0000) as u8,
    ];
    assert(header@ =~= header_of(len as nat));
    header
}

/// Reads the payload length out of a frame header.
pub fn decode_frame_length(header: [u8; 4]) -> (len: Result<usize, FrameError>)
    ensures
        len == decoded_length(header@),
{
    let n: u32 = header[0] as u32 + header[1] as u32 * 0x100 + header[2] as u32 * 0x1_0000
        + header[3] as u32 * 0x100_0000;
    if n as u64 > MAX_FRAME_LEN as u64 {
        Err(FrameError::TooLarge)
    } else {
        Ok(n as usize)
    }
}

/// The bytes of one frame carrying `payload`.
pub fn encode_frame(payload: &[u8]) -> (frame: Vec<u8>)
    ensures
        frame@ == frame_of(payload@),
{
    let header = frame_header(payload.len());
    let mut frame: Vec<u8> = Vec::new();
    for i in 0..4
        invariant
            frame@ == header@.take(i as int),
    {
        frame.push(header[i]);
    }
    let mut j: usize = 0;
    while j < payload.len()
        invariant
            j <= payload@.len(),
            frame@ == header@ + payload@.take(j as int),
        decreases payload@.len() - j,
    {
        frame.push(payload[j]);
        j = j + 1;
    }
    assert(payload@.take(payload@.len() as int) =~= payload@);
    frame
}

/// A header holds its length in four bytes, least significant first: the
/// bytes, weighted by 1, 256, 65536 and 16777216, add up to the length
/// modulo 2^32, and each is below 256.
pub proof fn lemma_header_little_endian(len: nat)
    ensures
        header_of(len).len() == 4,
        header_of(len)[0] + header_of(len)[1] * 256 + header_of(len)[2] * 65536 + header_of(len)[3]
            * 16777216 == len % 0x1_0000_0000,
{
    lemma_le_roundtrip((len % 0x1_0000_0000) as u32);
}

/// A reader takes the four header bytes as a little-endian number and
/// accepts it exactly when it is at most 1 MiB.
pub proof fn lemma_decode_little_endian(header: Seq<u8>)
    requires
        header.len() == 4,
    ensures
        ({
            let v = header[0] + header[1] * 256 + header[2] * 65536 + header[3] * 16777216;
            &&& v <= 1_048_576 ==> decoded_length(header) == Ok::<usize, FrameError>(v as usize)
            &&& v > 1_048_576 ==> decoded_length(header) == Err::<usize, FrameError>(FrameError::TooLarge)
        }),
{
}

/// A header announces exactly the length it was made for, and a reader
/// accepts it, whenever that length is within the limit.
pub proof fn lemma_header_roundtrip(len: nat)
    requires
        len <= MAX_FRAME_LEN,
    ensures
        decoded_length(header_of(len)) == Ok::<usize, FrameError>(len as usize),
{
    lemma_le_roundtrip((len % 0x1_0000_0000) as u32);
}

/// A reader refuses every header made for a length above the limit that
/// fits in 32 bits.
pub proof fn lemma_header_too_large(len: nat)
    requires
        MAX_FRAME_LEN < len < 0x1_0000_0000,
    ensures
        decoded_length(header_of(len)) == Err::<usize, FrameError>(FrameError::TooLarge),
{
    lemma_le_roundtrip((len % 0x1_0000_0000) as u32);
}

/// A frame carries its payload back: the first four bytes announce its
/// length and the rest are the payload.
pub proof fn lemma_frame_roundtrip(payload: Seq<u8>)
    requires
        payload.len() <= MAX_FRAME_LEN,
    ensures
        decoded_length(frame_of(payload).take(4)) == Ok::<usize, FrameError>(payload.len() as usize),
        frame_of(payload).skip(4) == payload,
{
    lemma_header_roundtrip(payload.len());
    assert(frame_of(payload).take(4) =~= header_of(payload.len()));
    assert(frame_of(payload).skip(4) =~= payload);
}

} // verus!
