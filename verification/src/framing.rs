use vstd::prelude::*;

verus! {

/// Largest frame the messenger's TCP listener accepts (10 MiB).
pub const MESSENGER_FRAME_LIMIT: usize = 10485760;

/// Largest frame the peer-to-peer transport accepts.
pub const PEER_FRAME_LIMIT: usize = 10000000;

/// The four big-endian bytes of `n`.
pub open spec fn be32(n: u32) -> Seq<u8> {
    seq![
        (n / 0x1000000) as u8,
        ((n / 0x10000) % 0x100) as u8,
        ((n / 0x100) % 0x100) as u8,
        (n % 0x100) as u8,
    ]
}

/// The number four big-endian bytes encode.
pub open spec fn from_be32(b: Seq<u8>) -> nat {
    (b[0] as nat) * 0x1000000 + (b[1] as nat) * 0x10000 + (b[2] as nat) * 0x100 + (b[3] as nat)
}

/// A frame: the payload's length, truncated to 32 bits, big-endian, then
/// the payload.
pub open spec fn frame_spec(data: Seq<u8>) -> Seq<u8> {
    be32((data.len() % 0x1_0000_0000) as u32) + data
}

proof fn lemma_be32_roundtrip(n: u32)
    ensures
        from_be32(be32(n)) == n,
{
    let b = be32(n);
    assert(b[0] as nat == n / 0x1000000);
    assert(b[1] as nat == (n / 0x10000) % 0x100);
    assert(b[2] as nat == (n / 0x100) % 0x100);
    assert(b[3] as nat == n % 0x100);
    assert((n / 0x1000000) * 0x1000000 + ((n / 0x10000) % 0x100) * 0x10000 + ((n / 0x100) % 0x100)
        * 0x100 + n % 0x100 == n) by (nonlinear_arith);
}

/// The header of a frame for `len` payload bytes.
pub fn frame_header(len: usize) -> (h: [u8; 4])
    ensures
        h@ == be32((len as nat % 0x1_0000_0000) as u32),
{
    let n: u32 = ((len as u64) % 0x1_0000_0000u64) as u32;
    let h = [(n / 0x1000000) as u8, ((n / 0x10000) % 0x100) as u8, ((n / 0x100) % 0x100) as u8, (n % 0x100) as u8];
    proof {
        assert(h@ =~= be32(n));
    }
    h
}

/// The whole frame for `data`.
pub fn encode_frame(data: &[u8]) -> (f: Vec<u8>)
    ensures
        f@ == frame_spec(data@),
{
    let h = frame_header(data.len());
    let mut f: Vec<u8> = Vec::new();
    f.push(h[0]);
    f.push(h[1]);
    f.push(h[2]);
    f.push(h[3]);
    let mut i: usize = 0;
    while i < data.len()
        invariant
            i <= data@.len(),
            f@ == h@ + data@.subrange(0, i as int),
        decreases data@.len() - i,
    {
        f.push(data[i]);
        i = i + 1;
        assert(f@ =~= h@ + data@.subrange(0, i as int));
    }
    assert(data@.subrange(0, data@.len() as int) =~= data@);
    f
}

/// The payload length a frame header announces, or `None` when it is
/// above `limit` (the frame is then dropped).
pub fn frame_length(header: [u8; 4], limit: usize) -> (r: Option<usize>)
    ensures
        from_be32(header@) <= limit ==> r == Some(from_be32(header@) as usize),
        from_be32(header@) > limit ==> r is None,
{
    let n: u64 = (header[0] as u64) * 0x1000000 + (header[1] as u64) * 0x10000 + (header[2] as u64)
        * 0x100 + (header[3] as u64);
    if n > limit as u64 {
        None
    } else {
        Some(n as usize)
    }
}

/// What a buffer that starts with a frame holds.
pub enum FrameRead {
    /// Not all of the frame has arrived.
    Incomplete,
    /// The announced length is above the limit.
    TooLarge,
    /// The payload and the number of bytes the frame took.
    Frame { payload: Vec<u8>, consumed: usize },
}

/// Reads the frame at the start of `buf`.
pub fn decode_frame(buf: &[u8], limit: usize) -> (r: FrameRead)
    ensures
        buf@.len() < 4 ==> r is Incomplete,
        buf@.len() >= 4 ==> ({
            let n = from_be32(buf@.subrange(0, 4));
            if n > limit {
                r is TooLarge
            } else if buf@.len() < 4 + n {
                r is Incomplete
            } else {
                r matches FrameRead::Frame { payload, consumed } && consumed == 4 + n
                    && payload@ == buf@.subrange(4, 4 + n as int)
            }
        }),
{
    if buf.len() < 4 {
        return FrameRead::Incomplete;
    }
    let header = [buf[0], buf[1], buf[2], buf[3]];
    assert(header@ =~= buf@.subrange(0, 4));
    match frame_length(header, limit) {
        None => FrameRead::TooLarge,
        Some(n) => {
            if buf.len() - 4 < n {
                FrameRead::Incomplete
            } else {
                let mut payload: Vec<u8> = Vec::new();
                let mut i: usize = 0;
                while i < n
                    invariant
                        i <= n,
                        4 + n <= buf.len(),
                        payload@ == buf@.subrange(4, 4 + i),
                    decreases n - i,
                {
                    payload.push(buf[4 + i]);
                    i = i + 1;
                    assert(payload@ =~= buf@.subrange(4, 4 + i));
                }
                FrameRead::Frame { payload, consumed: 4 + n }
            }
        },
    }
}

/// A frame read back gives the payload that was framed, for any payload
/// within the limit.
pub proof fn lemma_frame_roundtrip(data: Seq<u8>, limit: usize)
    requires
        data.len() <= limit,
        limit < 0x1_0000_0000,
    ensures
        from_be32(frame_spec(data).subrange(0, 4)) == data.len(),
        frame_spec(data).subrange(4, 4 + data.len() as int) == data,
{
    let n = (data.len() % 0x1_0000_0000) as u32;
    assert(n == data.len());
    lemma_be32_roundtrip(n);
    assert(frame_spec(data).subrange(0, 4) =~= be32(n));
    assert(frame_spec(data).subrange(4, 4 + data.len() as int) =~= data);
}

/// Reading back what a peer sent: a stream that starts with the frame of
/// `data` (whatever follows it) has a header that announces `data`'s length,
/// within the peer limit whenever `data` is, and the next that many bytes
/// are `data` itself.
pub proof fn lemma_read_what_was_sent(data: Seq<u8>, rest: Seq<u8>)
    requires
        data.len() <= PEER_FRAME_LIMIT,
    ensures
        ({
            let stream = frame_spec(data) + rest;
            &&& stream.len() >= 4 + data.len()
            &&& from_be32(stream.subrange(0, 4)) == data.len()
            &&& from_be32(stream.subrange(0, 4)) <= PEER_FRAME_LIMIT
            &&& stream.subrange(4, 4 + data.len() as int) == data
        }),
{
    let stream = frame_spec(data) + rest;
    lemma_frame_roundtrip(data, PEER_FRAME_LIMIT);
    assert(stream.subrange(0, 4) =~= frame_spec(data).subrange(0, 4));
    assert(stream.subrange(4, 4 + data.len() as int) =~= frame_spec(data).subrange(4, 4 + data.len() as int));
}

} // verus!
