//! Messages over a byte stream: each message is sent as its length, eight bytes
//! little-endian, followed by its bytes.
use vstd::prelude::*;

verus! {

/// `std::io::Error`, carried through as it is.
#[verifier::external_type_specification]
#[verifier::external_body]
pub struct ExIoError(std::io::Error);

/// Why a message could not be read or written.
pub enum FrameError {
    /// The stream failed.
    Io(std::io::Error),
    /// The announced length, in bytes, exceeds the size limit.
    TooBig(usize),
}

/// The number that the eight bytes `b` stand for, least significant byte first.
pub open spec fn le_u64(b: Seq<u8>) -> u64 {
    (b[0] as u64) | ((b[1] as u64) << 8u64) | ((b[2] as u64) << 16u64) | ((b[3] as u64) << 24u64) | ((b[4] as u64)
        << 32u64) | ((b[5] as u64) << 40u64) | ((b[6] as u64) << 48u64) | ((b[7] as u64) << 56u64)
}

/// The eight bytes of `n`, least significant first.
pub open spec fn u64_le(n: u64) -> Seq<u8> {
    seq![
        (n & 0xff) as u8,
        ((n >> 8u64) & 0xff) as u8,
        ((n >> 16u64) & 0xff) as u8,
        ((n >> 24u64) & 0xff) as u8,
        ((n >> 32u64) & 0xff) as u8,
        ((n >> 40u64) & 0xff) as u8,
        ((n >> 48u64) & 0xff) as u8,
        ((n >> 56u64) & 0xff) as u8,
    ]
}

/// The bytes that carry the message `blob`: its length, then the message.
pub open spec fn frame_bytes(blob: Seq<u8>) -> Seq<u8> {
    u64_le(blob.len() as u64) + blob
}

/// What the receiver makes of a length header `header` under the size limit
/// `limit`: the length, or the error that it is too big.
pub open spec fn header_length(header: Seq<u8>, limit: usize) -> Result<usize, usize> {
    let len = le_u64(header) as usize;
    if len > limit {
        Err(len)
    } else {
        Ok(len)
    }
}

/// A length header reads back as the number it was made from.
pub proof fn lemma_header_round_trip(n: u64)
    ensures
        le_u64(u64_le(n)) == n,
{
    let b = u64_le(n);
    assert(b[0] == (n & 0xff) as u8);
    assert(b[1] == ((n >> 8u64) & 0xff) as u8);
    assert(b[2] == ((n >> 16u64) & 0xff) as u8);
    assert(b[3] == ((n >> 24u64) & 0xff) as u8);
    assert(b[4] == ((n >> 32u64) & 0xff) as u8);
    assert(b[5] == ((n >> 40u64) & 0xff) as u8);
    assert(b[6] == ((n >> 48u64) & 0xff) as u8);
    assert(b[7] == ((n >> 56u64) & 0xff) as u8);
    assert(((((n & 0xff) as u8) as u64) | (((((n >> 8u64) & 0xff) as u8) as u64) << 8u64) | (((((n >> 16u64) & 0xff) as u8) as u64) << 16u64)
        | (((((n >> 24u64) & 0xff) as u8) as u64) << 24u64) | (((((n >> 32u64) & 0xff) as u8) as u64) << 32u64)
        | (((((n >> 40u64) & 0xff) as u8) as u64) << 40u64) | (((((n >> 48u64) & 0xff) as u8) as u64) << 48u64)
        | (((((n >> 56u64) & 0xff) as u8) as u64) << 56u64)) == n) by (bit_vector);
}

/// A message sent within the size limit is received whole: the header of its
/// frame gives its length, and the rest of the frame is the message.
pub proof fn lemma_frame_round_trip(blob: Seq<u8>, limit: usize)
    requires
        blob.len() <= limit,
    ensures
        header_length(frame_bytes(blob).take(8), limit) == Ok::<usize, usize>(blob.len() as usize),
        frame_bytes(blob).skip(8) == blob,
{
    lemma_header_round_trip(blob.len() as u64);
    assert(frame_bytes(blob).take(8) =~= u64_le(blob.len() as u64));
    assert(frame_bytes(blob).skip(8) =~= blob);
}

/// The length header of a message of `len` bytes.
pub fn length_header(len: u64) -> (header: Vec<u8>)
    ensures
        header@ == u64_le(len),
{
    let mut header: Vec<u8> = Vec::with_capacity(8);
    header.push((len & 0xff) as u8);
    header.push(((len >> 8) & 0xff) as u8);
    header.push(((len >> 16) & 0xff) as u8);
    header.push(((len >> 24) & 0xff) as u8);
    header.push(((len >> 32) & 0xff) as u8);
    header.push(((len >> 40) & 0xff) as u8);
    header.push(((len >> 48) & 0xff) as u8);
    header.push(((len >> 56) & 0xff) as u8);
    assert(header@ =~= u64_le(len));
    header
}

/// The length a header announces, checked against the size limit `limit`.
pub fn header_len(header: &Vec<u8>, limit: usize) -> (r: Result<usize, FrameError>)
    requires
        header@.len() == 8,
    ensures
        match header_length(header@, limit) {
            Ok(n) => r matches Ok(m) && m == n,
            Err(n) => r matches Err(FrameError::TooBig(m)) && m == n,
        },
{
    let n: u64 = (header[0] as u64) | ((header[1] as u64) << 8) | ((header[2] as u64) << 16) | ((header[3] as u64)
        << 24) | ((header[4] as u64) << 32) | ((header[5] as u64) << 40) | ((header[6] as u64) << 48) | ((
    header[7] as u64) << 56);
    let len = n as usize;
    if len > limit {
        Err(FrameError::TooBig(len))
    } else {
        Ok(len)
    }
}

/// `std::io::Read::read_exact` on `reader`, into all of `buf`. The bytes that arrive
/// come from the stream and are not stated; `buf` keeps its length.
#[verifier::external_body]
fn read_exact_into<R: std::io::Read>(reader: &mut R, buf: &mut Vec<u8>) -> (r: Result<(), std::io::Error>)
    ensures
        final(buf)@.len() == old(buf)@.len(),
{
    reader.read_exact(buf.as_mut_slice())
}

/// `std::io::Write::write_all` on `writer` with `bytes`. Whether the stream takes
/// them is not stated.
#[verifier::external_body]
fn write_all_bytes<W: std::io::Write>(writer: &mut W, bytes: &[u8]) -> (r: Result<(), std::io::Error>) {
    writer.write_all(bytes)
}

/// A layer over a blocking stream that splits it into messages.
pub struct MessageProto<T> {
    inner: T,
    size_limit: usize,
}

impl<T> MessageProto<T> {
    /// The largest message, in bytes, that is received.
    pub closed spec fn limit(&self) -> usize {
        self.size_limit
    }

    /// The stream.
    pub closed spec fn stream(&self) -> T {
        self.inner
    }

    /// Sets the size limit for received messages and returns the one it replaces.
    pub fn set_size_limit(&mut self, new: usize) -> (previous: usize)
        ensures
            previous == old(self).limit(),
            final(self).limit() == new,
            final(self).stream() == old(self).stream(),
    {
        let previous = self.size_limit;
        self.size_limit = new;
        previous
    }

    /// A layer over `inner` that receives messages of at most `size_limit` bytes.
    pub fn new(inner: T, size_limit: usize) -> (p: Self)
        ensures
            p.limit() == size_limit,
            p.stream() == inner,
    {
        Self { inner, size_limit }
    }

    /// The stream.
    pub fn get_ref(&self) -> (r: &T)
        ensures
            *r == self.stream(),
    {
        &self.inner
    }

    /// The stream, to use directly.
    pub fn get_mut(&mut self) -> (r: &mut T)
        ensures
            *r == old(self).stream(),
            final(self).limit() == old(self).limit(),
            final(self).stream() == *final(r),
    {
        &mut self.inner
    }
}

impl<T: std::io::Read> MessageProto<T> {
    /// Receives a message: its length header, then as many bytes as it announces.
    /// A length over the size limit is refused before any of the message is read.
    /// The message is as long as the header announces, and a refused length is the
    /// one it announced; the bytes themselves come from the stream.
    pub fn recv(&mut self) -> (r: Result<Vec<u8>, FrameError>)
        ensures
            final(self).limit() == old(self).limit(),
            r matches Ok(blob) ==> blob@.len() <= old(self).limit(),
            r matches Ok(blob) ==> exists|h: Seq<u8>|
                h.len() == 8 && header_length(h, old(self).limit()) == Ok::<usize, usize>(blob@.len() as usize),
            r matches Err(FrameError::TooBig(n)) ==> n > old(self).limit(),
            r matches Err(FrameError::TooBig(n)) ==> exists|h: Seq<u8>|
                h.len() == 8 && header_length(h, old(self).limit()) == Err::<usize, usize>(n),
    {
        let mut header: Vec<u8> = vec![0u8; 8];
        match read_exact_into(&mut self.inner, &mut header) {
            Ok(()) => {},
            Err(e) => {
                return Err(FrameError::Io(e));
            },
        }
        let ghost h = header@;
        let len = match header_len(&header, self.size_limit) {
            Ok(len) => len,
            Err(e) => {
                return Err(e);
            },
        };
        let mut blob: Vec<u8> = vec![0u8; len];
        match read_exact_into(&mut self.inner, &mut blob) {
            Ok(()) => {
                assert(header_length(h, old(self).limit()) == Ok::<usize, usize>(blob@.len() as usize));
                Ok(blob)
            },
            Err(e) => Err(FrameError::Io(e)),
        }
    }
}

/// The bytes that carry the message `blob`: its length header, then the message.
pub fn frame(blob: &[u8]) -> (f: Vec<u8>)
    ensures
        f@ == frame_bytes(blob@),
{
    let mut f = length_header(blob.len() as u64);
    let mut i: usize = 0;
    while i < blob.len()
        invariant
            i <= blob@.len(),
            f@ == u64_le(blob@.len() as u64) + blob@.take(i as int),
        decreases blob@.len() - i,
    {
        f.push(blob[i]);
        i += 1;
        assert(f@ =~= u64_le(blob@.len() as u64) + blob@.take(i as int));
    }
    assert(blob@.take(i as int) =~= blob@);
    f
}

impl<T: std::io::Write> MessageProto<T> {
    /// Sends a message: the writer is handed `frame(blob)`, the length header of
    /// `blob` followed by `blob`, in one write. Whatever the size limit, the message
    /// is sent; only a failing stream makes it fail.
    pub fn send(&mut self, blob: &[u8]) -> (r: Result<(), FrameError>)
        ensures
            final(self).limit() == old(self).limit(),
            !(r matches Err(FrameError::TooBig(_))),
    {
        let bytes = frame(blob);
        match write_all_bytes(&mut self.inner, bytes.as_slice()) {
            Ok(()) => Ok(()),
            Err(e) => Err(FrameError::Io(e)),
        }
    }
}

/// The size limit a new layer gets when it is made from a stream alone: 6 MiB.
pub const DEFAULT_SIZE_LIMIT: usize = 6291456;

impl<T> MessageProto<T> {
    /// A layer over `inner` with the default size limit.
    pub fn from_stream(inner: T) -> (p: Self)
        ensures
            p.limit() == DEFAULT_SIZE_LIMIT,
            p.stream() == inner,
    {
        Self::new(inner, DEFAULT_SIZE_LIMIT)
    }
}

/// A layer over an asynchronous stream that splits it into messages; the awaiting
/// itself is left to the caller, who reads the length header, has it checked
/// here, and then reads the message.
pub struct S2D<T> {
    inner: T,
    size_limit: usize,
}

impl<T> S2D<T> {
    /// The largest message, in bytes, that is received.
    pub closed spec fn limit(&self) -> usize {
        self.size_limit
    }

    /// The stream.
    pub closed spec fn stream(&self) -> T {
        self.inner
    }

    /// Sets the size limit for received messages and returns the one it replaces.
    pub fn set_size_limit(&mut self, new: usize) -> (previous: usize)
        ensures
            previous == old(self).limit(),
            final(self).limit() == new,
            final(self).stream() == old(self).stream(),
    {
        let previous = self.size_limit;
        self.size_limit = new;
        previous
    }

    /// A layer over `inner` that receives messages of at most `size_limit` bytes.
    pub fn new(inner: T, size_limit: usize) -> (p: Self)
        ensures
            p.limit() == size_limit,
            p.stream() == inner,
    {
        Self { inner, size_limit }
    }

    /// A layer over `inner` with the default size limit.
    pub fn from_stream(inner: T) -> (p: Self)
        ensures
            p.limit() == DEFAULT_SIZE_LIMIT,
            p.stream() == inner,
    {
        Self::new(inner, DEFAULT_SIZE_LIMIT)
    }

    /// The stream.
    pub fn get_ref(&self) -> (r: &T)
        ensures
            *r == self.stream(),
    {
        &self.inner
    }

    /// The stream, to read from or write to.
    pub fn get_mut(&mut self) -> (r: &mut T)
        ensures
            *r == old(self).stream(),
            final(self).limit() == old(self).limit(),
            final(self).stream() == *final(r),
    {
        &mut self.inner
    }

    /// Checks the length `len` that a received header announces against the size
    /// limit: the length as a `usize`, or the error that it is too big.
    pub fn accept_len(&self, len: u64) -> (r: Result<usize, FrameError>)
        ensures
            (len as usize) > self.limit() ==> (r matches Err(FrameError::TooBig(m)) && m == len as usize),
            (len as usize) <= self.limit() ==> (r matches Ok(m) && m == len as usize),
    {
        let n = len as usize;
        if n > self.size_limit {
            Err(FrameError::TooBig(n))
        } else {
            Ok(n)
        }
    }
}

impl<T> AsRef<T> for MessageProto<T> {
    /// The stream.
    fn as_ref(&self) -> (r: &T)
        ensures
            *r == self.stream(),
    {
        &self.inner
    }
}

impl<T> AsMut<T> for MessageProto<T> {
    /// The stream, to use directly.
    fn as_mut(&mut self) -> (r: &mut T)
        ensures
            *r == old(self).stream(),
            final(self).limit() == old(self).limit(),
            final(self).stream() == *final(r),
    {
        &mut self.inner
    }
}

impl<T> AsRef<T> for S2D<T> {
    /// The stream.
    fn as_ref(&self) -> (r: &T)
        ensures
            *r == self.stream(),
    {
        &self.inner
    }
}

impl<T> AsMut<T> for S2D<T> {
    /// The stream, to read from or write to.
    fn as_mut(&mut self) -> (r: &mut T)
        ensures
            *r == old(self).stream(),
            final(self).limit() == old(self).limit(),
            final(self).stream() == *final(r),
    {
        &mut self.inner
    }
}

} // verus!
