use crate::chunk_type::{valid_type_bytes, ChunkType};
use crate::error::FormatError;
use crate::text::utf8_to_string;
use crc::{Crc, CRC_32_ISO_HDLC};
use vstd::prelude::*;
use vstd::utf8::*;

verus! {

/// The CRC-32 (ISO-HDLC) checksum of a byte sequence.
pub uninterp spec fn crc32_iso_hdlc(bytes: Seq<u8>) -> u32;

/// Relies on crc's `Crc::<u32>::checksum` with the `CRC_32_ISO_HDLC` algorithm: a pure
/// function of the bytes.
#[verifier::external_body]
fn checksum(bytes: &[u8]) -> (r: u32)
    ensures
        r == crc32_iso_hdlc(bytes@),
{
    Crc::<u32>::new(&CRC_32_ISO_HDLC).checksum(bytes)
}

/// The four bytes of `v`, most significant first.
pub open spec fn u32_be(v: u32) -> Seq<u8> {
    seq![(v >> 24u32) as u8, ((v >> 16u32) & 0xff) as u8, ((v >> 8u32) & 0xff) as u8, (v & 0xff) as u8]
}

/// The number whose big-endian bytes are the first four of `b`.
pub open spec fn u32_from_be(b: Seq<u8>) -> u32 {
    ((b[0] as u32) << 24u32) | ((b[1] as u32) << 16u32) | ((b[2] as u32) << 8u32) | (b[3] as u32)
}

/// Reading back the big-endian bytes of a number gives the number.
pub proof fn lemma_u32_be_round_trip(v: u32)
    ensures
        u32_from_be(u32_be(v)) == v,
{
    let b = u32_be(v);
    let (b0, b1, b2, b3) = (b[0], b[1], b[2], b[3]);
    assert(b0 == (v >> 24u32) as u8 && b1 == ((v >> 16u32) & 0xff) as u8 && b2 == ((v >> 8u32)
        & 0xff) as u8 && b3 == (v & 0xff) as u8 ==> ((b0 as u32) << 24u32) | ((b1 as u32)
        << 16u32) | ((b2 as u32) << 8u32) | (b3 as u32) == v) by (bit_vector);
}

/// Any four bytes are the big-endian form of the number they encode.
pub proof fn lemma_u32_from_be_round_trip(b: Seq<u8>)
    requires
        b.len() == 4,
    ensures
        u32_be(u32_from_be(b)) == b,
{
    let v = u32_from_be(b);
    let (b0, b1, b2, b3) = (b[0], b[1], b[2], b[3]);
    assert(v == ((b0 as u32) << 24u32) | ((b1 as u32) << 16u32) | ((b2 as u32) << 8u32) | (
    b3 as u32) ==> b0 == (v >> 24u32) as u8 && b1 == ((v >> 16u32) & 0xff) as u8 && b2 == ((v
        >> 8u32) & 0xff) as u8 && b3 == (v & 0xff) as u8) by (bit_vector);
    assert(u32_be(v) =~= b);
}

/// A chunk as values: its type bytes and its data.
pub struct ChunkView {
    pub kind: Seq<u8>,
    pub data: Seq<u8>,
}

/// A chunk that can be written out: a valid type tag and a length that fits in 32 bits.
pub open spec fn chunk_wf(c: ChunkView) -> bool {
    valid_type_bytes(c.kind) && c.data.len() <= u32::MAX
}

/// The checksum of a chunk: over its type bytes followed by its data.
pub open spec fn chunk_crc(c: ChunkView) -> u32 {
    crc32_iso_hdlc(c.kind + c.data)
}

/// The wire form of a chunk: length, type, data and checksum.
pub open spec fn chunk_bytes(c: ChunkView) -> Seq<u8> {
    u32_be(c.data.len() as u32) + c.kind + c.data + u32_be(chunk_crc(c))
}

/// What reading one chunk off the front of `b` gives: the chunk and how many bytes it took.
#[verifier::opaque]
pub open spec fn parse_chunk(b: Seq<u8>) -> Result<(ChunkView, int), FormatError> {
    if b.len() < 8 {
        Err(FormatError::Truncated)
    } else {
        let n = u32_from_be(b) as int;
        let kind = b.subrange(4, 8);
        if !valid_type_bytes(kind) {
            Err(FormatError::NonAlphabetic)
        } else if b.len() < 12 + n {
            Err(FormatError::Truncated)
        } else {
            let c = ChunkView { kind, data: b.subrange(8, 8 + n) };
            if u32_from_be(b.subrange(8 + n, 12 + n)) != chunk_crc(c) {
                Err(FormatError::CrcMismatch)
            } else {
                Ok((c, 12 + n))
            }
        }
    }
}

/// Reading a chunk back from its wire form, whatever follows it, gives the chunk and
/// the length of that wire form.
pub proof fn lemma_parse_chunk_bytes(c: ChunkView, rest: Seq<u8>)
    requires
        chunk_wf(c),
    ensures
        parse_chunk(chunk_bytes(c) + rest) == Ok::<(ChunkView, int), FormatError>(
            (c, 12 + c.data.len() as int),
        ),
{
    reveal(parse_chunk);
    let n = c.data.len() as int;
    let b = chunk_bytes(c) + rest;
    let len = u32_be(n as u32);
    let crc = u32_be(chunk_crc(c));
    lemma_u32_be_round_trip(n as u32);
    lemma_u32_be_round_trip(chunk_crc(c));
    assert(b.subrange(0, 4) =~= len);
    assert(u32_from_be(b) == u32_from_be(b.subrange(0, 4)));
    assert(b.subrange(4, 8) =~= c.kind);
    assert(b.subrange(8, 8 + n) =~= c.data);
    assert(b.subrange(8 + n, 12 + n) =~= crc);
    let v = ChunkView { kind: b.subrange(4, 8), data: b.subrange(8, 8 + n) };
    assert(v == c);
}

/// A chunk that is read takes at least its twelve framing bytes, and no more than there are.
pub proof fn lemma_parse_chunk_size(b: Seq<u8>)
    ensures
        parse_chunk(b) matches Ok((c, n)) ==> 12 <= n <= b.len(),
{
    reveal(parse_chunk);
}

/// Changing any one byte of a chunk's stored checksum makes reading it fail with a
/// checksum mismatch.
pub proof fn lemma_corrupt_crc_rejected(c: ChunkView, k: int, x: u8)
    requires
        chunk_wf(c),
        0 <= k < 4,
        x != chunk_bytes(c)[8 + c.data.len() + k],
    ensures
        parse_chunk(chunk_bytes(c).update(8 + c.data.len() + k, x)) == Err::<
            (ChunkView, int),
            FormatError,
        >(FormatError::CrcMismatch),
{
    reveal(parse_chunk);
    let n = c.data.len() as int;
    let good = chunk_bytes(c);
    let b = good.update(8 + n + k, x);
    lemma_u32_be_round_trip(n as u32);
    assert(b.subrange(0, 4) =~= u32_be(n as u32));
    assert(u32_from_be(b) == u32_from_be(b.subrange(0, 4)));
    assert(b.subrange(4, 8) =~= c.kind);
    assert(b.subrange(8, 8 + n) =~= c.data);
    let v = ChunkView { kind: b.subrange(4, 8), data: b.subrange(8, 8 + n) };
    assert(v == c);
    let stored = b.subrange(8 + n, 12 + n);
    assert(good.subrange(8 + n, 12 + n) =~= u32_be(chunk_crc(c)));
    assert(stored[k] != u32_be(chunk_crc(c))[k]);
    lemma_u32_from_be_round_trip(stored);
    if u32_from_be(stored) == chunk_crc(c) {
        assert(u32_be(u32_from_be(stored)) == u32_be(chunk_crc(c)));
    }
}

/// Reading a chunk out of fewer bytes than its header and declared length ask for fails:
/// as truncated, unless the type bytes that are there are already malformed.
pub proof fn lemma_truncated_rejected(b: Seq<u8>)
    requires
        b.len() < 8 || b.len() < 12 + u32_from_be(b),
    ensures
        parse_chunk(b) is Err,
        b.len() < 8 || valid_type_bytes(b.subrange(4, 8)) ==> parse_chunk(b) == Err::<
            (ChunkView, int),
            FormatError,
        >(FormatError::Truncated),
{
    reveal(parse_chunk);
}

/// The checksum of a chunk depends on its type bytes and data alone, not on how or
/// when the chunk was built: two chunks with the same type and data have the same
/// checksum, which `Chunk::crc` returns on every call.
pub proof fn lemma_crc_deterministic(a: &Chunk, b: &Chunk)
    requires
        a@.kind == b@.kind,
        a@.data == b@.data,
    ensures
        chunk_crc(a@) == chunk_crc(b@),
{
}

/// A PNG chunk: a type tag and a data payload, checksummed on output.
#[derive(Debug)]
pub struct Chunk {
    chunk_type: ChunkType,
    data: Vec<u8>,
}

impl View for Chunk {
    type V = ChunkView;

    closed spec fn view(&self) -> ChunkView {
        ChunkView { kind: self.chunk_type@, data: self.data@ }
    }
}

/// Reads the big-endian number at `b[pos..pos + 4]`.
fn read_u32_be(b: &[u8], pos: usize) -> (r: u32)
    requires
        pos + 4 <= b@.len(),
    ensures
        r == u32_from_be(b@.subrange(pos as int, b@.len() as int)),
{
    ((b[pos] as u32) << 24u32) | ((b[pos + 1] as u32) << 16u32) | ((b[pos + 2] as u32) << 8u32)
        | (b[pos + 3] as u32)
}

/// Appends the big-endian bytes of `v`.
fn push_u32_be(out: &mut Vec<u8>, v: u32)
    ensures
        final(out)@ == old(out)@ + u32_be(v),
{
    out.push((v >> 24u32) as u8);
    out.push(((v >> 16u32) & 0xff) as u8);
    out.push(((v >> 8u32) & 0xff) as u8);
    out.push((v & 0xff) as u8);
    assert(final(out)@ =~= old(out)@ + u32_be(v));
}

/// Appends `src[from..to]`.
fn push_range(out: &mut Vec<u8>, src: &[u8], from: usize, to: usize)
    requires
        from <= to <= src@.len(),
    ensures
        final(out)@ == old(out)@ + src@.subrange(from as int, to as int),
{
    let mut i: usize = from;
    while i < to
        invariant
            from <= i <= to <= src@.len(),
            out@ == old(out)@ + src@.subrange(from as int, i as int),
        decreases to - i,
    {
        out.push(src[i]);
        i = i + 1;
        assert(out@ =~= old(out)@ + src@.subrange(from as int, i as int));
    }
}

impl Chunk {
    #[verifier::type_invariant]
    spec fn inv(self) -> bool {
        self.data@.len() <= u32::MAX
    }

    /// A chunk of the given type and data.
    pub fn new(chunk_type: ChunkType, data: Vec<u8>) -> (r: Chunk)
        requires
            data@.len() <= u32::MAX,
        ensures
            r@ == (ChunkView { kind: chunk_type@, data: data@ }),
    {
        Chunk { chunk_type, data }
    }

    /// The number of data bytes.
    pub fn length(&self) -> (r: u32)
        ensures
            r == self@.data.len(),
    {
        proof {
            use_type_invariant(self);
        }
        self.data.len() as u32
    }

    /// The type tag.
    pub fn chunk_type(&self) -> (r: &ChunkType)
        ensures
            r@ == self@.kind,
    {
        &self.chunk_type
    }

    /// The data bytes.
    pub fn data(&self) -> (r: &[u8])
        ensures
            r@ == self@.data,
    {
        self.data.as_slice()
    }

    /// The checksum over type bytes and data, computed afresh.
    pub fn crc(&self) -> (r: u32)
        ensures
            r == chunk_crc(self@),
    {
        let t = self.chunk_type.bytes();
        let mut bytes: Vec<u8> = Vec::new();
        push_range(&mut bytes, &t, 0, 4);
        push_range(&mut bytes, self.data.as_slice(), 0, self.data.len());
        assert(bytes@ =~= self@.kind + self@.data);
        checksum(bytes.as_slice())
    }

    /// The data as UTF-8 text.
    pub fn data_as_string(&self) -> (r: Result<String, FormatError>)
        ensures
            r is Ok <==> valid_utf8(self@.data),
            r matches Ok(s) ==> s@ == decode_utf8(self@.data),
            r matches Err(e) ==> e == FormatError::InvalidEncoding,
    {
        match utf8_to_string(self.data.as_slice()) {
            Some(s) => Ok(s),
            None => Err(FormatError::InvalidEncoding),
        }
    }

    /// The wire form: length, type, data and checksum, numbers big-endian.
    pub fn as_bytes(&self) -> (r: Vec<u8>)
        ensures
            r@ == chunk_bytes(self@),
            chunk_wf(self@),
    {
        proof {
            use_type_invariant(self);
        }
        let t = self.chunk_type.bytes();
        let mut out: Vec<u8> = Vec::new();
        push_u32_be(&mut out, self.data.len() as u32);
        push_range(&mut out, &t, 0, 4);
        push_range(&mut out, self.data.as_slice(), 0, self.data.len());
        push_u32_be(&mut out, self.crc());
        assert(out@ =~= chunk_bytes(self@));
        out
    }

    /// Reads one chunk off `b[pos..]`, and gives where the next one starts.
    pub fn parse_at(b: &[u8], pos: usize) -> (r: Result<(Chunk, usize), FormatError>)
        requires
            pos <= b@.len(),
        ensures
            match (r, parse_chunk(b@.subrange(pos as int, b@.len() as int))) {
                (Ok((c, next)), Ok((v, n))) => c@ == v && next == pos + n,
                (Err(e), Err(f)) => e == f,
                _ => false,
            },
    {
        let ghost rest = b@.subrange(pos as int, b@.len() as int);
        proof {
            reveal(parse_chunk);
        }
        if b.len() - pos < 8 {
            return Err(FormatError::Truncated);
        }
        let n = read_u32_be(b, pos);
        assert(b@.subrange(pos as int, b@.len() as int) =~= rest);
        let kind_bytes = [b[pos + 4], b[pos + 5], b[pos + 6], b[pos + 7]];
        assert(kind_bytes@ =~= rest.subrange(4, 8));
        let chunk_type = match ChunkType::from_slice(&kind_bytes) {
            Ok(t) => t,
            Err(_) => {
                return Err(FormatError::NonAlphabetic);
            },
        };
        if ((b.len() - pos) as u64) < 12 + (n as u64) {
            return Err(FormatError::Truncated);
        }
        let start = pos + 8;
        let end = start + n as usize;
        let mut data: Vec<u8> = Vec::new();
        push_range(&mut data, b, start, end);
        assert(data@ =~= rest.subrange(8, 8 + n));
        let stored = read_u32_be(b, end);
        assert(b@.subrange(end as int, b@.len() as int).subrange(0, 4) =~= rest.subrange(
            8 + n,
            12 + n,
        ).subrange(0, 4));
        let chunk = Chunk { chunk_type, data };
        if stored != chunk.crc() {
            return Err(FormatError::CrcMismatch);
        }
        Ok((chunk, end + 4))
    }

    /// Reads one chunk off the front of `b`; bytes after it are not looked at.
    pub fn parse(b: &[u8]) -> (r: Result<Chunk, FormatError>)
        ensures
            match (r, parse_chunk(b@)) {
                (Ok(c), Ok((v, _))) => c@ == v,
                (Err(e), Err(f)) => e == f,
                _ => false,
            },
    {
        assert(b@.subrange(0, b@.len() as int) =~= b@);
        match Chunk::parse_at(b, 0) {
            Ok((c, _)) => Ok(c),
            Err(e) => Err(e),
        }
    }
}

impl Clone for Chunk {
    fn clone(&self) -> (r: Chunk)
        ensures
            r@ == self@,
    {
        proof {
            use_type_invariant(self);
        }
        let mut data: Vec<u8> = Vec::new();
        push_range(&mut data, self.data.as_slice(), 0, self.data.len());
        assert(data@ =~= self.data@);
        Chunk { chunk_type: self.chunk_type, data }
    }
}

impl<'a> TryFrom<&'a [u8]> for Chunk {
    type Error = FormatError;

    fn try_from(b: &'a [u8]) -> (r: Result<Chunk, FormatError>)
        ensures
            match (r, parse_chunk(b@)) {
                (Ok(c), Ok((v, _))) => c@ == v,
                (Err(e), Err(f)) => e == f,
                _ => false,
            },
    {
        Chunk::parse(b)
    }
}

/// The trait's own spec hook is left unused: the contract stands on `try_from` itself.
impl<'a> vstd::std_specs::convert::TryFromSpecImpl<&'a [u8]> for Chunk {
    open spec fn obeys_try_from_spec() -> bool {
        false
    }

    closed spec fn try_from_spec(b: &'a [u8]) -> Result<Chunk, FormatError> {
        arbitrary()
    }
}

} // verus!
