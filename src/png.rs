use crate::chunk::{
    chunk_bytes, chunk_wf, lemma_parse_chunk_bytes, lemma_parse_chunk_size, parse_chunk, Chunk,
    ChunkView,
};
use crate::error::{Error, FormatError};
use vstd::prelude::*;
use vstd::string::*;

verus! {

/// The eight bytes that open every PNG file.
pub open spec fn png_signature() -> Seq<u8> {
    seq![137u8, 80u8, 78u8, 71u8, 13u8, 10u8, 26u8, 10u8]
}

/// The wire forms of the chunks, one after another.
pub open spec fn chunks_bytes(cs: Seq<ChunkView>) -> Seq<u8>
    decreases cs.len(),
{
    if cs.len() == 0 {
        Seq::empty()
    } else {
        chunk_bytes(cs[0]) + chunks_bytes(cs.drop_first())
    }
}

/// The wire form of a whole file: the signature, then each chunk.
pub open spec fn png_bytes(cs: Seq<ChunkView>) -> Seq<u8> {
    png_signature() + chunks_bytes(cs)
}

/// Reads chunks one after another until the bytes run out.
pub open spec fn parse_chunks(b: Seq<u8>) -> Result<Seq<ChunkView>, FormatError>
    decreases b.len(),
{
    if b.len() == 0 {
        Ok(Seq::empty())
    } else {
        match parse_chunk(b) {
            Err(e) => Err(e),
            Ok((c, n)) => if 0 < n <= b.len() {
                match parse_chunks(b.subrange(n, b.len() as int)) {
                    Err(e) => Err(e),
                    Ok(cs) => Ok(seq![c] + cs),
                }
            } else {
                Err(FormatError::Truncated)
            },
        }
    }
}

/// What parsing a whole file gives: the signature is checked first, then the chunks.
pub open spec fn parse_png(b: Seq<u8>) -> Result<Seq<ChunkView>, FormatError> {
    if b.len() < 8 || b.subrange(0, 8) != png_signature() {
        Err(FormatError::BadSignature)
    } else {
        parse_chunks(b.subrange(8, b.len() as int))
    }
}

/// Puts `front` before the chunks of a parse result, passing an error through.
pub open spec fn prepend(front: Seq<ChunkView>, r: Result<Seq<ChunkView>, FormatError>) -> Result<
    Seq<ChunkView>,
    FormatError,
> {
    match r {
        Ok(cs) => Ok(front + cs),
        Err(e) => Err(e),
    }
}

/// The index of the first chunk whose type bytes are `kind`, or the length if none is.
pub open spec fn first_match(cs: Seq<ChunkView>, kind: Seq<u8>) -> int
    decreases cs.len(),
{
    if cs.len() == 0 {
        0
    } else if cs[0].kind == kind {
        0
    } else {
        1 + first_match(cs.drop_first(), kind)
    }
}

/// The first match has no match before it, and is a match unless it is the length.
pub proof fn lemma_first_match(cs: Seq<ChunkView>, kind: Seq<u8>)
    ensures
        0 <= first_match(cs, kind) <= cs.len(),
        forall|j: int| 0 <= j < first_match(cs, kind) ==> cs[j].kind != kind,
        first_match(cs, kind) < cs.len() ==> cs[first_match(cs, kind)].kind == kind,
    decreases cs.len(),
{
    if cs.len() > 0 && cs[0].kind != kind {
        lemma_first_match(cs.drop_first(), kind);
        assert forall|j: int| 0 <= j < first_match(cs, kind) implies cs[j].kind != kind by {
            if j > 0 {
                assert(cs[j] == cs.drop_first()[j - 1]);
            }
        }
    }
}

/// A first match is the only index with no match before it and a match on it.
proof fn lemma_first_match_unique(cs: Seq<ChunkView>, kind: Seq<u8>, i: int)
    requires
        0 <= i <= cs.len(),
        forall|j: int| 0 <= j < i ==> cs[j].kind != kind,
        i < cs.len() ==> cs[i].kind == kind,
    ensures
        first_match(cs, kind) == i,
{
    lemma_first_match(cs, kind);
    let f = first_match(cs, kind);
    if f < i {
        assert(cs[f].kind != kind);
    } else if i < f {
        assert(cs[i].kind != kind);
    }
}

/// Writing one more chunk appends its wire form.
proof fn lemma_chunks_bytes_push(cs: Seq<ChunkView>, c: ChunkView)
    ensures
        chunks_bytes(cs.push(c)) == chunks_bytes(cs) + chunk_bytes(c),
    decreases cs.len(),
{
    if cs.len() == 0 {
        assert(cs.push(c).drop_first() =~= Seq::empty());
        assert(cs.push(c)[0] == c);
        assert(chunks_bytes(cs.push(c).drop_first()) == Seq::<u8>::empty());
        assert(chunks_bytes(cs.push(c)) =~= chunks_bytes(cs) + chunk_bytes(c));
    } else {
        lemma_chunks_bytes_push(cs.drop_first(), c);
        assert(cs.push(c).drop_first() =~= cs.drop_first().push(c));
        assert(cs.push(c)[0] == cs[0]);
        assert(chunks_bytes(cs.push(c)) == chunk_bytes(cs[0]) + (chunks_bytes(cs.drop_first())
            + chunk_bytes(c)));
        assert(chunks_bytes(cs.push(c)) =~= chunks_bytes(cs) + chunk_bytes(c));
    }
}

/// Reading back the wire forms of well-formed chunks gives the chunks.
proof fn lemma_parse_chunks_bytes(cs: Seq<ChunkView>)
    requires
        forall|i: int| 0 <= i < cs.len() ==> chunk_wf(#[trigger] cs[i]),
    ensures
        parse_chunks(chunks_bytes(cs)) == Ok::<Seq<ChunkView>, FormatError>(cs),
    decreases cs.len(),
{
    if cs.len() > 0 {
        let c = cs[0];
        let tail = cs.drop_first();
        assert forall|i: int| 0 <= i < tail.len() implies chunk_wf(#[trigger] tail[i]) by {
            assert(tail[i] == cs[i + 1]);
        }
        lemma_parse_chunks_bytes(tail);
        let b = chunks_bytes(cs);
        let n = 12 + c.data.len() as int;
        assert(chunk_wf(cs[0]));
        lemma_parse_chunk_bytes(c, chunks_bytes(tail));
        assert(b == chunk_bytes(c) + chunks_bytes(tail));
        assert(chunk_bytes(c).len() == n);
        assert(parse_chunk(b) == Ok::<(ChunkView, int), FormatError>((c, n)));
        assert(b.subrange(n, b.len() as int) =~= chunks_bytes(tail));
        assert(seq![c] + tail =~= cs);
        assert(parse_chunks(b) == Ok::<Seq<ChunkView>, FormatError>(seq![c] + tail));
    } else {
        assert(chunks_bytes(cs) =~= Seq::<u8>::empty());
        assert(cs =~= Seq::<ChunkView>::empty());
    }
}

/// Writing chunks out and reading them back gives the same chunks, in the same order.
pub proof fn lemma_round_trip(cs: Seq<ChunkView>)
    requires
        forall|i: int| 0 <= i < cs.len() ==> chunk_wf(#[trigger] cs[i]),
    ensures
        parse_png(png_bytes(cs)) == Ok::<Seq<ChunkView>, FormatError>(cs),
{
    let b = png_bytes(cs);
    assert(b.subrange(0, 8) =~= png_signature());
    assert(b.subrange(8, b.len() as int) =~= chunks_bytes(cs));
    lemma_parse_chunks_bytes(cs);
}

/// Eight bytes other than the signature make parsing fail at once, whatever follows.
pub proof fn lemma_bad_signature_rejected(head: Seq<u8>, rest: Seq<u8>)
    requires
        head.len() < 8 ==> rest.len() == 0,
        head.len() <= 8,
        head != png_signature(),
    ensures
        parse_png(head + rest) == Err::<Seq<ChunkView>, FormatError>(FormatError::BadSignature),
{
    if head.len() == 8 {
        assert((head + rest).subrange(0, 8) =~= head);
    }
}

/// After appending a chunk whose type no earlier chunk has, looking that type up finds
/// the appended chunk; once it is removed again, the lookup finds nothing and the list
/// is as before.
pub proof fn lemma_append_lookup_remove(cs: Seq<ChunkView>, c: ChunkView)
    requires
        forall|i: int| 0 <= i < cs.len() ==> (#[trigger] cs[i]).kind != c.kind,
    ensures
        first_match(cs.push(c), c.kind) == cs.len(),
        cs.push(c)[cs.len() as int] == c,
        cs.push(c).remove(cs.len() as int) == cs,
        first_match(cs.push(c).remove(cs.len() as int), c.kind) == cs.len(),
{
    let grown = cs.push(c);
    lemma_first_match_unique(grown, c.kind, cs.len() as int);
    assert(grown.remove(cs.len() as int) =~= cs);
    lemma_first_match_unique(cs, c.kind, cs.len() as int);
}

/// Where no chunk has the type, the lookup finds nothing (and a removal leaves the
/// list unchanged, by the contract of `Png::remove_chunk`).
pub proof fn lemma_no_match(cs: Seq<ChunkView>, kind: Seq<u8>)
    requires
        forall|i: int| 0 <= i < cs.len() ==> (#[trigger] cs[i]).kind != kind,
    ensures
        first_match(cs, kind) == cs.len(),
{
    lemma_first_match_unique(cs, kind, cs.len() as int);
}

/// The views of a list of chunks.
pub open spec fn views(v: Seq<Chunk>) -> Seq<ChunkView> {
    Seq::new(v.len(), |i: int| v[i]@)
}

/// An ordered list of chunks, written out behind the PNG signature.
#[derive(Debug, Clone)]
pub struct Png {
    chunks: Vec<Chunk>,
}

impl View for Png {
    type V = Seq<ChunkView>;

    closed spec fn view(&self) -> Seq<ChunkView> {
        views(self.chunks@)
    }
}

impl Png {
    /// The PNG signature.
    pub const STANDARD_HEADER: [u8; 8] = [137, 80, 78, 71, 13, 10, 26, 10];

    /// A file holding the given chunks in the given order.
    pub fn from_chunks(chunks: Vec<Chunk>) -> (r: Png)
        ensures
            r@ == views(chunks@),
    {
        Png { chunks }
    }

    /// Adds a chunk at the end.
    pub fn append_chunk(&mut self, chunk: Chunk)
        ensures
            final(self)@ == old(self)@.push(chunk@),
    {
        self.chunks.push(chunk);
        assert(views(self.chunks@) =~= views(old(self).chunks@).push(chunk@));
    }

    /// The index of the first chunk whose type, as text, is `chunk_type`.
    fn position(&self, chunk_type: &str) -> (r: usize)
        ensures
            r == first_match(self@, chunk_type.spec_bytes()),
            r <= self.chunks@.len(),
            self@.len() == self.chunks@.len(),
    {
        let ghost kind = chunk_type.spec_bytes();
        let mut i: usize = 0;
        while i < self.chunks.len()
            invariant
                0 <= i <= self.chunks@.len(),
                kind == chunk_type.spec_bytes(),
                forall|j: int| 0 <= j < i ==> (#[trigger] self@[j]).kind != kind,
            decreases self.chunks@.len() - i,
        {
            let found = self.chunks[i].chunk_type().matches_text(chunk_type);

            assert(self@[i as int] == self.chunks@[i as int]@);
            assert(found == (self@[i as int].kind == kind));
            if found {
                proof {
                    lemma_first_match_unique(self@, kind, i as int);
                }
                return i;
            }
            i = i + 1;
        }
        proof {
            lemma_first_match_unique(self@, kind, i as int);
        }
        i
    }

    /// Removes the first chunk whose type, as text, is `chunk_type`, and returns it.
    pub fn remove_chunk(&mut self, chunk_type: &str) -> (r: Result<Chunk, Error>)
        ensures
            ({
                let i = first_match(old(self)@, chunk_type.spec_bytes());
                &&& r is Ok <==> i < old(self)@.len()
                &&& r matches Ok(c) ==> c@ == old(self)@[i] && final(self)@ == old(self)@.remove(i)
                &&& r is Err ==> final(self)@ == old(self)@
                &&& r matches Err(e) ==> (e matches Error::NotFound(t) && t@ == chunk_type@)
            }),
    {
        let i = self.position(chunk_type);
        if i == self.chunks.len() {
            return Err(Error::NotFound(chunk_type.to_owned()));
        }
        let c = self.chunks.remove(i);
        assert(views(self.chunks@) =~= views(old(self).chunks@).remove(i as int));
        Ok(c)
    }

    /// The first chunk whose type, as text, is `chunk_type`.
    pub fn chunk_by_type(&self, chunk_type: &str) -> (r: Option<&Chunk>)
        ensures
            ({
                let i = first_match(self@, chunk_type.spec_bytes());
                &&& r is Some <==> i < self@.len()
                &&& r matches Some(c) ==> c@ == self@[i]
            }),
    {
        let i = self.position(chunk_type);
        if i == self.chunks.len() {
            None
        } else {
            Some(&self.chunks[i])
        }
    }

    /// The chunks, in order.
    pub fn chunks(&self) -> (r: &[Chunk])
        ensures
            views(r@) == self@,
    {
        self.chunks.as_slice()
    }

    /// The first chunk.
    pub fn header(&self) -> (r: &Chunk)
        requires
            self@.len() > 0,
        ensures
            r@ == self@[0],
    {
        &self.chunks[0]
    }

    /// The wire form: the signature, then each chunk's bytes in order.
    pub fn as_bytes(&self) -> (r: Vec<u8>)
        ensures
            r@ == png_bytes(self@),
            forall|i: int| 0 <= i < self@.len() ==> chunk_wf(#[trigger] self@[i]),
    {
        let mut out: Vec<u8> = Vec::new();
        let sig = Png::STANDARD_HEADER;
        let mut k: usize = 0;
        while k < 8
            invariant
                0 <= k <= 8,
                sig@ == png_signature(),
                out@ == png_signature().subrange(0, k as int),
            decreases 8 - k,
        {
            out.push(sig[k]);
            k = k + 1;
            assert(out@ =~= png_signature().subrange(0, k as int));
        }
        let mut i: usize = 0;
        while i < self.chunks.len()
            invariant
                0 <= i <= self.chunks@.len(),
                out@ == png_signature() + chunks_bytes(self@.subrange(0, i as int)),
                forall|j: int| 0 <= j < i ==> chunk_wf(#[trigger] self@[j]),
            decreases self.chunks@.len() - i,
        {
            let b = self.chunks[i].as_bytes();
            proof {
                lemma_chunks_bytes_push(self@.subrange(0, i as int), self@[i as int]);
                assert(self@.subrange(0, i as int).push(self@[i as int]) =~= self@.subrange(
                    0,
                    i + 1,
                ));
            }
            let mut j: usize = 0;
            let ghost before = out@;
            while j < b.len()
                invariant
                    0 <= j <= b@.len(),
                    out@ == before + b@.subrange(0, j as int),
                decreases b@.len() - j,
            {
                out.push(b[j]);
                j = j + 1;
                assert(out@ =~= before + b@.subrange(0, j as int));
            }
            assert(b@.subrange(0, b@.len() as int) =~= b@);
            i = i + 1;
        }
        assert(self@.subrange(0, self@.len() as int) =~= self@);
        out
    }

    /// Parses a whole file: the signature, then chunks until the bytes run out.
    pub fn parse(b: &[u8]) -> (r: Result<Png, Error>)
        ensures
            match (r, parse_png(b@)) {
                (Ok(p), Ok(cs)) => p@ == cs,
                (Err(e), Err(f)) => e == Error::Format(f),
                _ => false,
            },
    {
        if b.len() < 8 {
            return Err(Error::Format(FormatError::BadSignature));
        }
        let sig = Png::STANDARD_HEADER;
        let mut k: usize = 0;
        while k < 8
            invariant
                0 <= k <= 8,
                8 <= b@.len(),
                sig@ == png_signature(),
                forall|j: int| 0 <= j < k ==> b@[j] == png_signature()[j],
            decreases 8 - k,
        {
            if b[k] != sig[k] {
                assert(b@.subrange(0, 8)[k as int] != png_signature()[k as int]);
                return Err(Error::Format(FormatError::BadSignature));
            }
            k = k + 1;
        }
        assert(b@.subrange(0, 8) =~= png_signature());
        let ghost body = b@.subrange(8, b@.len() as int);
        let mut chunks: Vec<Chunk> = Vec::new();
        let mut pos: usize = 8;
        assert(b@.subrange(pos as int, b@.len() as int) == body);
        assert(views(chunks@) + Seq::empty() =~= Seq::empty());
        while pos < b.len()
            invariant
                8 <= pos <= b@.len(),
                b@.subrange(0, 8) == png_signature(),
                body == b@.subrange(8, b@.len() as int),
                parse_chunks(body) == prepend(
                    views(chunks@),
                    parse_chunks(b@.subrange(pos as int, b@.len() as int)),
                ),
            decreases b@.len() - pos,
        {
            let ghost rest = b@.subrange(pos as int, b@.len() as int);
            match Chunk::parse_at(b, pos) {
                Ok((c, next)) => {
                    proof {
                        lemma_parse_chunk_size(rest);
                    }
                    let ghost v = c@;
                    let ghost tail = b@.subrange(next as int, b@.len() as int);
                    assert(rest.subrange(next - pos, rest.len() as int) =~= tail);
                    assert(parse_chunks(rest) == prepend(seq![v], parse_chunks(tail)));
                    let ghost old_views = views(chunks@);
                    chunks.push(c);
                    assert(views(chunks@) =~= old_views.push(v));
                    assert(prepend(old_views, prepend(seq![v], parse_chunks(tail))) == prepend(
                        views(chunks@),
                        parse_chunks(tail),
                    )) by {
                        match parse_chunks(tail) {
                            Ok(ts) => {
                                assert(old_views + (seq![v] + ts) =~= views(chunks@) + ts);
                            },
                            Err(_) => {},
                        }
                    }
                    pos = next;
                },
                Err(e) => {
                    assert(parse_chunks(rest) == Err::<Seq<ChunkView>, FormatError>(e));
                    return Err(Error::Format(e));
                },
            }
        }
        assert(b@.subrange(pos as int, b@.len() as int) =~= Seq::empty());
        assert(views(chunks@) + Seq::empty() =~= views(chunks@));
        Ok(Png { chunks })
    }
}

impl<'a> TryFrom<&'a [u8]> for Png {
    type Error = Error;

    fn try_from(b: &'a [u8]) -> (r: Result<Png, Error>)
        ensures
            match (r, parse_png(b@)) {
                (Ok(p), Ok(cs)) => p@ == cs,
                (Err(e), Err(f)) => e == Error::Format(f),
                _ => false,
            },
    {
        Png::parse(b)
    }
}

/// The trait's own spec hook is left unused: the contract stands on `try_from` itself.
impl<'a> vstd::std_specs::convert::TryFromSpecImpl<&'a [u8]> for Png {
    open spec fn obeys_try_from_spec() -> bool {
        false
    }

    closed spec fn try_from_spec(b: &'a [u8]) -> Result<Png, Error> {
        arbitrary()
    }
}

} // verus!
