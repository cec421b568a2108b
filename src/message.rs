use crate::chunk::{Chunk, ChunkView};
use crate::chunk_type::{type_from_bytes, ChunkType};
use crate::error::FormatError;
use crate::png::{first_match, lemma_append_lookup_remove, lemma_first_match, Png};
use vstd::prelude::*;
use vstd::string::*;
use vstd::utf8::*;

verus! {

/// The chunks with the first one of type `kind` taken out, if there is one.
pub open spec fn without_first(cs: Seq<ChunkView>, kind: Seq<u8>) -> Seq<ChunkView> {
    if first_match(cs, kind) < cs.len() {
        cs.remove(first_match(cs, kind))
    } else {
        cs
    }
}

/// Where at most one chunk has type `kind`, encoding a message of that type and then
/// looking the type up finds the chunk just appended, holding the message.
pub proof fn lemma_encode_then_lookup(cs: Seq<ChunkView>, kind: Seq<u8>, message: Seq<u8>)
    requires
        forall|i: int, j: int|
            0 <= i < cs.len() && 0 <= j < cs.len() && #[trigger] cs[i].kind == kind
                && #[trigger] cs[j].kind == kind ==> i == j,
    ensures
        ({
            let after = without_first(cs, kind).push(ChunkView { kind, data: message });
            let i = first_match(after, kind);
            &&& i == after.len() - 1
            &&& after[i] == (ChunkView { kind, data: message })
        }),
{
    lemma_first_match(cs, kind);
    let f = first_match(cs, kind);
    let rest = without_first(cs, kind);
    assert forall|j: int| 0 <= j < rest.len() implies (#[trigger] rest[j]).kind != kind by {
        if f < cs.len() {
            if j >= f {
                assert(rest[j] == cs[j + 1]);
                if cs[j + 1].kind == kind {
                    assert(cs[f].kind == kind);
                }
            } else {
                assert(rest[j] == cs[j]);
            }
        } else {
            assert(rest[j] == cs[j]);
        }
    }
    lemma_append_lookup_remove(rest, ChunkView { kind, data: message });
}

/// Hides `message` in a chunk of type `chunk_type` at the end of `png`, in place of the
/// first chunk of that type if there is one. A malformed type changes nothing.
pub fn encode_message(png: &mut Png, chunk_type: &str, message: Vec<u8>) -> (r: Result<(), FormatError>)
    requires
        message@.len() <= u32::MAX,
    ensures
        ({
            let kind = chunk_type.spec_bytes();
            match type_from_bytes(kind) {
                Err(e) => r == Err::<(), FormatError>(e) && final(png)@ == old(png)@,
                Ok(_) => r is Ok && final(png)@ == without_first(old(png)@, kind).push(
                    ChunkView { kind, data: message@ },
                ),
            }
        }),
{
    let kind = match ChunkType::from_text(chunk_type) {
        Ok(t) => t,
        Err(e) => {
            return Err(e);
        },
    };
    let _ = png.remove_chunk(chunk_type);
    png.append_chunk(Chunk::new(kind, message));
    Ok(())
}

/// Reads back, as text, the data of the first chunk of type `chunk_type`: `None` if no
/// chunk has that type, an error if its data is not UTF-8.
pub fn decode_message(png: &Png, chunk_type: &str) -> (r: Option<Result<String, FormatError>>)
    ensures
        ({
            let i = first_match(png@, chunk_type.spec_bytes());
            &&& r is Some <==> i < png@.len()
            &&& r matches Some(m) ==> {
                let data = png@[i].data;
                &&& m is Ok <==> valid_utf8(data)
                &&& m matches Ok(s) ==> s@ == decode_utf8(data)
                &&& m matches Err(e) ==> e == FormatError::InvalidEncoding
            }
        }),
{
    match png.chunk_by_type(chunk_type) {
        Some(chunk) => Some(chunk.data_as_string()),
        None => None,
    }
}

} // verus!
