use vstd::prelude::*;
use vstd::slice::slice_subrange;

use crate::chunk::{chunk_ser, chunk_wf, spec_parse_chunk, Chunk, ChunkModel};
use crate::chunk_type::{is_valid_type, spells};
use crate::error::PngError;

verus! {

/// The eight fixed bytes that open every PNG stream.
pub open spec fn png_signature() -> Seq<u8> {
    seq![0x89u8, 0x50u8, 0x4eu8, 0x47u8, 0x0du8, 0x0au8, 0x1au8, 0x0au8]
}

/// What parsing a chunk stream yields: the models of the chunks read one
/// after another until the bytes run out, or the error of the first chunk
/// that fails.  Nothing is salvaged from a failing stream: once one chunk's
/// declared length is suspect, no later chunk boundary can be trusted.
pub open spec fn spec_parse_chunks(b: Seq<u8>) -> Result<Seq<ChunkModel>, PngError>
    decreases b.len(),
{
    if b.len() == 0 {
        Ok(Seq::empty())
    } else {
        match spec_parse_chunk(b) {
            Err(e) => Err(e),
            Ok((m, n)) => match spec_parse_chunks(b.skip(n)) {
                Err(e) => Err(e),
                Ok(ms) => Ok(seq![m] + ms),
            },
        }
    }
}

/// The wire form of a chunk stream: each chunk's wire form, in order.
pub open spec fn chunks_ser(ms: Seq<ChunkModel>) -> Seq<u8>
    decreases ms.len(),
{
    if ms.len() == 0 {
        Seq::empty()
    } else {
        chunk_ser(ms[0]) + chunks_ser(ms.drop_first())
    }
}

/// The wire form of a whole container: signature, then the chunk stream.
pub open spec fn png_ser(ms: Seq<ChunkModel>) -> Seq<u8> {
    png_signature() + chunks_ser(ms)
}

/// Serializing one more chunk appends its wire form.
pub proof fn lemma_chunks_ser_push(ms: Seq<ChunkModel>, m: ChunkModel)
    ensures
        chunks_ser(ms.push(m)) == chunks_ser(ms) + chunk_ser(m),
    decreases ms.len(),
{
    let s = ms.push(m);
    if ms.len() == 0 {
        assert(s.drop_first() =~= Seq::<ChunkModel>::empty());
        assert(chunks_ser(s) == chunk_ser(m) + chunks_ser(s.drop_first()));
        assert(chunk_ser(m) + Seq::<u8>::empty() =~= chunk_ser(m));
        assert(chunks_ser(ms) + chunk_ser(m) =~= chunk_ser(m));
    } else {
        assert(s.drop_first() =~= ms.drop_first().push(m));
        lemma_chunks_ser_push(ms.drop_first(), m);
        assert(s[0] == ms[0]);
        assert(chunks_ser(s) == chunk_ser(ms[0]) + (chunks_ser(ms.drop_first()) + chunk_ser(m)));
        assert(chunks_ser(ms) + chunk_ser(m) == (chunk_ser(ms[0]) + chunks_ser(ms.drop_first()))
            + chunk_ser(m));
        assert(chunk_ser(ms[0]) + (chunks_ser(ms.drop_first()) + chunk_ser(m)) =~= (chunk_ser(
            ms[0],
        ) + chunks_ser(ms.drop_first())) + chunk_ser(m));
    }
}

/// A serialized chunk stream parses back to the chunks it came from, as
/// long as every chunk is well formed and passes the reserved-bit rule.
pub proof fn lemma_chunks_round_trip(ms: Seq<ChunkModel>)
    requires
        forall|i: int| 0 <= i < ms.len() ==> chunk_wf(#[trigger] ms[i]),
        forall|i: int| 0 <= i < ms.len() ==> is_valid_type(#[trigger] ms[i].type_bytes),
    ensures
        spec_parse_chunks(chunks_ser(ms)) == Ok::<_, PngError>(ms),
    decreases ms.len(),
{
    if ms.len() == 0 {
        assert(Seq::<ChunkModel>::empty() =~= ms);
    } else {
        let m0 = ms[0];
        let rest = chunks_ser(ms.drop_first());
        crate::chunk::lemma_chunk_round_trip(m0, rest);
        let b = chunk_ser(m0) + rest;
        let k = chunk_ser(m0).len() as int;
        assert(chunks_ser(ms) == b);
        assert(spec_parse_chunk(b) == Ok::<_, PngError>((m0, k)));
        assert(b.skip(k) =~= rest);
        assert forall|i: int| 0 <= i < ms.drop_first().len() implies chunk_wf(
            #[trigger] ms.drop_first()[i],
        ) && is_valid_type(ms.drop_first()[i].type_bytes) by {
            assert(ms.drop_first()[i] == ms[i + 1]);
        }
        lemma_chunks_round_trip(ms.drop_first());
        assert(spec_parse_chunks(rest) == Ok::<_, PngError>(ms.drop_first()));
        assert(b.len() > 0);
        assert(spec_parse_chunks(b) == Ok::<_, PngError>(seq![m0] + ms.drop_first()));
        assert(seq![m0] + ms.drop_first() =~= ms);
    }
}

/// The first chunk of the stream whose type `q` spells, if any.
pub open spec fn find_first(ms: Seq<ChunkModel>, q: Seq<char>) -> Option<ChunkModel>
    decreases ms.len(),
{
    if ms.len() == 0 {
        None
    } else if spells(q, ms[0].type_bytes) {
        Some(ms[0])
    } else {
        find_first(ms.drop_first(), q)
    }
}

/// The stream with the first chunk that `q` spells taken out; the stream
/// itself when there is none.
pub open spec fn remove_first(ms: Seq<ChunkModel>, q: Seq<char>) -> Seq<ChunkModel>
    decreases ms.len(),
{
    if ms.len() == 0 {
        ms
    } else if spells(q, ms[0].type_bytes) {
        ms.drop_first()
    } else {
        seq![ms[0]] + remove_first(ms.drop_first(), q)
    }
}

/// At the first matching position, lookup and removal work by index.
proof fn lemma_find_remove_at(ms: Seq<ChunkModel>, q: Seq<char>, i: int)
    requires
        0 <= i < ms.len(),
        spells(q, ms[i].type_bytes),
        forall|j: int| 0 <= j < i ==> !spells(q, #[trigger] ms[j].type_bytes),
    ensures
        find_first(ms, q) == Some(ms[i]),
        remove_first(ms, q) == ms.remove(i),
    decreases i,
{
    if i == 0 {
        assert(ms.drop_first() =~= ms.remove(0));
    } else {
        assert forall|j: int| 0 <= j < i - 1 implies !spells(
            q,
            #[trigger] ms.drop_first()[j].type_bytes,
        ) by {
            assert(ms.drop_first()[j] == ms[j + 1]);
        }
        assert(ms.drop_first()[i - 1] == ms[i]);
        lemma_find_remove_at(ms.drop_first(), q, i - 1);
        assert(seq![ms[0]] + ms.drop_first().remove(i - 1) =~= ms.remove(i));
    }
}

/// Appending a chunk that `q` spells to a stream with no match makes it
/// the first match.
pub proof fn lemma_find_push(ms: Seq<ChunkModel>, q: Seq<char>, m: ChunkModel)
    requires
        find_first(ms, q) is None,
        spells(q, m.type_bytes),
    ensures
        find_first(ms.push(m), q) == Some(m),
    decreases ms.len(),
{
    let s = ms.push(m);
    if ms.len() == 0 {
        assert(s[0] == m);
    } else {
        assert(s[0] == ms[0]);
        assert(s.drop_first() =~= ms.drop_first().push(m));
        lemma_find_push(ms.drop_first(), q, m);
    }
}

/// Removing by a type that only the appended chunk has takes exactly that
/// chunk back out.
pub proof fn lemma_remove_push(ms: Seq<ChunkModel>, q: Seq<char>, m: ChunkModel)
    requires
        find_first(ms, q) is None,
        spells(q, m.type_bytes),
    ensures
        remove_first(ms.push(m), q) == ms,
    decreases ms.len(),
{
    let s = ms.push(m);
    if ms.len() == 0 {
        assert(s[0] == m);
        assert(s.drop_first() =~= ms);
    } else {
        assert(s[0] == ms[0]);
        assert(s.drop_first() =~= ms.drop_first().push(m));
        lemma_remove_push(ms.drop_first(), q, m);
        assert(seq![ms[0]] + ms.drop_first() =~= ms);
    }
}

/// A stream with no matching chunk has no first match.
proof fn lemma_find_none(ms: Seq<ChunkModel>, q: Seq<char>)
    requires
        forall|j: int| 0 <= j < ms.len() ==> !spells(q, #[trigger] ms[j].type_bytes),
    ensures
        find_first(ms, q) is None,
    decreases ms.len(),
{
    if ms.len() > 0 {
        assert forall|j: int| 0 <= j < ms.drop_first().len() implies !spells(
            q,
            #[trigger] ms.drop_first()[j].type_bytes,
        ) by {
            assert(ms.drop_first()[j] == ms[j + 1]);
        }
        lemma_find_none(ms.drop_first(), q);
    }
}

/// An ordered sequence of chunks behind the fixed 8-byte signature.  The
/// order is preserved across parse and serialize; appending always goes to
/// the end, and nothing forbids several chunks of one type.
#[derive(Debug)]
pub struct Png {
    chunks: Vec<Chunk>,
}

impl View for Png {
    type V = Seq<ChunkModel>;

    closed spec fn view(&self) -> Seq<ChunkModel> {
        Seq::new(self.chunks@.len(), |i: int| self.chunks@[i]@)
    }
}

impl Png {
    /// Parses a whole buffer: the signature first, then chunks until the
    /// bytes run out.  Any chunk failure aborts the whole parse.
    pub fn parse(bytes: &[u8]) -> (r: Result<Png, PngError>)
        ensures
            match r {
                Ok(p) => bytes@.len() >= 8 && bytes@.take(8) == png_signature()
                    && spec_parse_chunks(bytes@.skip(8)) == Ok::<_, PngError>(p@),
                Err(e) => if bytes@.len() < 8 || bytes@.take(8) != png_signature() {
                    e == PngError::InvalidSignature
                } else {
                    spec_parse_chunks(bytes@.skip(8)) == Err::<Seq<ChunkModel>, _>(e)
                },
            },
    {
        if bytes.len() < 8 {
            return Err(PngError::InvalidSignature);
        }
        proof {
            assert forall|i: int| 0 <= i < 8 implies #[trigger] bytes@.take(8)[i] == bytes@[i] by {}
        }
        if !(bytes[0] == 0x89 && bytes[1] == 0x50 && bytes[2] == 0x4e && bytes[3] == 0x47
            && bytes[4] == 0x0d && bytes[5] == 0x0a && bytes[6] == 0x1a && bytes[7] == 0x0a) {
            return Err(PngError::InvalidSignature);
        }
        proof {
            assert(bytes@.take(8) =~= png_signature());
        }
        let mut chunks: Vec<Chunk> = Vec::new();
        let mut offset: usize = 8;
        while offset < bytes.len()
            invariant
                8 <= offset <= bytes@.len(),
                bytes@.len() <= usize::MAX,
                bytes@.take(8) == png_signature(),
                (spec_parse_chunks(bytes@.skip(8)) == (match spec_parse_chunks(
                    bytes@.skip(offset as int),
                ) {
                    Ok(ms) => Ok::<_, PngError>(
                        Seq::new(chunks@.len(), |i: int| chunks@[i]@) + ms,
                    ),
                    Err(e) => Err(e),
                })),
            decreases bytes@.len() - offset,
        {
            let sub = slice_subrange(bytes, offset, bytes.len());
            proof {
                assert(sub@ =~= bytes@.skip(offset as int));
            }
            match Chunk::parse(sub) {
                Err(e) => {
                    proof {
                        assert(bytes@.skip(offset as int).len() > 0);
                        assert(spec_parse_chunks(bytes@.skip(offset as int))
                            == Err::<Seq<ChunkModel>, _>(e));
                    }
                    return Err(e);
                },
                Ok(c) => {
                    let dlen = c.length();
                    proof {
                        let tail = bytes@.skip(offset as int);
                        assert(spec_parse_chunk(tail) matches Ok((m, n)) && c@ == m && n == 12
                            + c@.data.len());
                        let next = offset + 12 + c@.data.len();
                        assert(tail.skip(12 + c@.data.len() as int) =~= bytes@.skip(next));
                        let done = Seq::new(chunks@.len(), |i: int| chunks@[i]@);
                        assert(done.push(c@) =~= Seq::new(
                            chunks@.push(c).len(),
                            |i: int| chunks@.push(c)[i]@,
                        ));
                        let r2 = spec_parse_chunks(bytes@.skip(next));
                        assert(spec_parse_chunks(tail) == (match r2 {
                            Ok(ms) => Ok::<_, PngError>(seq![c@] + ms),
                            Err(e) => Err(e),
                        }));
                        if r2 is Ok {
                            let ms2 = r2->Ok_0;
                            assert(done + (seq![c@] + ms2) =~= done.push(c@) + ms2);
                        }
                    }
                    chunks.push(c);
                    offset = offset + 12 + dlen as usize;
                },
            }
        }
        proof {
            assert(bytes@.skip(offset as int).len() == 0);
            let done = Seq::new(chunks@.len(), |i: int| chunks@[i]@);
            assert(done + Seq::<ChunkModel>::empty() =~= done);
        }
        let png = Png { chunks };
        proof {
            assert(png@ =~= Seq::new(png.chunks@.len(), |i: int| png.chunks@[i]@));
        }
        Ok(png)
    }

    /// Appends a chunk at the end of the sequence.  Always succeeds; no
    /// duplicate-type check is made.
    pub fn append_chunk(&mut self, chunk: Chunk)
        ensures
            final (self)@ == old(self)@.push(chunk@),
    {
        self.chunks.push(chunk);
        proof {
            assert(self@ =~= old(self)@.push(chunk@));
        }
    }

    /// The first chunk, in order, whose type the given string spells.
    pub fn chunk_by_type(&self, chunk_type: &str) -> (r: Option<&Chunk>)
        ensures
            match r {
                Some(c) => find_first(self@, chunk_type@) == Some(c@),
                None => find_first(self@, chunk_type@) is None,
            },
    {
        let mut i: usize = 0;
        proof {
            assert(self@.skip(0) =~= self@);
        }
        while i < self.chunks.len()
            invariant
                i <= self.chunks@.len(),
                self@.len() == self.chunks@.len(),
                find_first(self@, chunk_type@) == find_first(self@.skip(i as int), chunk_type@),
            decreases self.chunks@.len() - i,
        {
            let c = &self.chunks[i];
            proof {
                assert(self@.skip(i as int)[0] == self@[i as int]);
            }
            if c.chunk_type().matches(chunk_type) {
                return Some(c);
            }
            proof {
                assert(self@.skip(i as int).drop_first() =~= self@.skip(i as int + 1));
            }
            i = i + 1;
        }
        proof {
            assert(self@.skip(i as int).len() == 0);
        }
        None
    }

    /// Removes the first chunk whose type the given string spells and hands
    /// it back.  When no chunk matches, the container is left exactly as it
    /// was.
    pub fn remove_chunk(&mut self, chunk_type: &str) -> (r: Result<Chunk, PngError>)
        ensures
            match r {
                Ok(c) => find_first(old(self)@, chunk_type@) == Some(c@) && final (self)@
                    == remove_first(old(self)@, chunk_type@),
                Err(e) => e == PngError::ChunkNotFound && find_first(old(self)@, chunk_type@)
                    is None && final (self)@ == old(self)@,
            },
    {
        let mut i: usize = 0;
        while i < self.chunks.len()
            invariant
                i <= self.chunks@.len(),
                self@ == old(self)@,
                self@.len() == self.chunks@.len(),
                forall|j: int| 0 <= j < i ==> !spells(chunk_type@, #[trigger] self@[j].type_bytes),
            decreases self.chunks@.len() - i,
        {
            let hit = self.chunks[i].chunk_type().matches(chunk_type);
            if hit {
                proof {
                    lemma_find_remove_at(self@, chunk_type@, i as int);
                }
                let c = self.chunks.remove(i);
                proof {
                    assert(self@ =~= old(self)@.remove(i as int));
                }
                return Ok(c);
            }
            i = i + 1;
        }
        proof {
            lemma_find_none(self@, chunk_type@);
        }
        Err(PngError::ChunkNotFound)
    }

    /// A read-only view of the chunks, in container order.
    pub fn chunks(&self) -> (r: &Vec<Chunk>)
        ensures
            r@.len() == self@.len(),
            forall|i: int| 0 <= i < self@.len() ==> #[trigger] r@[i]@ == self@[i],
    {
        &self.chunks
    }

    /// Emits the container's wire form: the signature, then every chunk in
    /// order.  When every chunk's type passes the reserved-bit rule, the
    /// result parses back to exactly this container: the round trip is
    /// exact.
    pub fn as_bytes(&self) -> (r: Vec<u8>)
        ensures
            r@ == png_ser(self@),
            (forall|i: int|
                0 <= i < self@.len() ==> is_valid_type(#[trigger] self@[i].type_bytes)) ==> (
            r@.len() >= 8 && r@.take(8) == png_signature() && spec_parse_chunks(r@.skip(8))
                == Ok::<_, PngError>(self@)),
    {
        let mut out: Vec<u8> = push_signature();
        let mut i: usize = 0;
        while i < self.chunks.len()
            invariant
                i <= self.chunks@.len(),
                self@.len() == self.chunks@.len(),
                out@ == png_signature() + chunks_ser(self@.take(i as int)),
                forall|j: int| 0 <= j < i ==> chunk_wf(#[trigger] self@[j]),
            decreases self.chunks@.len() - i,
        {
            let c = &self.chunks[i];
            proof {
                use_type_invariant(c);
                assert(c@ == self@[i as int]);
            }
            let mut piece = c.as_bytes();
            out.append(&mut piece);
            proof {
                assert(self@.take(i as int).push(self@[i as int]) =~= self@.take(i as int + 1));
                lemma_chunks_ser_push(self@.take(i as int), self@[i as int]);
                assert((png_signature() + chunks_ser(self@.take(i as int))) + chunk_ser(
                    self@[i as int],
                ) =~= png_signature() + (chunks_ser(self@.take(i as int)) + chunk_ser(
                    self@[i as int],
                )));
            }
            i = i + 1;
        }
        proof {
            assert(self@.take(self@.len() as int) =~= self@);
            lemma_png_ser_parses_cond(self@);
        }
        out
    }
}

/// Builds the fixed 8-byte signature that opens every serialized container.
fn push_signature() -> (r: Vec<u8>)
    ensures
        r@ == png_signature(),
{
    let mut out: Vec<u8> = Vec::new();
    out.push(0x89);
    out.push(0x50);
    out.push(0x4e);
    out.push(0x47);
    out.push(0x0d);
    out.push(0x0a);
    out.push(0x1a);
    out.push(0x0a);
    proof {
        assert(out@ =~= png_signature());
    }
    out
}

/// The wire form of a well-formed stream parses back to its chunks as
/// long as every chunk's type passes the reserved-bit rule.
proof fn lemma_png_ser_parses_cond(ms: Seq<ChunkModel>)
    requires
        forall|i: int| 0 <= i < ms.len() ==> chunk_wf(#[trigger] ms[i]),
    ensures
        (forall|i: int| 0 <= i < ms.len() ==> is_valid_type(#[trigger] ms[i].type_bytes)) ==> (
        png_ser(ms).len() >= 8 && png_ser(ms).take(8) == png_signature() && spec_parse_chunks(
            png_ser(ms).skip(8),
        ) == Ok::<_, PngError>(ms)),
{
    if forall|i: int| 0 <= i < ms.len() ==> is_valid_type(#[trigger] ms[i].type_bytes) {
        lemma_png_ser_parses(ms);
    }
}

/// The wire form of a well-formed container parses back to its chunks.
proof fn lemma_png_ser_parses(ms: Seq<ChunkModel>)
    requires
        forall|i: int| 0 <= i < ms.len() ==> chunk_wf(#[trigger] ms[i]),
        forall|i: int| 0 <= i < ms.len() ==> is_valid_type(#[trigger] ms[i].type_bytes),
    ensures
        png_ser(ms).len() >= 8,
        png_ser(ms).take(8) == png_signature(),
        spec_parse_chunks(png_ser(ms).skip(8)) == Ok::<_, PngError>(ms),
{
    let b = png_ser(ms);
    assert(b.skip(8) =~= chunks_ser(ms)) by {
        assert(png_signature().len() == 8);
    }
    assert(b.take(8) =~= png_signature()) by {
        assert(png_signature().len() == 8);
    }
    lemma_chunks_round_trip(ms);
}

} // verus!
