use vstd::prelude::*;
use vstd::utf8::{decode_utf8, valid_utf8};

use crate::checksum::{crc32, crc32_of};
use crate::chunk_type::{all_letters, is_valid_type, ChunkType};
use crate::error::PngError;
use crate::text::bytes_as_str;

verus! {

/// The mathematical content of one chunk: its four type bytes, its payload,
/// and the checksum stored behind it.  The length field of the wire format
/// is not part of the model; it always equals the payload length.
#[verifier::ext_equal]
pub ghost struct ChunkModel {
    pub type_bytes: Seq<u8>,
    pub data: Seq<u8>,
    pub crc: u32,
}

/// A well-formed chunk: four ASCII-letter type bytes, a payload whose length
/// fits the 32-bit length field, and a checksum that matches the type and
/// data bytes.  A `Chunk` never exists in any other state.
pub open spec fn chunk_wf(m: ChunkModel) -> bool {
    &&& m.type_bytes.len() == 4
    &&& all_letters(m.type_bytes)
    &&& m.data.len() <= u32::MAX
    &&& m.crc == crc32_of(m.type_bytes + m.data)
}

/// The four bytes of `x` in big-endian order.
pub open spec fn be32(x: u32) -> Seq<u8> {
    seq![(x >> 24) as u8, (x >> 16) as u8, (x >> 8) as u8, x as u8]
}

/// The 32-bit value read from four bytes in big-endian order.
pub open spec fn from_be32(b0: u8, b1: u8, b2: u8, b3: u8) -> u32 {
    ((b0 as u32) << 24) | ((b1 as u32) << 16) | ((b2 as u32) << 8) | (b3 as u32)
}

/// Reading back the four big-endian bytes of a value yields the value.
pub proof fn lemma_be32_round_trip(x: u32)
    ensures
        from_be32(be32(x)[0], be32(x)[1], be32(x)[2], be32(x)[3]) == x,
{
    assert((((x >> 24) as u8 as u32) << 24) | (((x >> 16) as u8 as u32) << 16) | (((x
        >> 8) as u8 as u32) << 8) | ((x as u8) as u32) == x) by (bit_vector);
}

/// The wire form of one chunk: length, type, data and checksum, with the
/// two numbers in big-endian order.
pub open spec fn chunk_ser(m: ChunkModel) -> Seq<u8> {
    be32(m.data.len() as u32) + m.type_bytes + m.data + be32(m.crc)
}

/// What parsing a chunk from the front of `b` yields: the chunk's model and
/// the number of bytes consumed, or the error that aborts the parse.  The
/// type bytes are checked before the declared length is trusted, and the
/// stored checksum is compared against one recomputed over type and data.
pub open spec fn spec_parse_chunk(b: Seq<u8>) -> Result<(ChunkModel, int), PngError> {
    if b.len() < 8 {
        Err(PngError::InvalidLength)
    } else {
        let len = from_be32(b[0], b[1], b[2], b[3]) as int;
        let tb = b.subrange(4, 8);
        if !is_valid_type(tb) {
            Err(PngError::InvalidChunkType)
        } else if b.len() < 12 + len {
            Err(PngError::InvalidLength)
        } else {
            let data = b.subrange(8, 8 + len);
            let stored = from_be32(b[8 + len], b[9 + len], b[10 + len], b[11 + len]);
            if crc32_of(tb + data) != stored {
                Err(PngError::CrcMismatch)
            } else {
                Ok((ChunkModel { type_bytes: tb, data, crc: stored }, 12 + len))
            }
        }
    }
}

/// Serializing a chunk whose type passes the reserved-bit rule and parsing
/// it back, with anything at all behind it, reproduces the chunk and
/// consumes exactly its bytes.
pub proof fn lemma_chunk_round_trip(m: ChunkModel, rest: Seq<u8>)
    requires
        chunk_wf(m),
        is_valid_type(m.type_bytes),
    ensures
        spec_parse_chunk(chunk_ser(m) + rest) == Ok::<_, PngError>((m, chunk_ser(m).len() as int)),
{
    let b = chunk_ser(m) + rest;
    let n = m.data.len() as u32;
    lemma_be32_round_trip(n);
    lemma_be32_round_trip(m.crc);
    assert(b[0] == be32(n)[0] && b[1] == be32(n)[1] && b[2] == be32(n)[2] && b[3] == be32(n)[3]);
    assert(from_be32(b[0], b[1], b[2], b[3]) == n);
    let len = n as int;
    assert(b.subrange(4, 8) =~= m.type_bytes);
    assert(b.subrange(8, 8 + len) =~= m.data);
    assert(b[8 + len] == be32(m.crc)[0] && b[9 + len] == be32(m.crc)[1] && b[10 + len] == be32(
        m.crc,
    )[2] && b[11 + len] == be32(m.crc)[3]);
    assert(from_be32(b[8 + len], b[9 + len], b[10 + len], b[11 + len]) == m.crc);
    assert(spec_parse_chunk(b) == Ok::<_, PngError>((m, 12 + len)));
    assert(chunk_ser(m).len() == 12 + len);
}

/// One length-prefixed, CRC-protected record of a PNG stream.
#[derive(Debug)]
pub struct Chunk {
    chunk_type: ChunkType,
    data: Vec<u8>,
    crc: u32,
}

impl View for Chunk {
    type V = ChunkModel;

    closed spec fn view(&self) -> ChunkModel {
        ChunkModel { type_bytes: self.chunk_type@, data: self.data@, crc: self.crc }
    }
}

impl Chunk {
    /// A chunk is well formed from construction on; in particular its
    /// stored checksum always matches its type and data bytes.
    #[verifier::type_invariant]
    pub(crate) open spec fn inv(self) -> bool {
        chunk_wf(self@)
    }

    /// Builds a chunk over the given payload, computing the checksum.
    pub fn new(chunk_type: ChunkType, data: Vec<u8>) -> (r: Chunk)
        requires
            data@.len() <= u32::MAX,
        ensures
            r@ == (ChunkModel {
                type_bytes: chunk_type@,
                data: data@,
                crc: crc32_of(chunk_type@ + data@),
            }),
    {
        proof {
            use_type_invariant(&chunk_type);
        }
        let type_bytes = chunk_type.bytes();
        let mut bytes: Vec<u8> = Vec::new();
        bytes.push(type_bytes[0]);
        bytes.push(type_bytes[1]);
        bytes.push(type_bytes[2]);
        bytes.push(type_bytes[3]);
        bytes.extend_from_slice(data.as_slice());
        proof {
            assert(bytes@ =~= chunk_type@ + data@);
        }
        let crc = crc32(bytes.as_slice());
        Chunk { chunk_type, data, crc }
    }

    /// The payload length, as stored in the chunk's 32-bit length field.
    pub fn length(&self) -> (r: u32)
        ensures
            r == self@.data.len(),
    {
        proof {
            use_type_invariant(self);
        }
        self.data.len() as u32
    }

    /// The chunk's type code.
    pub fn chunk_type(&self) -> (r: &ChunkType)
        ensures
            r@ == self@.type_bytes,
    {
        &self.chunk_type
    }

    /// The raw payload bytes.
    pub fn data(&self) -> (r: &[u8])
        ensures
            r@ == self@.data,
    {
        self.data.as_slice()
    }

    /// The stored checksum.
    pub fn crc(&self) -> (r: u32)
        ensures
            r == self@.crc,
    {
        self.crc
    }

    /// Reads the payload as UTF-8 text.  A chunk that does not carry text
    /// is reported, not recovered from; callers that merely probe for text
    /// treat the error as "not a text chunk".
    pub fn data_as_string(&self) -> (r: Result<String, PngError>)
        ensures
            match r {
                Ok(s) => valid_utf8(self@.data) && s@ == decode_utf8(self@.data),
                Err(e) => e == PngError::InvalidUtf8 && !valid_utf8(self@.data),
            },
    {
        match bytes_as_str(self.data.as_slice()) {
            Some(s) => Ok(s.to_owned()),
            None => Err(PngError::InvalidUtf8),
        }
    }

    /// Parses one chunk from the front of `bytes`, consuming `12 + length`
    /// bytes and ignoring anything behind them.  A buffer shorter than the
    /// chunk it claims to hold is rejected; so is an invalid type code or a
    /// checksum that does not match the recomputed one.
    pub fn parse(bytes: &[u8]) -> (r: Result<Chunk, PngError>)
        ensures
            match r {
                Ok(c) => spec_parse_chunk(bytes@) matches Ok((m, n)) && c@ == m,
                Err(e) => spec_parse_chunk(bytes@) == Err::<(ChunkModel, int), _>(e),
            },
    {
        if bytes.len() < 8 {
            return Err(PngError::InvalidLength);
        }
        let length = u32_from_be(bytes[0], bytes[1], bytes[2], bytes[3]);
        let type_array: [u8; 4] = [bytes[4], bytes[5], bytes[6], bytes[7]];
        let chunk_type = match ChunkType::parse_bytes(type_array) {
            Ok(t) => t,
            Err(_) => {
                proof {
                    assert(bytes@.subrange(4, 8) =~= type_array@);
                }
                return Err(PngError::InvalidChunkType);
            },
        };
        if !chunk_type.is_reserved_bit_valid() {
            proof {
                assert(bytes@.subrange(4, 8) =~= type_array@);
            }
            return Err(PngError::InvalidChunkType);
        }
        proof {
            assert(bytes@.subrange(4, 8) =~= type_array@);
        }
        let len = length as usize;
        if bytes.len() < 12 || bytes.len() - 12 < len {
            return Err(PngError::InvalidLength);
        }
        let mut data: Vec<u8> = Vec::new();
        let mut j: usize = 0;
        while j < len
            invariant
                j <= len,
                len + 12 <= bytes@.len(),
                len + 12 <= usize::MAX,
                data@ =~= bytes@.subrange(8, 8 + j as int),
            decreases len - j,
        {
            data.push(bytes[8 + j]);
            j = j + 1;
        }
        let stored = u32_from_be(bytes[8 + len], bytes[9 + len], bytes[10 + len], bytes[11 + len]);
        let mut checked: Vec<u8> = Vec::new();
        checked.push(type_array[0]);
        checked.push(type_array[1]);
        checked.push(type_array[2]);
        checked.push(type_array[3]);
        checked.extend_from_slice(data.as_slice());
        proof {
            assert(checked@ =~= bytes@.subrange(4, 8) + bytes@.subrange(8, 8 + len as int));
        }
        let computed = crc32(checked.as_slice());
        if computed != stored {
            return Err(PngError::CrcMismatch);
        }
        Ok(Chunk { chunk_type, data, crc: stored })
    }

    /// Emits the chunk's wire form.  For a chunk whose type passes the
    /// reserved-bit rule, parsing the result reproduces the chunk: the
    /// round trip is exact.
    pub fn as_bytes(&self) -> (r: Vec<u8>)
        ensures
            r@ == chunk_ser(self@),
            is_valid_type(self@.type_bytes) ==> spec_parse_chunk(r@) == Ok::<_, PngError>(
                (self@, r@.len() as int),
            ),
    {
        proof {
            use_type_invariant(self);
        }
        let mut out: Vec<u8> = Vec::new();
        let length = self.data.len() as u32;
        u32_to_be(length, &mut out);
        let type_bytes = self.chunk_type.bytes();
        out.push(type_bytes[0]);
        out.push(type_bytes[1]);
        out.push(type_bytes[2]);
        out.push(type_bytes[3]);
        out.extend_from_slice(self.data.as_slice());
        u32_to_be(self.crc, &mut out);
        proof {
            assert(out@ =~= chunk_ser(self@));
            if is_valid_type(self@.type_bytes) {
                lemma_chunk_round_trip(self@, Seq::<u8>::empty());
                assert(chunk_ser(self@) + Seq::<u8>::empty() =~= chunk_ser(self@));
            }
        }
        out
    }
}

/// Reads a 32-bit value from four bytes in big-endian order.
pub(crate) fn u32_from_be(b0: u8, b1: u8, b2: u8, b3: u8) -> (r: u32)
    ensures
        r == from_be32(b0, b1, b2, b3),
{
    ((b0 as u32) << 24) | ((b1 as u32) << 16) | ((b2 as u32) << 8) | (b3 as u32)
}

/// Appends the four bytes of `x` in big-endian order.
pub(crate) fn u32_to_be(x: u32, out: &mut Vec<u8>)
    ensures
        final (out)@ == old(out)@ + be32(x),
{
    out.push(#[verifier::truncate] ((x >> 24) as u8));
    out.push(#[verifier::truncate] ((x >> 16) as u8));
    out.push(#[verifier::truncate] ((x >> 8) as u8));
    out.push(#[verifier::truncate] (x as u8));
    proof {
        assert(out@ =~= old(out)@ + be32(x));
    }
}

} // verus!
