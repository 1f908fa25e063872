use vstd::prelude::*;
use vstd::string::StrSliceExecFns;
use vstd::utf8::{
    decode_utf8, encode_utf8, encode_utf8_decode_utf8, encode_utf8_valid_utf8, is_ascii_chars,
    is_ascii_chars_encode_utf8, valid_utf8,
};

use crate::checksum::crc32_of;
use crate::chunk::{Chunk, ChunkModel};
use crate::chunk_type::{all_letter_chars, char_bytes, spells, ChunkType};
use crate::error::PngError;
use crate::png::{find_first, lemma_find_push, lemma_remove_push, remove_first, Png};

verus! {

/// The chunk that `encode` appends for a given type string and message:
/// the type's letters as bytes, the message's UTF-8 bytes, and the
/// checksum over both.
pub open spec fn encoded_chunk(q: Seq<char>, msg: Seq<char>) -> ChunkModel {
    ChunkModel {
        type_bytes: char_bytes(q),
        data: encode_utf8(msg),
        crc: crc32_of(char_bytes(q) + encode_utf8(msg)),
    }
}

/// The line `print` emits for one text-bearing chunk, without the newline
/// that separates lines.
pub open spec fn render_one(m: ChunkModel) -> Seq<char> {
    decode_utf8(m.type_bytes) + seq![':', ' '] + decode_utf8(m.data)
}

/// Everything `print` emits: one `<type>: <message>` line per chunk whose
/// payload is UTF-8 text, in container order, joined by newlines; chunks
/// whose payload is not UTF-8 are passed over silently.
pub open spec fn render(ms: Seq<ChunkModel>) -> Seq<char>
    decreases ms.len(),
{
    if ms.len() == 0 {
        Seq::empty()
    } else {
        let rest = render(ms.drop_first());
        if !valid_utf8(ms[0].data) {
            rest
        } else if rest.len() == 0 {
            render_one(ms[0])
        } else {
            render_one(ms[0]) + seq!['\n'] + rest
        }
    }
}

/// The line of one chunk is never empty: it always holds `": "`.
proof fn lemma_render_one_nonempty(m: ChunkModel)
    ensures
        render_one(m).len() >= 2,
{
}

/// What one more chunk at the end does to the listing: nothing without
/// text, the bare line onto an empty listing, and a newline then the line
/// otherwise.
pub proof fn lemma_render_push(ms: Seq<ChunkModel>, m: ChunkModel)
    ensures
        render(ms.push(m)) == (if !valid_utf8(m.data) {
            render(ms)
        } else if render(ms).len() == 0 {
            render_one(m)
        } else {
            render(ms) + seq!['\n'] + render_one(m)
        }),
    decreases ms.len(),
{
    let s = ms.push(m);
    lemma_render_one_nonempty(m);
    if ms.len() == 0 {
        assert(s.drop_first() =~= Seq::<ChunkModel>::empty());
        assert(s[0] == m);
        assert(render(Seq::<ChunkModel>::empty()) == Seq::<char>::empty());
    } else {
        assert(s[0] == ms[0]);
        assert(s.drop_first() =~= ms.drop_first().push(m));
        lemma_render_push(ms.drop_first(), m);
        let rest = render(ms.drop_first());
        let rest_s = render(s.drop_first());
        lemma_render_one_nonempty(ms[0]);
        if valid_utf8(m.data) {
            if rest.len() == 0 {
                assert(rest_s == render_one(m));
            } else {
                assert(rest_s == rest + seq!['\n'] + render_one(m));
            }
            assert(rest_s.len() > 0);
            if !valid_utf8(ms[0].data) {
                assert(render(s) == rest_s);
                assert(render(ms) == rest);
            } else {
                assert(render(s) == render_one(ms[0]) + seq!['\n'] + rest_s);
                if rest.len() == 0 {
                    assert(render(ms) == render_one(ms[0]));
                    assert(render_one(ms[0]) + seq!['\n'] + render_one(m) =~= render(ms)
                        + seq!['\n'] + render_one(m));
                } else {
                    assert(render(ms) == render_one(ms[0]) + seq!['\n'] + rest);
                    assert(render_one(ms[0]) + seq!['\n'] + (rest + seq!['\n'] + render_one(m))
                        =~= (render_one(ms[0]) + seq!['\n'] + rest) + seq!['\n'] + render_one(
                        m,
                    ));
                }
            }
        } else {
            assert(rest_s == rest);
            if !valid_utf8(ms[0].data) {
                assert(render(s) == rest_s && render(ms) == rest);
            } else {
                assert(render(s) == (if rest_s.len() == 0 {
                    render_one(ms[0])
                } else {
                    render_one(ms[0]) + seq!['\n'] + rest_s
                }));
                assert(render(ms) == (if rest.len() == 0 {
                    render_one(ms[0])
                } else {
                    render_one(ms[0]) + seq!['\n'] + rest
                }));
            }
        }
    }
}

/// Listing a container none of whose chunks carries UTF-8 text yields the
/// empty string; in particular an empty container does.
pub proof fn lemma_render_no_text(ms: Seq<ChunkModel>)
    requires
        forall|i: int| 0 <= i < ms.len() ==> !valid_utf8(#[trigger] ms[i].data),
    ensures
        render(ms) == Seq::<char>::empty(),
    decreases ms.len(),
{
    if ms.len() > 0 {
        assert(!valid_utf8(ms[0].data));
        assert forall|i: int| 0 <= i < ms.drop_first().len() implies !valid_utf8(
            #[trigger] ms.drop_first()[i].data,
        ) by {
            assert(ms.drop_first()[i] == ms[i + 1]);
        }
        lemma_render_no_text(ms.drop_first());
    }
}

/// Hiding a message under a type that the container does not hold yet, then
/// looking that type up, finds exactly the new chunk, whose payload decodes
/// back to the message; and removing the type afterwards restores the
/// container, so that the type is no longer found.
pub proof fn lemma_encode_then_decode(ms: Seq<ChunkModel>, q: Seq<char>, msg: Seq<char>)
    requires
        find_first(ms, q) is None,
        all_letter_chars(q),
    ensures
        ({
            let m = encoded_chunk(q, msg);
            &&& find_first(ms.push(m), q) == Some(m)
            &&& valid_utf8(m.data)
            &&& decode_utf8(m.data) == msg
            &&& remove_first(ms.push(m), q) == ms
        }),
{
    let m = encoded_chunk(q, msg);
    assert(is_ascii_chars(q));
    is_ascii_chars_encode_utf8(q);
    assert(encode_utf8(q) =~= char_bytes(q));
    assert(spells(q, m.type_bytes));
    lemma_find_push(ms, q, m);
    lemma_remove_push(ms, q, m);
    encode_utf8_valid_utf8(msg);
    encode_utf8_decode_utf8(msg);
}

/// Parses the type string, wraps the message's UTF-8 bytes in a fresh chunk
/// and appends it.  Nothing checks for an existing chunk of that type:
/// repeated encodes accumulate.  The container is untouched when the type
/// string is rejected.
pub fn encode(png: &mut Png, chunk_type: &str, message: &str) -> (r: Result<(), PngError>)
    requires
        encode_utf8(message@).len() <= u32::MAX,
    ensures
        match r {
            Ok(_) => chunk_type@.len() == 4 && all_letter_chars(chunk_type@) && final (png)@
                == old(png)@.push(encoded_chunk(chunk_type@, message@)),
            Err(e) => final (png)@ == old(png)@ && ((e == PngError::InvalidLength
                && chunk_type@.len() != 4) || (e == PngError::InvalidEncoding && chunk_type@.len()
                == 4 && !all_letter_chars(chunk_type@))),
        },
{
    let t = match ChunkType::parse_str(chunk_type) {
        Ok(t) => t,
        Err(e) => {
            return Err(e);
        },
    };
    let data = message.as_bytes_vec();
    let chunk = Chunk::new(t, data);
    png.append_chunk(chunk);
    Ok(())
}

/// Looks the type up and reads the first matching chunk's payload as text.
pub fn decode(png: &Png, chunk_type: &str) -> (r: Result<String, PngError>)
    ensures
        match r {
            Ok(s) => find_first(png@, chunk_type@) matches Some(m) && valid_utf8(m.data) && s@
                == decode_utf8(m.data),
            Err(e) => (e == PngError::ChunkNotFound && find_first(png@, chunk_type@) is None) || (
            e == PngError::InvalidUtf8 && (find_first(png@, chunk_type@) matches Some(m)
                && !valid_utf8(m.data))),
        },
{
    match png.chunk_by_type(chunk_type) {
        Some(chunk) => chunk.data_as_string(),
        None => Err(PngError::ChunkNotFound),
    }
}

/// Removes the first chunk of the given type and hands it back; the
/// container is left unchanged when no chunk matches.
pub fn remove(png: &mut Png, chunk_type: &str) -> (r: Result<Chunk, PngError>)
    ensures
        match r {
            Ok(c) => find_first(old(png)@, chunk_type@) == Some(c@) && final (png)@
                == remove_first(old(png)@, chunk_type@),
            Err(e) => e == PngError::ChunkNotFound && find_first(old(png)@, chunk_type@) is None
                && final (png)@ == old(png)@,
        },
{
    png.remove_chunk(chunk_type)
}

/// Renders every text-bearing chunk as `<type>: <message>`, in container
/// order, with the lines joined by newlines.
pub fn print(png: &Png) -> (r: String)
    ensures
        r@ == render(png@),
{
    let mut messages = String::new();
    let chunks = png.chunks();
    let mut i: usize = 0;
    proof {
        assert(png@.take(0) =~= Seq::<ChunkModel>::empty());
    }
    while i < chunks.len()
        invariant
            i <= chunks@.len(),
            png@.len() == chunks@.len(),
            forall|j: int| 0 <= j < png@.len() ==> #[trigger] chunks@[j]@ == png@[j],
            messages@ == render(png@.take(i as int)),
        decreases chunks@.len() - i,
    {
        let chunk = &chunks[i];
        let ghost prefix = messages@;
        match chunk.data_as_string() {
            Ok(message) => {
                if !messages.as_str().is_empty() {
                    messages.append("\n");
                }
                let ts = chunk.chunk_type().to_string();
                messages.append(ts.as_str());
                messages.append(": ");
                messages.append(message.as_str());
                proof {
                    reveal_strlit(": ");
                    reveal_strlit("\n");
                    assert(": "@ =~= seq![':', ' ']);
                    assert("\n"@ =~= seq!['\n']);
                    if prefix.len() == 0 {
                        assert(messages@ =~= render_one(png@[i as int]));
                    } else {
                        assert(messages@ =~= prefix + seq!['\n'] + render_one(png@[i as int]));
                    }
                }
            },
            Err(_) => {},
        }
        proof {
            assert(png@.take(i as int).push(png@[i as int]) =~= png@.take(i as int + 1));
            lemma_render_push(png@.take(i as int), png@[i as int]);
        }
        i = i + 1;
    }
    proof {
        assert(png@.take(png@.len() as int) =~= png@);
    }
    messages
}

} // verus!
