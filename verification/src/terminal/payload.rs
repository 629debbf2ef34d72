//! Pixel data as the terminal takes it: compressed, in base64.

use base64::Engine;
use std::io::Write;
use vstd::prelude::*;
use vstd::slice::slice_subrange;
use vstd::string::*;

verus! {

/// The character that stands for six bits.
pub open spec fn alphabet(bits: int) -> char {
    if bits < 26 {
        ('A' as int + bits) as char
    } else if bits < 52 {
        ('a' as int + (bits - 26)) as char
    } else if bits < 62 {
        ('0' as int + (bits - 52)) as char
    } else if bits == 62 {
        '+'
    } else {
        '/'
    }
}

/// Bytes in base64: three bytes to four characters, padded at the end.
pub open spec fn base64(data: Seq<u8>) -> Seq<char>
    decreases data.len(),
{
    if data.len() == 0 {
        Seq::empty()
    } else {
        let a = data[0] as int;
        let b = if data.len() > 1 {
            data[1] as int
        } else {
            0
        };
        let c = if data.len() > 2 {
            data[2] as int
        } else {
            0
        };
        let group = seq![
            alphabet(a / 4),
            alphabet(a % 4 * 16 + b / 16),
            if data.len() > 1 {
                alphabet(b % 16 * 4 + c / 64)
            } else {
                '='
            },
            if data.len() > 2 {
                alphabet(c % 64)
            } else {
                '='
            },
        ];
        if data.len() > 3 {
            group + base64(data.skip(3))
        } else {
            group
        }
    }
}

/// `base64::Engine::encode` with the `STANDARD` engine: the standard alphabet,
/// with padding. It panics where the length of the result overflows.
#[verifier::external_body]
pub(crate) fn encode_base64(data: &[u8]) -> (r: String)
    requires
        (data@.len() + 2) / 3 * 4 <= usize::MAX,
    ensures
        r@ == base64(data@),
{
    base64::engine::general_purpose::STANDARD.encode(data)
}

/// The zlib stream into which `flate2` compresses `data` at its default level.
pub uninterp spec fn zlib(data: Seq<u8>) -> Seq<u8>;

/// `flate2::write::ZlibEncoder`, which compresses bytes into a zlib stream. The
/// stream depends on the bytes alone; its content is left open here. Writing to
/// a vector does not fail.
#[verifier::external_body]
pub(crate) fn compress(data: &[u8]) -> (r: Vec<u8>)
    ensures
        r@ == zlib(data@),
{
    let level = flate2::Compression::default();
    let mut encoder = flate2::write::ZlibEncoder::new(Vec::new(), level);
    encoder.write_all(data).expect("writing to a vector does not fail");
    encoder.finish().expect("writing to a vector does not fail")
}

pub(crate) proof fn lemma_base64_len(data: Seq<u8>)
    ensures
        base64(data).len() == (data.len() + 2) / 3 * 4,
    decreases data.len(),
{
    if data.len() > 3 {
        lemma_base64_len(data.skip(3));
    }
}

/// Whole groups are encoded apart from what follows them.
proof fn lemma_base64_split(data: Seq<u8>, at: int)
    requires
        0 <= at <= data.len(),
        at % 3 == 0,
    ensures
        base64(data) == base64(data.take(at)) + base64(data.skip(at)),
    decreases data.len(),
{
    if at == 0 {
        assert(data.skip(0) =~= data);
    } else if at == data.len() {
        assert(data.take(at) =~= data);
    } else {
        lemma_base64_split(data.skip(3), at - 3);
        let head = data.take(at);
        assert(data.skip(3).take(at - 3) =~= head.skip(3));
        assert(data.skip(3).skip(at - 3) =~= data.skip(at));
        if at == 3 {
            assert(head.skip(3) =~= Seq::empty());
        }
        assert(base64(data) =~= base64(head) + base64(data.skip(at)));
    }
}

/// Bytes per chunk of payload: 4096 characters.
pub const CHUNK_BYTES: usize = 3072;

/// The characters of a chunk of payload.
pub const CHUNK_SIZE: usize = 4096;

/// One chunk: the control keys, whether more chunks follow, and the payload.
pub open spec fn chunk_sequence(keys: Seq<char>, more: bool, payload: Seq<char>) -> Seq<char> {
    "\x1b_G"@ + keys + (if more {
        "m=1;"@
    } else {
        "m=0;"@
    }) + payload + "\x1b\\"@
}

/// A payload in chunks. The first one carries the control keys.
pub open spec fn chunked(keys: Seq<char>, payload: Seq<char>) -> Seq<char>
    decreases payload.len(),
{
    if payload.len() == 0 {
        Seq::empty()
    } else if payload.len() <= CHUNK_SIZE {
        chunk_sequence(keys, false, payload)
    } else {
        chunk_sequence(keys, true, payload.take(CHUNK_SIZE as int)) + chunked(
            Seq::empty(),
            payload.skip(CHUNK_SIZE as int),
        )
    }
}

fn append_chunk(text: &mut String, keys: &str, more: bool, payload: &str)
    ensures
        final(text)@ == old(text)@ + chunk_sequence(keys@, more, payload@),
{
    text.append("\x1b_G");
    text.append(keys);
    text.append(
        if more {
            "m=1;"
        } else {
            "m=0;"
        },
    );
    text.append(payload);
    text.append("\x1b\\");
    assert(text@ =~= old(text)@ + chunk_sequence(keys@, more, payload@));
}

/// The data in base64, in chunks.
pub fn encode_chunks(keys: &str, data: &[u8]) -> (r: String)
    ensures
        r@ == chunked(keys@, base64(data@)),
{
    let mut text = String::new();
    let mut from: usize = 0;
    let ghost whole = chunked(keys@, base64(data@));
    assert(data@.skip(0) =~= data@);
    assert(text@ + whole =~= whole);
    while data.len() - from > CHUNK_BYTES
        invariant
            from <= data@.len(),
            from == 0 || data@.len() > from,
            whole == text@ + chunked(
                if from == 0 {
                    keys@
                } else {
                    Seq::empty()
                },
                base64(data@.skip(from as int)),
            ),
        decreases data@.len() - from,
    {
        let end: usize = from + CHUNK_BYTES;
        let payload = encode_base64(slice_subrange(data, from, end));
        let control: &str = if from == 0 {
            keys
        } else {
            ""
        };
        let ghost before = text@;
        append_chunk(&mut text, control, true, payload.as_str());
        proof {
            reveal_strlit("");
            assert(""@ =~= Seq::<char>::empty());
            let rest = data@.skip(from as int);
            lemma_base64_split(rest, CHUNK_BYTES as int);
            assert(rest.take(CHUNK_BYTES as int) =~= data@.subrange(from as int, end as int));
            assert(rest.skip(CHUNK_BYTES as int) =~= data@.skip(end as int));
            lemma_base64_len(rest.take(CHUNK_BYTES as int));
            lemma_base64_len(rest);
            let all = base64(rest);
            assert(all.take(CHUNK_SIZE as int) =~= payload@);
            assert(all.skip(CHUNK_SIZE as int) =~= base64(data@.skip(end as int)));
            assert(whole =~= text@ + chunked(Seq::empty(), base64(data@.skip(end as int))));
        }
        from = end;
    }
    if from < data.len() {
        let payload = encode_base64(slice_subrange(data, from, data.len()));
        let control: &str = if from == 0 {
            keys
        } else {
            ""
        };
        append_chunk(&mut text, control, false, payload.as_str());
        proof {
            reveal_strlit("");
            assert(""@ =~= Seq::<char>::empty());
            let rest = data@.skip(from as int);
            assert(rest =~= data@.subrange(from as int, data@.len() as int));
            lemma_base64_len(rest);
        }
    } else {
        assert(data@.skip(from as int) =~= Seq::empty());
        assert(whole =~= text@);
    }
    text
}

} // verus!
