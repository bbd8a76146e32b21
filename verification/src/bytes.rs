//! Little-endian words and text decoding: the byte-level vocabulary shared by
//! the reader and the writer.
use vstd::prelude::*;
use vstd::utf8::*;
use byteorder::{ByteOrder, LittleEndian};

verus! {

/// The value of four bytes read as a little-endian unsigned word.
pub open spec fn le_u32(b0: u8, b1: u8, b2: u8, b3: u8) -> u32 {
    (b0 as int + 256 * (b1 as int) + 65536 * (b2 as int) + 16777216 * (b3 as int)) as u32
}

/// The little-endian word stored at `s[p..p + 4]`.
pub open spec fn word_at(s: Seq<u8>, p: int) -> u32 {
    le_u32(s[p], s[p + 1], s[p + 2], s[p + 3])
}

/// The four bytes of `w` in little-endian order.
#[verifier::opaque]
pub open spec fn le_bytes(w: u32) -> Seq<u8> {
    seq![
        (w % 256) as u8,
        ((w / 256) % 256) as u8,
        ((w / 65536) % 256) as u8,
        (w / 16777216) as u8,
    ]
}

/// The little-endian encoding of a sequence of words, word after word.
pub open spec fn le_words(ws: Seq<u32>) -> Seq<u8>
    decreases ws.len(),
{
    if ws.len() == 0 {
        Seq::empty()
    } else {
        le_words(ws.drop_last()) + le_bytes(ws.last())
    }
}

/// Decoding what `le_bytes` wrote gives the word back.
pub proof fn lemma_le_bytes_roundtrip(w: u32)
    ensures
        le_bytes(w).len() == 4,
        word_at(le_bytes(w), 0) == w,
{
    reveal(le_bytes);
    let b = le_bytes(w);
    assert(b[0] as int + 256 * (b[1] as int) + 65536 * (b[2] as int) + 16777216 * (b[3] as int)
        == w as int) by (nonlinear_arith)
        requires
            b[0] == (w % 256) as u8,
            b[1] == ((w / 256) % 256) as u8,
            b[2] == ((w / 65536) % 256) as u8,
            b[3] == (w / 16777216) as u8,
    {
    }
}

/// `le_words` of a one-word-longer sequence appends that word's four bytes.
pub proof fn lemma_le_words_push(ws: Seq<u32>, w: u32)
    ensures
        le_words(ws.push(w)) == le_words(ws) + le_bytes(w),
{
    assert(ws.push(w).drop_last() =~= ws);
}

/// The length of `le_words(ws)` is four bytes per word.
pub proof fn lemma_le_words_len(ws: Seq<u32>)
    ensures
        le_words(ws).len() == 4 * ws.len(),
    decreases ws.len(),
{
    if ws.len() > 0 {
        lemma_le_words_len(ws.drop_last());
        lemma_le_bytes_roundtrip(ws.last());
    }
}

/// `byteorder`'s `LittleEndian::read_u32`: the first four bytes of `buf` as a
/// little-endian word. It panics on a shorter buffer, which `requires` rules out.
#[verifier::external_body]
pub(crate) fn read_le_u32(buf: &[u8]) -> (w: u32)
    requires
        buf@.len() >= 4,
    ensures
        w == le_u32(buf@[0], buf@[1], buf@[2], buf@[3]),
{
    LittleEndian::read_u32(buf)
}

/// Appends the four little-endian bytes of `w` to `out`.
pub fn push_u32_le(out: &mut Vec<u8>, w: u32)
    ensures
        final(out)@ == old(out)@ + le_bytes(w),
{
    out.push((w % 256) as u8);
    out.push(((w / 256) % 256) as u8);
    out.push(((w / 65536) % 256) as u8);
    out.push((w / 16777216) as u8);
    proof {
        reveal(le_bytes);
        assert(final(out)@ =~= old(out)@ + le_bytes(w));
    }
}

/// What `String::from_utf8_lossy` makes of `bytes`: a function of the bytes alone.
pub uninterp spec fn utf8_lossy(bytes: Seq<u8>) -> Seq<char>;

/// `String::from_utf8_lossy` (made owned): decodes `bytes`, putting U+FFFD in
/// place of each invalid sequence. Stated: the result is `utf8_lossy(bytes)`, and on
/// valid UTF-8 it is the plain decoding, as std's documentation says. What the
/// replacement looks like on invalid input is left unsaid.
#[verifier::external_body]
pub(crate) fn string_from_utf8_lossy(bytes: &[u8]) -> (s: String)
    ensures
        s@ == utf8_lossy(bytes@),
        valid_utf8(bytes@) ==> s@ == decode_utf8(bytes@),
{
    String::from_utf8_lossy(bytes).into_owned()
}

/// `String::from_utf8`: `Some` exactly when `bytes` is valid UTF-8, holding its
/// decoding (std's `FromUtf8Error` is turned into `None`).
#[verifier::external_body]
pub(crate) fn string_from_utf8(bytes: Vec<u8>) -> (s: Option<String>)
    ensures
        s is Some <==> valid_utf8(bytes@),
        s matches Some(t) ==> t@ == decode_utf8(bytes@),
{
    String::from_utf8(bytes).ok()
}

} // verus!
