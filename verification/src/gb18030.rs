//! GB18030, the text encoding of the BBS, through the `encoding_rs` crate.

use vstd::prelude::*;

use encoding_rs::{CoderResult, Decoder, GB18030};

verus! {

#[verifier::external_type_specification]
#[verifier::external_body]
pub struct ExDecoder(Decoder);

/// The bytes `encoding_rs` produces for `text` in GB18030 (unmappable
/// characters as numeric character references).
pub uninterp spec fn gb18030_encoded(text: Seq<char>) -> Seq<u8>;

/// The characters a GB18030 decoder made without BOM handling has emitted
/// once it has been fed `bytes` as a stream that has not ended: what it emits
/// does not depend on how the bytes were split into calls, and the bytes of
/// an incomplete final character are held back until more arrive.
pub uninterp spec fn gb18030_stream_text(bytes: Seq<u8>) -> Seq<char>;

/// The worst-case UTF-8 size of the output for `byte_length` more input
/// bytes, for a GB18030 decoder that has been fed `bytes`; `None` when the
/// size overflows `usize`.
pub uninterp spec fn gb18030_worst_case_utf8(bytes: Seq<u8>, byte_length: usize) -> Option<usize>;

/// Whether the text of the stream `longer` extends the text of `shorter`:
/// a decoder never takes back what it has emitted.
pub open spec fn stream_text_extends(shorter: Seq<u8>, longer: Seq<u8>) -> bool {
    let a = gb18030_stream_text(shorter);
    let b = gb18030_stream_text(longer);
    a.len() <= b.len() && b.subrange(0, a.len() as int) == a
}

/// The characters the stream `fed` emits when `data` follows it.
pub open spec fn newly_decoded(fed: Seq<u8>, data: Seq<u8>) -> Seq<char> {
    gb18030_stream_text(fed + data).skip(gb18030_stream_text(fed).len() as int)
}

/// A streaming GB18030 decoder together with the bytes it has been fed since
/// it was made. Only the functions of this module touch the decoder, so the
/// history is exactly what the decoder has read.
pub struct Gb18030Stream {
    decoder: Decoder,
    fed: Ghost<Seq<u8>>,
}

impl View for Gb18030Stream {
    type V = Seq<u8>;

    closed spec fn view(&self) -> Seq<u8> {
        self.fed@
    }
}

impl Gb18030Stream {
    /// A fresh decoder that has read nothing.
    pub fn new() -> (s: Self)
        ensures
            s@ == Seq::<u8>::empty(),
    {
        Gb18030Stream { decoder: new_gb18030_decoder(), fed: Ghost(Seq::empty()) }
    }
}

/// Calls `GB18030.new_decoder_without_bom_handling()`: a streaming decoder
/// that treats a leading byte-order mark as ordinary input.
#[verifier::external_body]
fn new_gb18030_decoder() -> Decoder {
    GB18030.new_decoder_without_bom_handling()
}

/// Calls `Decoder::max_utf8_buffer_length`: the worst-case UTF-8 size of the
/// output for `byte_length` more input bytes in the decoder's current state,
/// `None` on overflow. The result is the named value for the bytes the
/// decoder has read; the crate's source computes it as one plus three times
/// `byte_length` plus the few bytes held back, so it is `Some` for inputs of
/// up to 2^24 bytes.
#[verifier::external_body]
pub(crate) fn max_utf8_buffer_length(stream: &Gb18030Stream, byte_length: usize) -> (r: Option<usize>)
    ensures
        r == gb18030_worst_case_utf8(stream@, byte_length),
        byte_length <= 0x100_0000 ==> r is Some,
{
    stream.decoder.max_utf8_buffer_length(byte_length)
}

/// Calls `Decoder::decode_to_utf8` with `last == false`, returning whether
/// the input was exhausted (`CoderResult::InputEmpty`), how many bytes were
/// read and how many were written. As documented, at most the given bytes are
/// read, all of them when reported exhausted, which a buffer of the
/// worst-case size guarantees; the bytes read join the stream, and the bytes
/// written are the UTF-8 of the characters that the stream's text gained.
#[verifier::external_body]
pub(crate) fn decode_to_utf8(stream: &mut Gb18030Stream, src: &[u8], dst: &mut Vec<u8>) -> (r: (
    bool,
    usize,
    usize,
))
    ensures
        r.1 <= src@.len(),
        r.0 ==> r.1 == src@.len(),
        (gb18030_worst_case_utf8(old(stream)@, src@.len() as usize) matches Some(m) && m
            <= old(dst)@.len()) ==> r.0,
        final(stream)@ == old(stream)@ + src@.subrange(0, r.1 as int),
        stream_text_extends(old(stream)@, final(stream)@),
        final(dst)@.len() == old(dst)@.len(),
        r.2 <= final(dst)@.len(),
        final(dst)@.subrange(0, r.2 as int) == vstd::utf8::encode_utf8(
            gb18030_stream_text(final(stream)@).skip(gb18030_stream_text(old(stream)@).len() as int),
        ),
{
    let (result, read, written, _) = stream.decoder.decode_to_utf8(src, dst.as_mut_slice(), false);
    match result {
        CoderResult::InputEmpty => (true, read, written),
        CoderResult::OutputFull => (false, read, written),
    }
}

/// Calls `std::str::from_utf8` on valid UTF-8: the text those bytes encode.
#[verifier::external_body]
pub(crate) fn utf8_text(bytes: &[u8]) -> (s: &str)
    requires
        vstd::utf8::valid_utf8(bytes@),
    ensures
        vstd::utf8::encode_utf8(s@) == bytes@,
{
    match std::str::from_utf8(bytes) {
        Ok(s) => s,
        Err(_) => "",
    }
}

/// Calls `Encoding::encode` on `GB18030` and takes the bytes: the result is
/// the named value `gb18030_encoded(text)`.
#[verifier::external_body]
pub(crate) fn gb18030_encode(text: &str) -> (r: Vec<u8>)
    ensures
        r@ == gb18030_encoded(text@),
{
    let (bytes, _, _) = GB18030.encode(text);
    bytes.into_owned()
}

} // verus!
