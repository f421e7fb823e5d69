//! What other crates and the standard library contribute. Nothing in this file is
//! proved: each function makes one outside call and states what is relied on.

use vstd::prelude::*;
use vstd::utf8::{decode_utf8, valid_utf8};

verus! {

/// The Botan release that the `botan-src` crate builds.
pub open spec fn botan_release() -> Seq<char> {
    "3.13.0"@
}

/// The constant `botan_src::BOTAN_VERSION`. The crate takes it from its
/// `release.toml`, which says 3.13.0 in the version that is depended on.
#[verifier::external_body]
pub(crate) fn botan_version() -> (version: &'static str)
    ensures
        version@ == botan_release(),
{
    botan_src::BOTAN_VERSION
}

/// `std::io::Cursor`, the reader over a list of bytes that a decoder reads from.
#[verifier::external_type_specification]
#[verifier::external_body]
#[verifier::reject_recursive_types(T)]
pub struct ExCursor<T>(std::io::Cursor<T>);

/// `flate2::read::GzDecoder`, which unzips what it reads bit by bit.
#[verifier::external_type_specification]
#[verifier::external_body]
#[verifier::reject_recursive_types(R)]
pub struct ExGzDecoder<R>(flate2::read::GzDecoder<R>);

/// The bytes that `decoder` was made over.
pub uninterp spec fn decoder_input(
    decoder: flate2::read::GzDecoder<std::io::Cursor<Vec<u8>>>,
) -> Seq<u8>;

/// The lengths of the buffers that `decoder` was asked to fill so far, in order.
pub uninterp spec fn decoder_reads(
    decoder: flate2::read::GzDecoder<std::io::Cursor<Vec<u8>>>,
) -> Seq<nat>;

/// What the last of `reads` gives, where a decoder over `bytes` is asked to fill
/// buffers of these lengths in order: the bytes that it puts in the buffer, or the text
/// of the error.
pub uninterp spec fn unzip_read(bytes: Seq<u8>, reads: Seq<nat>) -> Result<Seq<u8>, Seq<char>>;

/// The content of the first gzip member at the start of `bytes`, and the text of the
/// error where the checksum or length behind it is missing or wrong. `None` where the
/// header or the compressed data cannot be read to its end.
pub uninterp spec fn gunzipped(bytes: Seq<u8>) -> Option<(Seq<u8>, Option<Seq<char>>)>;

/// Some of `reads` failed.
pub open spec fn failed(bytes: Seq<u8>, reads: Seq<nat>) -> bool
    decreases reads.len(),
{
    reads.len() > 0 && (unzip_read(bytes, reads) is Err || failed(bytes, reads.drop_last()))
}

/// All that `reads` gave, in order.
pub open spec fn given(bytes: Seq<u8>, reads: Seq<nat>) -> Seq<u8>
    decreases reads.len(),
{
    if reads.len() == 0 {
        seq![]
    } else {
        given(bytes, reads.drop_last()) + (match unzip_read(bytes, reads) {
            Ok(chunk) => chunk,
            Err(_) => seq![],
        })
    }
}

/// What a read that returned `result` gave, with `buffer` what the buffer then held.
pub open spec fn reply(result: Result<usize, String>, buffer: Seq<u8>) -> Result<
    Seq<u8>,
    Seq<char>,
> {
    match result {
        Ok(count) => Ok(buffer.take(count as int)),
        Err(error) => Err(error@),
    }
}

/// `reply` is what comes of filling a buffer of length `size` after the first `at` bytes
/// of `content`: more of it, or, where there is no more, its end or `fault`.
pub open spec fn continues(
    content: Seq<u8>,
    fault: Option<Seq<char>>,
    at: int,
    size: nat,
    reply: Result<Seq<u8>, Seq<char>>,
) -> bool {
    match reply {
        Ok(chunk) => {
            &&& chunk.len() <= size
            &&& at + chunk.len() <= content.len()
            &&& chunk == content.subrange(at, at + chunk.len())
            &&& chunk.len() == 0 ==> size == 0 || (at == content.len() && fault is None)
        },
        Err(error) => size > 0 && at == content.len() && fault == Some(error),
    }
}

/// `flate2::read::GzDecoder::new` over the bytes of `body`.
#[verifier::external_body]
pub(crate) fn decoder_over(body: Vec<u8>) -> (decoder: flate2::read::GzDecoder<
    std::io::Cursor<Vec<u8>>,
>)
    ensures
        decoder_input(decoder) == body@,
        decoder_reads(decoder) == Seq::<nat>::empty(),
{
    flate2::read::GzDecoder::new(std::io::Cursor::new(body))
}

/// `flate2::read::GzDecoder`'s `read`. What it gives is fixed by the bytes that the
/// decoder was made over and by the lengths of the buffers up to this one. Where the
/// compressed data can be read to its end, the reads give its content in order, and the
/// checksum and length are looked at only after all of it. Where it cannot, how much is
/// given before the error depends on the lengths of the buffers, and no more is stated
/// of it than that. What stands in the buffer behind what was given is not stated.
#[verifier::external_body]
pub(crate) fn unzip_into(
    decoder: &mut flate2::read::GzDecoder<std::io::Cursor<Vec<u8>>>,
    buffer: &mut [u8],
) -> (result: Result<usize, String>)
    ensures
        decoder_input(*final(decoder)) == decoder_input(*old(decoder)),
        decoder_reads(*final(decoder)) == decoder_reads(*old(decoder)).push(old(buffer)@.len()),
        final(buffer)@.len() == old(buffer)@.len(),
        result matches Ok(count) ==> count <= old(buffer)@.len(),
        reply(result, final(buffer)@) == unzip_read(
            decoder_input(*old(decoder)),
            decoder_reads(*old(decoder)).push(old(buffer)@.len()),
        ),
        match gunzipped(decoder_input(*old(decoder))) {
            Some((content, fault)) => !failed(
                decoder_input(*old(decoder)),
                decoder_reads(*old(decoder)),
            ) ==> continues(
                content,
                fault,
                given(decoder_input(*old(decoder)), decoder_reads(*old(decoder))).len() as int,
                old(buffer)@.len(),
                reply(result, final(buffer)@),
            ),
            None => true,
        },
{
    match std::io::Read::read(decoder, buffer) {
        Ok(count) => Ok(count),
        Err(error) => Err(error.to_string()),
    }
}

/// The text that `String::from_utf8_lossy` makes of `bytes`.
pub uninterp spec fn lossy_text(bytes: Seq<u8>) -> Seq<char>;

/// `String::from_utf8_lossy`: the text that `bytes` encode, with replacement
/// characters for what is not UTF-8. Valid UTF-8 comes out as what it encodes.
#[verifier::external_body]
pub(crate) fn from_utf8_lossy(bytes: &[u8]) -> (text: String)
    ensures
        text@ == lossy_text(bytes@),
        valid_utf8(bytes@) ==> text@ == decode_utf8(bytes@),
{
    String::from_utf8_lossy(bytes).into_owned()
}

/// `String::from_utf8`: the text that `bytes` encode, or `None` where they are not
/// valid UTF-8.
#[verifier::external_body]
pub(crate) fn from_utf8(bytes: Vec<u8>) -> (text: Option<String>)
    ensures
        match text {
            Some(text) => valid_utf8(bytes@) && text@ == decode_utf8(bytes@),
            None => !valid_utf8(bytes@),
        },
{
    String::from_utf8(bytes).ok()
}

} // verus!
