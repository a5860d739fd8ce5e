use vstd::prelude::*;

use crate::error::Error;

verus! {

/// The text that a byte sequence denotes under UTF-8, when it is valid.
pub uninterp spec fn utf8_decode(bytes: Seq<u8>) -> Option<Seq<char>>;

/// The text that the fallback transcoding yields for a byte sequence,
/// when it consumes the whole input.
pub uninterp spec fn shift_jis_transcode(bytes: Seq<u8>) -> Option<Seq<char>>;

/// Relies on std::str::from_utf8: whether a byte sequence is valid UTF-8,
/// and the text it then denotes, depend on the bytes alone.
#[verifier::external_body]
fn bytes_to_utf8(buf: &[u8]) -> (r: Option<String>)
    ensures
        (r is Some) == (utf8_decode(buf@) is Some),
        r matches Some(s) ==> Some(s@) == utf8_decode(buf@),
{
    std::str::from_utf8(buf).ok().map(|s| s.to_owned())
}

/// Relies on encoding_rs's Decoder::decode_to_str for SHIFT_JIS: the
/// transcoding is a function of the input bytes alone, and reports
/// through CoderResult whether the whole input was consumed into the
/// fixed-size output buffer.
#[verifier::external_body]
pub fn encode_to_utf8(buf: &[u8]) -> (r: Option<String>)
    ensures
        (r is Some) == (shift_jis_transcode(buf@) is Some),
        r matches Some(s) ==> Some(s@) == shift_jis_transcode(buf@),
{
    let mut buffer_bytes = [0u8; 4096];
    let buffer_str = std::str::from_utf8_mut(&mut buffer_bytes[..]).ok()?;
    let (result, _, written, _) = encoding_rs::SHIFT_JIS.new_decoder().decode_to_str(
        buf,
        buffer_str,
        true,
    );
    match result {
        encoding_rs::CoderResult::InputEmpty => Some(buffer_str[..written].to_owned()),
        encoding_rs::CoderResult::OutputFull => None,
    }
}

/// Decodes the raw bytes of a source file: as UTF-8 when they are valid,
/// through the fallback transcoding otherwise; bytes that neither can
/// decode are refused.
pub fn decode_bytes(buf: &[u8]) -> (r: Result<String, Error>)
    ensures
        utf8_decode(buf@) matches Some(t) ==> (r matches Ok(s) && s@ == t),
        utf8_decode(buf@) is None ==> (shift_jis_transcode(buf@) matches Some(t) ==> (r matches Ok(
            s,
        ) && s@ == t)),
        utf8_decode(buf@) is None && shift_jis_transcode(buf@) is None ==> (r matches Err(e) && e
            == Error::NonUtf8Conversion),
{
    match bytes_to_utf8(buf) {
        Some(s) => Ok(s),
        None => match encode_to_utf8(buf) {
            Some(s) => Ok(s),
            None => Err(Error::NonUtf8Conversion),
        },
    }
}

} // verus!
