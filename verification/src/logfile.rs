//! Reading the bytes of a log file as Shift_JIS text.
use vstd::prelude::*;

verus! {

/// What decoding `bytes` as Shift_JIS gives: the text, with each
/// malformed sequence replaced by U+FFFD, and whether there was any
/// malformed sequence. A byte order mark at the start selects the
/// encoding it stands for and is left out of the text.
pub uninterp spec fn shift_jis_decoded(bytes: Seq<u8>) -> (Seq<char>, bool);

/// The longest input that `decode_log` takes: the decoder sizes its buffer
/// at up to three bytes for each byte of input.
pub const MAX_LOG_BYTES: usize = usize::MAX / 8;

/// `encoding_rs::SHIFT_JIS.decode`: the decoded text and whether the input
/// held a malformed sequence.
#[verifier::external_body]
fn shift_jis_decode(bytes: &[u8]) -> (r: (String, bool))
    requires
        bytes@.len() <= MAX_LOG_BYTES,
    ensures
        (r.0@, r.1) == shift_jis_decoded(bytes@),
{
    let (text, _, had_errors) = encoding_rs::SHIFT_JIS.decode(bytes);
    (text.into_owned(), had_errors)
}

/// The text of a log file, given what decoding its bytes gave: the text
/// where nothing was malformed, a message otherwise.
pub open spec fn log_outcome(decoded: (Seq<char>, bool)) -> Result<Seq<char>, Seq<char>> {
    if decoded.1 {
        Err("File có ký tự không hợp lệ (Shift-JIS encoding)"@)
    } else {
        Ok(decoded.0)
    }
}

/// What the result of reading a log stands for.
pub open spec fn log_view(r: Result<String, String>) -> Result<Seq<char>, Seq<char>> {
    match r {
        Ok(text) => Ok(text@),
        Err(message) => Err(message@),
    }
}

/// The text of a log file, given what decoding its bytes gave.
pub fn log_text(text: String, had_errors: bool) -> (r: Result<String, String>)
    ensures
        log_view(r) == log_outcome((text@, had_errors)),
{
    if had_errors {
        Err("File có ký tự không hợp lệ (Shift-JIS encoding)".to_owned())
    } else {
        Ok(text)
    }
}

/// The text of a log file with the bytes `bytes`.
pub fn decode_log(bytes: &[u8]) -> (r: Result<String, String>)
    requires
        bytes@.len() <= MAX_LOG_BYTES,
    ensures
        log_view(r) == log_outcome(shift_jis_decoded(bytes@)),
{
    let (text, had_errors) = shift_jis_decode(bytes);
    log_text(text, had_errors)
}

} // verus!
