//! Where the next page of a history begins.

use vstd::prelude::*;
use base64::engine::general_purpose::URL_SAFE_NO_PAD;
use base64::Engine;
use crate::text::same_text;

verus! {

/// The version of the history file and of its cursors.
pub const FILE_VERSION: u8 = 1;

/// Marks a place in the history of one application.
#[derive(Debug)]
pub struct HistoryCursor {
    pub version: u8,
    pub target_id: String,
    pub after_timestamp_ms: u64,
}

/// Why a cursor is refused.
#[derive(Debug, Clone, Copy, PartialEq, Eq, Structural)]
pub enum CursorError {
    NotBase64,
    NotJson,
    UnsupportedVersion,
    OtherTarget,
}

impl CursorError {
    pub open spec fn text(self) -> Seq<char> {
        match self {
            CursorError::NotBase64 => "history cursor is not valid base64url"@,
            CursorError::NotJson => "history cursor is not valid JSON"@,
            CursorError::UnsupportedVersion => "history cursor version is unsupported"@,
            CursorError::OtherTarget => "history cursor belongs to another target"@,
        }
    }

    pub fn message(&self) -> (text: &'static str)
        ensures
            text@ == self.text(),
    {
        match self {
            CursorError::NotBase64 => "history cursor is not valid base64url",
            CursorError::NotJson => "history cursor is not valid JSON",
            CursorError::UnsupportedVersion => "history cursor version is unsupported",
            CursorError::OtherTarget => "history cursor belongs to another target",
        }
    }
}

/// The base64url text of bytes, without padding.
pub uninterp spec fn base64url(bytes: Seq<u8>) -> Seq<char>;

/// The bytes that a base64url text without padding stands for, if it is one.
pub uninterp spec fn base64url_decoded(text: Seq<char>) -> Option<Seq<u8>>;

/// `Engine::encode` of the base64 crate's `URL_SAFE_NO_PAD`. The text is a
/// function of the bytes, and decoding it with the same engine gives the bytes
/// back.
#[verifier::external_body]
fn encode_base64url(bytes: &[u8]) -> (text: String)
    ensures
        text@ == base64url(bytes@),
        base64url_decoded(text@) == Some(bytes@),
{
    URL_SAFE_NO_PAD.encode(bytes)
}

/// `Engine::decode` of the base64 crate's `URL_SAFE_NO_PAD`. Whether it succeeds
/// and what it gives is a function of the text.
#[verifier::external_body]
fn decode_base64url(text: &str) -> (bytes: Option<Vec<u8>>)
    ensures
        match bytes {
            Some(b) => base64url_decoded(text@) == Some(b@),
            None => base64url_decoded(text@) is None,
        },
{
    URL_SAFE_NO_PAD.decode(text).ok()
}

/// The bytes that a client's cursor stands for.
pub fn cursor_bytes(text: &str) -> (bytes: Result<Vec<u8>, CursorError>)
    ensures
        match bytes {
            Ok(b) => base64url_decoded(text@) == Some(b@),
            Err(e) => base64url_decoded(text@) is None && e == CursorError::NotBase64,
        },
{
    match decode_base64url(text) {
        Some(bytes) => Ok(bytes),
        None => Err(CursorError::NotBase64),
    }
}

/// The cursor to hand to a client.
pub fn cursor_text(bytes: &[u8]) -> (text: String)
    ensures
        text@ == base64url(bytes@),
        base64url_decoded(text@) == Some(bytes@),
{
    encode_base64url(bytes)
}

/// What became of a cursor for this application.
pub open spec fn accepted(cursor: HistoryCursor, target: Seq<char>) -> Result<u64, CursorError> {
    if cursor.version != FILE_VERSION {
        Err(CursorError::UnsupportedVersion)
    } else if cursor.target_id@ != target {
        Err(CursorError::OtherTarget)
    } else {
        Ok(cursor.after_timestamp_ms)
    }
}

/// The time after which the page begins; a cursor of another version or of
/// another application is refused.
pub fn accept_cursor(cursor: &HistoryCursor, target_id: &str) -> (after: Result<u64, CursorError>)
    ensures
        after == accepted(*cursor, target_id@),
{
    if cursor.version != FILE_VERSION {
        Err(CursorError::UnsupportedVersion)
    } else if !same_text(cursor.target_id.as_str(), target_id) {
        Err(CursorError::OtherTarget)
    } else {
        Ok(cursor.after_timestamp_ms)
    }
}

/// The cursor behind a point of an application's history.
pub fn cursor_after(target_id: &str, timestamp_ms: u64) -> (cursor: HistoryCursor)
    ensures
        cursor.version == FILE_VERSION,
        cursor.target_id@ == target_id@,
        cursor.after_timestamp_ms == timestamp_ms,
        accepted(cursor, target_id@) == Ok::<u64, CursorError>(timestamp_ms),
{
    HistoryCursor {
        version: FILE_VERSION,
        target_id: target_id.to_owned(),
        after_timestamp_ms: timestamp_ms,
    }
}

} // verus!
