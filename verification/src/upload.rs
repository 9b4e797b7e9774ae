//! Accepting uploads: the request's content type and which uploaded files
//! are kept.

use vstd::prelude::*;
use crate::paths::{path_extension, path_extension_spec};
use crate::text::{chars_contain, chars_of, contains_seq, push_str, string_from_chars};

verus! {

/// Why an upload request was refused before its body was read.
#[derive(Debug, PartialEq, Eq)]
pub enum UploadError {
    /// The content type is not multipart form data; it holds the type sent.
    NotMultipart(String),
    /// The multipart boundary could not be read; it holds the reason.
    InvalidBoundary(String),
}

/// The message sent back with a refusal.
pub open spec fn upload_error_message(e: UploadError) -> Seq<char> {
    match e {
        UploadError::NotMultipart(ct) => "Expected multipart/form-data, got: "@ + ct@,
        UploadError::InvalidBoundary(why) => "Invalid boundary: "@ + why@,
    }
}

impl UploadError {
    /// The HTTP status of this refusal (400).
    pub fn http_status(&self) -> (r: u16)
        ensures
            r == 400,
    {
        400
    }

    /// The message sent back with this refusal.
    pub fn message(&self) -> (r: String)
        ensures
            r@ == upload_error_message(*self),
    {
        match self {
            UploadError::NotMultipart(ct) => {
                let mut out = chars_of("Expected multipart/form-data, got: ");
                push_str(&mut out, ct.as_str());
                string_from_chars(&out)
            },
            UploadError::InvalidBoundary(why) => {
                let mut out = chars_of("Invalid boundary: ");
                push_str(&mut out, why.as_str());
                string_from_chars(&out)
            },
        }
    }
}

/// What `multer::parse_boundary` gives for a `Content-Type` value: the
/// boundary parameter of a `multipart/form-data` type, or the text of the
/// error it reports.
pub uninterp spec fn multer_boundary(content_type: Seq<char>) -> Result<Seq<char>, Seq<char>>;

/// The view of a result of two strings.
pub open spec fn result_view(r: Result<String, String>) -> Result<Seq<char>, Seq<char>> {
    match r {
        Ok(s) => Ok(s@),
        Err(e) => Err(e@),
    }
}

/// Reads the multipart boundary out of a `Content-Type` value with
/// `multer::parse_boundary`, turning its error into the error's text. The
/// contract says only that the outcome is the one multer gives for this
/// value; how multer parses media types is not stated.
#[verifier::external_body]
fn parse_multipart_boundary(content_type: &str) -> (r: Result<String, String>)
    ensures
        result_view(r) == multer_boundary(content_type@),
{
    multer::parse_boundary(content_type).map_err(|e| e.to_string())
}

/// Checks the content type of an upload request and reads its multipart
/// boundary. A type that does not mention `multipart/form-data` is refused
/// first; then multer decides.
pub fn upload_boundary(content_type: &str) -> (r: Result<String, UploadError>)
    ensures
        !contains_seq(content_type@, "multipart/form-data"@) ==> (r matches Err(UploadError::NotMultipart(ct))
            && ct@ == content_type@),
        contains_seq(content_type@, "multipart/form-data"@) ==> match multer_boundary(content_type@) {
            Ok(b) => (r matches Ok(s) && s@ == b),
            Err(why) => (r matches Err(UploadError::InvalidBoundary(w)) && w@ == why),
        },
{
    let hay = chars_of(content_type);
    let needle = chars_of("multipart/form-data");
    if !chars_contain(&hay, &needle) {
        return Err(UploadError::NotMultipart(string_from_chars(&hay)));
    }
    match parse_multipart_boundary(content_type) {
        Ok(b) => Ok(b),
        Err(why) => Err(UploadError::InvalidBoundary(why)),
    }
}

/// The Unicode lower-case form of a string, as `str::to_lowercase`.
pub uninterp spec fn unicode_lowercase(s: Seq<char>) -> Seq<char>;

/// Lower-cases a string with `str::to_lowercase`. The contract says only
/// that the result is the one the standard library gives for this string;
/// the Unicode case mapping is not stated.
#[verifier::external_body]
fn to_lowercase(s: &str) -> (r: String)
    ensures
        r@ == unicode_lowercase(s@),
{
    s.to_lowercase()
}

/// The extensions of the image files that uploads may add.
pub open spec fn is_upload_extension(e: Seq<char>) -> bool {
    e == "jpg"@ || e == "jpeg"@ || e == "png"@ || e == "webp"@
}

/// The name an uploaded file is stored under: the one it was sent with, or
/// `unknown`.
pub open spec fn upload_name_spec(sent: Option<Seq<char>>) -> Seq<char> {
    match sent {
        Some(n) => n,
        None => "unknown"@,
    }
}

/// Whether an uploaded file is kept: the lower-cased extension of its name
/// (none counts as empty) is one of the image extensions.
pub open spec fn upload_accepted(name: Seq<char>) -> bool {
    let ext = match path_extension_spec(name) {
        Some(e) => e,
        None => Seq::<char>::empty(),
    };
    is_upload_extension(unicode_lowercase(ext))
}

/// An uploaded file's name and whether it is kept.
#[derive(Debug)]
pub struct UploadName {
    pub name: String,
    pub accepted: bool,
}

/// Decides how an uploaded file is named and whether it is kept.
pub fn classify_upload(sent: Option<String>) -> (r: UploadName)
    ensures
        r.name@ == upload_name_spec(match sent { Some(n) => Some(n@), None => None }),
        r.accepted == upload_accepted(r.name@),
{
    let name = match sent {
        Some(n) => n,
        None => String::from_str("unknown"),
    };
    let ext = match path_extension(name.as_str()) {
        Some(e) => e,
        None => String::new(),
    };
    let lower = to_lowercase(ext.as_str());
    let accepted = lower == String::from_str("jpg") || lower == String::from_str("jpeg")
        || lower == String::from_str("png") || lower == String::from_str("webp");
    UploadName { name, accepted }
}

} // verus!
