//! Cover-art transport: data URLs and their base64 payloads.
//!
//! A cover image travels either as a filesystem path or as an inline
//! `data:` URL whose payload is base64 text. The external tool accepts only
//! file paths, so inline payloads are decoded here and materialized by the
//! caller; images read from disk are encoded here for preview transport.

use crate::errors::ConvertError;
use crate::text;
use vstd::prelude::*;

verus! {

/// The base64 rendering of a byte string under the standard alphabet with
/// padding; a function of the bytes alone.
pub uninterp spec fn b64_of(b: Seq<u8>) -> Seq<char>;

/// The byte string a base64 text denotes, or `None` for text that is not
/// valid padded base64; a function of the text alone.
pub uninterp spec fn b64_decoded(s: Seq<char>) -> Option<Seq<u8>>;

/// Relies on base64's STANDARD engine encode: the standard alphabet with
/// canonical padding, four output characters for every three input bytes,
/// depending on the input bytes alone.
#[verifier::external_body]
fn b64_encode(b: &Vec<u8>) -> (r: String)
    requires
        b@.len() <= usize::MAX / 4,
    ensures
        r@ == b64_of(b@),
        r@.len() == 4 * ((b@.len() + 2) / 3),
{
    base64::Engine::encode(&base64::engine::general_purpose::STANDARD, b)
}

/// Relies on base64's STANDARD engine decode: succeeds exactly on valid
/// padded base64 text, depending on the text alone; the error is its
/// report of why the text was rejected.
#[verifier::external_body]
fn b64_decode(s: &str) -> (r: Result<Vec<u8>, String>)
    ensures
        r matches Ok(v) ==> b64_decoded(s@) == Some(v@),
        r is Err ==> b64_decoded(s@) is None,
{
    match base64::Engine::decode(&base64::engine::general_purpose::STANDARD, s) {
        Ok(v) => Ok(v),
        Err(e) => Err(format!("{}", e)),
    }
}

/// Whether `p` ends in `.png`, ignoring ASCII case.
pub open spec fn spec_ends_ci_png(p: Seq<char>) -> bool {
    p.len() >= 4 && p[p.len() - 4] == '.' && (p[p.len() - 3] == 'p' || p[p.len() - 3] == 'P') && (
    p[p.len() - 2] == 'n' || p[p.len() - 2] == 'N') && (p[p.len() - 1] == 'g' || p[p.len() - 1]
        == 'G')
}

/// Whether `p` ends in `.webp`, ignoring ASCII case.
pub open spec fn spec_ends_ci_webp(p: Seq<char>) -> bool {
    p.len() >= 5 && p[p.len() - 5] == '.' && (p[p.len() - 4] == 'w' || p[p.len() - 4] == 'W') && (
    p[p.len() - 3] == 'e' || p[p.len() - 3] == 'E') && (p[p.len() - 2] == 'b' || p[p.len() - 2]
        == 'B') && (p[p.len() - 1] == 'p' || p[p.len() - 1] == 'P')
}

/// The MIME type inferred from an image file's extension: PNG and WebP are
/// recognized; anything else is treated as JPEG.
pub open spec fn spec_mime_for_path(p: Seq<char>) -> Seq<char> {
    if spec_ends_ci_png(p) {
        "image/png"@
    } else if spec_ends_ci_webp(p) {
        "image/webp"@
    } else {
        "image/jpeg"@
    }
}

/// Infers the MIME type of an image file from its extension.
pub fn mime_for_path(p: &str) -> (r: &'static str)
    ensures
        r@ == spec_mime_for_path(p@),
{
    let v = text::chars_of(p);
    let n = v.len();
    if n >= 4 && v[n - 4] == '.' && (v[n - 3] == 'p' || v[n - 3] == 'P') && (v[n - 2] == 'n' || v[n
        - 2] == 'N') && (v[n - 1] == 'g' || v[n - 1] == 'G') {
        "image/png"
    } else if n >= 5 && v[n - 5] == '.' && (v[n - 4] == 'w' || v[n - 4] == 'W') && (v[n - 3] == 'e'
        || v[n - 3] == 'E') && (v[n - 2] == 'b' || v[n - 2] == 'B') && (v[n - 1] == 'p' || v[n - 1]
        == 'P') {
        "image/webp"
    } else {
        "image/jpeg"
    }
}

/// Encodes image bytes as a `data:` URL with the given MIME type.
pub fn make_data_url(mime: &str, bytes: &Vec<u8>) -> (r: String)
    requires
        bytes@.len() <= usize::MAX / 4,
    ensures
        r@ == "data:"@ + mime@ + ";base64,"@ + b64_of(bytes@),
{
    let mut r = String::new();
    r.append("data:");
    r.append(mime);
    r.append(";base64,");
    let payload = b64_encode(bytes);
    r.append(payload.as_str());
    r
}

/// Encodes the bytes of the image file at `path` as a `data:` URL, with
/// the MIME type inferred from the path's extension.
pub fn image_data_url(path: &str, bytes: &Vec<u8>) -> (r: String)
    requires
        bytes@.len() <= usize::MAX / 4,
    ensures
        r@ == "data:"@ + spec_mime_for_path(path@) + ";base64,"@ + b64_of(bytes@),
{
    let mime = mime_for_path(path);
    make_data_url(mime, bytes)
}

/// A caller-supplied cover-art reference, resolved for the muxing tool.
#[derive(Debug, PartialEq, Eq)]
pub enum CoverSource {
    /// A filesystem path, handed to the tool as it stands.
    FilePath(String),
    /// Decoded inline image bytes that must be materialized to a file.
    InlineImage(Vec<u8>),
}

/// Whether `s` is an inline image payload rather than a file path.
pub open spec fn spec_is_data_url(s: Seq<char>) -> bool {
    text::spec_starts_with(s, "data:image/"@)
}

/// The base64 payload of a data URL: everything after the first comma.
pub open spec fn spec_data_url_payload(s: Seq<char>) -> Option<Seq<char>> {
    match text::spec_find(s, ',') {
        Some(i) => Some(s.skip(i + 1)),
        None => None,
    }
}

/// Resolves a caller-supplied cover reference.
///
/// Text not shaped like a `data:image/` URL is a file path and is returned
/// unchanged. A data URL must carry a comma-separated base64 payload:
/// a URL without a comma, or with a payload that is not valid base64, is a
/// validation failure.
pub fn parse_cover_source(cover: &str) -> (r: Result<CoverSource, ConvertError>)
    ensures
        !spec_is_data_url(cover@) ==> (r matches Ok(c) && c matches CoverSource::FilePath(p)
            && p@ == cover@),
        spec_is_data_url(cover@) ==> match spec_data_url_payload(cover@) {
            Some(payload) => match b64_decoded(payload) {
                Some(bytes) => r matches Ok(c) && (c matches CoverSource::InlineImage(b) && b@
                    == bytes),
                None => r matches Err(e) && e is Validation,
            },
            None => r matches Err(e) && (e matches ConvertError::Validation(m) && m@
                == "Invalid data URL format"@),
        },
{
    let chars = text::chars_of(cover);
    let prefix = text::chars_of("data:image/");
    if !text::starts_with(&chars, &prefix) {
        let mut p = String::new();
        p.append(cover);
        return Ok(CoverSource::FilePath(p));
    }
    let n = chars.len();
    match text::find_char(&chars, ',') {
        None => {
            let mut m = String::new();
            m.append("Invalid data URL format");
            Err(ConvertError::Validation(m))
        },
        Some(i) => {
            proof {
                text::lemma_spec_find(chars@, ',');
                assert(i < n);
            }
            let payload = text::subvec(&chars, i + 1, n);
            proof {
                assert(payload@ =~= cover@.skip(i + 1));
            }
            let ps = text::string_from_chars(&payload);
            match b64_decode(ps.as_str()) {
                Ok(bytes) => Ok(CoverSource::InlineImage(bytes)),
                Err(cause) => {
                    let mut m = String::new();
                    m.append("Failed to decode base64: ");
                    m.append(cause.as_str());
                    Err(ConvertError::Validation(m))
                },
            }
        },
    }
}

} // verus!
