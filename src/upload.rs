//! Uploads: a POST body `<name>|||<payload>` becomes a file under `uploads/`, a PNG image when
//! the payload is a base64 PNG data URI and JSON text otherwise.
use vstd::prelude::*;

use crate::bytes::{ascii_bytes, copy_all, copy_range, find, find_from, has_prefix, lit, push_all, starts};

verus! {

/// `base64::DecodeError`, carried only to tell a failed decode from a successful one.
#[verifier::external_type_specification]
#[verifier::external_body]
pub struct ExDecodeError(base64::DecodeError);

/// The bytes that standard base64 text decodes to, or `None` when it is not valid base64.
pub uninterp spec fn base64_decoded(text: Seq<u8>) -> Option<Seq<u8>>;

/// Whether the bytes are well-formed UTF-8.
pub uninterp spec fn utf8_valid(b: Seq<u8>) -> bool;

/// Relies on `base64::decode` (standard alphabet, padded), whose result depends on the input
/// bytes alone: the decoded bytes, or an error for text that is not valid base64.
#[verifier::external_body]
fn decode_base64(text: &[u8]) -> (r: Result<Vec<u8>, base64::DecodeError>)
    ensures
        match r {
            Ok(v) => base64_decoded(text@) == Some(v@),
            Err(_) => base64_decoded(text@) is None,
        },
{
    base64::decode(text)
}

/// Relies on `std::str::from_utf8`: it succeeds exactly on well-formed UTF-8.
#[verifier::external_body]
fn check_utf8(b: &[u8]) -> (r: bool)
    ensures
        r == utf8_valid(b@),
{
    std::str::from_utf8(b).is_ok()
}

/// A file to write: its path and its contents.
#[derive(Debug)]
pub struct Upload {
    pub path: Vec<u8>,
    pub contents: Vec<u8>,
}

/// Why an upload body yields no file.
#[derive(Clone, Copy, Debug, PartialEq, Eq, Structural)]
pub enum UploadError {
    /// The body is not UTF-8 text.
    NotText,
    /// The body has no `|||` separator.
    NoSeparator,
    /// The payload claims to be a base64 PNG but does not decode.
    BadImage,
}

/// What parts the name of an upload from its payload.
pub open spec fn separator() -> Seq<u8> {
    ascii_bytes("|||"@)
}

/// The start of a payload that is a base64 PNG data URI.
pub open spec fn png_prefix() -> Seq<u8> {
    ascii_bytes("data:image/png;base64,"@)
}

/// The name and the payload of an upload body: the name is what stands before the first
/// `|||`, the payload what follows it up to the next `|||`, if any.
pub open spec fn split_of(body: Seq<u8>) -> Option<(Seq<u8>, Seq<u8>)> {
    match find_from(body, separator(), 0) {
        None => None,
        Some(i) => Some(
            (
                body.take(i),
                match find_from(body, separator(), i + 3) {
                    Some(j) => body.subrange(i + 3, j),
                    None => body.skip(i + 3),
                },
            ),
        ),
    }
}

/// The base64 text of a payload that is a PNG data URI.
pub open spec fn image_text_of(payload: Seq<u8>) -> Option<Seq<u8>> {
    if starts(payload, png_prefix()) {
        Some(payload.skip(png_prefix().len() as int))
    } else {
        None
    }
}

/// Where an upload of the given name is stored.
pub open spec fn target_of(name: Seq<u8>, image: bool) -> Seq<u8> {
    ascii_bytes("uploads/"@) + name + if image {
        ascii_bytes(".png"@)
    } else {
        ascii_bytes(".json"@)
    }
}

/// The file for an upload of `name` with `payload`, given what the payload's base64 text
/// decoded to when it is a PNG data URI: (path, contents), or why there is none.
pub open spec fn file_for(name: Seq<u8>, payload: Seq<u8>, decoded: Option<Seq<u8>>) -> Result<
    (Seq<u8>, Seq<u8>),
    UploadError,
> {
    if image_text_of(payload) is Some {
        match decoded {
            Some(img) => Ok((target_of(name, true), img)),
            None => Err(UploadError::BadImage),
        }
    } else {
        Ok((target_of(name, false), payload))
    }
}

/// The file that an upload body asks for, as (path, contents), or why there is none.
pub open spec fn upload_of(body: Seq<u8>) -> Result<(Seq<u8>, Seq<u8>), UploadError> {
    if !utf8_valid(body) {
        Err(UploadError::NotText)
    } else {
        match split_of(body) {
            None => Err(UploadError::NoSeparator),
            Some((name, payload)) => file_for(
                name,
                payload,
                match image_text_of(payload) {
                    Some(text) => base64_decoded(text),
                    None => None,
                },
            ),
        }
    }
}

/// Splits an upload body into its name and its payload.
pub fn split_upload(body: &[u8]) -> (r: Option<(Vec<u8>, Vec<u8>)>)
    ensures
        match r {
            Some((n, p)) => split_of(body@) == Some((n@, p@)),
            None => split_of(body@) is None,
        },
{
    proof {
        reveal_strlit("|||");
    }
    let sep = lit("|||");
    assert(sep@.len() == 3);
    let n = body.len();
    match find(body, sep.as_slice(), 0) {
        None => None,
        Some(i) => {
            let name = copy_range(body, 0, i);
            let payload = match find(body, sep.as_slice(), i + 3) {
                Some(j) => copy_range(body, i + 3, j),
                None => copy_range(body, i + 3, n),
            };
            assert(name@ =~= body@.take(i as int));
            assert(body@.subrange(i + 3, body@.len() as int) =~= body@.skip(i + 3));
            Some((name, payload))
        },
    }
}

/// The base64 text of a payload, if the payload is a PNG data URI.
pub fn image_text(payload: &[u8]) -> (r: Option<Vec<u8>>)
    ensures
        match r {
            Some(t) => image_text_of(payload@) == Some(t@),
            None => image_text_of(payload@) is None,
        },
{
    proof {
        reveal_strlit("data:image/png;base64,");
    }
    let prefix = lit("data:image/png;base64,");
    if has_prefix(payload, prefix.as_slice()) {
        let t = copy_range(payload, prefix.len(), payload.len());
        assert(t@ =~= payload@.skip(png_prefix().len() as int));
        Some(t)
    } else {
        None
    }
}

/// The path under which an upload of the given name is stored.
pub fn upload_target(name: &[u8], image: bool) -> (r: Vec<u8>)
    ensures
        r@ == target_of(name@, image),
{
    proof {
        reveal_strlit("uploads/");
        reveal_strlit(".png");
        reveal_strlit(".json");
    }
    let mut r = lit("uploads/");
    push_all(&mut r, name);
    let ext = if image {
        lit(".png")
    } else {
        lit(".json")
    };
    push_all(&mut r, ext.as_slice());
    r
}

/// The bytes of an optional vector.
pub open spec fn opt_view(o: Option<Vec<u8>>) -> Option<Seq<u8>> {
    match o {
        Some(v) => Some(v@),
        None => None,
    }
}

/// The file for an upload of `name` with `payload`; `decoded` is what the payload's base64
/// text decoded to, when the payload is a PNG data URI.
pub fn upload_file(name: &[u8], payload: &[u8], decoded: Option<Vec<u8>>) -> (r: Result<
    Upload,
    UploadError,
>)
    ensures
        match r {
            Ok(u) => file_for(name@, payload@, opt_view(decoded)) == Ok::<
                (Seq<u8>, Seq<u8>),
                UploadError,
            >((u.path@, u.contents@)),
            Err(e) => file_for(name@, payload@, opt_view(decoded)) == Err::<
                (Seq<u8>, Seq<u8>),
                UploadError,
            >(e),
        },
{
    if image_text(payload).is_some() {
        match decoded {
            Some(img) => Ok(Upload { path: upload_target(name, true), contents: img }),
            None => Err(UploadError::BadImage),
        }
    } else {
        Ok(Upload { path: upload_target(name, false), contents: copy_all(payload) })
    }
}

/// Works out the file that an upload body asks for.
pub fn plan_upload(body: &[u8]) -> (r: Result<Upload, UploadError>)
    ensures
        match r {
            Ok(u) => upload_of(body@) == Ok::<(Seq<u8>, Seq<u8>), UploadError>((u.path@, u.contents@)),
            Err(e) => upload_of(body@) == Err::<(Seq<u8>, Seq<u8>), UploadError>(e),
        },
{
    if !check_utf8(body) {
        return Err(UploadError::NotText);
    }
    let (name, payload) = match split_upload(body) {
        Some(parts) => parts,
        None => return Err(UploadError::NoSeparator),
    };
    let decoded = match image_text(payload.as_slice()) {
        Some(text) => match decode_base64(text.as_slice()) {
            Ok(img) => Some(img),
            Err(_) => None,
        },
        None => None,
    };
    upload_file(name.as_slice(), payload.as_slice(), decoded)
}

} // verus!
