//! Checks on requests that name, rename or remove stored items.

use vstd::prelude::*;
use crate::text::{trim_ws, trim_whitespace};
use crate::sanitize::{sanitize_filename_spec, sanitize_filename_safe};
use crate::content::download_basename;
use crate::paths::{file_name, join_path, path_join};
use crate::text::{chars_of, string_from_chars};

verus! {

/// What `percent_encoding::percent_decode_str(s).decode_utf8_lossy()` gives.
pub uninterp spec fn spec_percent_decode_lossy(s: Seq<char>) -> Seq<char>;

/// Decodes the `%XX` escapes of a request path with
/// `percent_encoding::percent_decode_str(..).decode_utf8_lossy()`; bytes that
/// are not UTF-8 become U+FFFD. The contract names the result.
#[verifier::external_body]
fn decode_request_path(s: &str) -> (r: String)
    ensures r@ == spec_percent_decode_lossy(s@),
{
    percent_encoding::percent_decode_str(s).decode_utf8_lossy().to_string()
}

/// An item named in a request: the decoded path relative to the upload
/// folder, and that path joined onto the folder.
pub struct RequestTarget {
    pub relative: String,
    pub full: String,
}

/// Decodes the path of a request (`%XX` escapes, invalid UTF-8 as U+FFFD) and
/// joins it onto the upload folder as `Path::join` does.
pub fn request_target(upload_dir: &str, raw_path: &str) -> (r: RequestTarget)
    ensures
        r.relative@ == spec_percent_decode_lossy(raw_path@),
        r.full@ == path_join(upload_dir@, spec_percent_decode_lossy(raw_path@)),
{
    let relative = decode_request_path(raw_path);
    let joined = join_path(&chars_of(upload_dir), &chars_of(relative.as_str()));
    RequestTarget { relative, full: string_from_chars(&joined) }
}

/// The body of a rename request.
pub struct RenamePayload {
    pub new_name: String,
}

/// Why a rename is refused.
#[derive(Clone, Copy, Debug, PartialEq, Eq, Structural)]
pub enum RenameRejection {
    /// The new name is empty or white space.
    NameRequired,
    /// Nothing is left of the new name after sanitizing.
    InvalidName,
}

/// The message that answers a refused rename.
pub open spec fn rename_message(r: RenameRejection) -> Seq<char> {
    match r {
        RenameRejection::NameRequired => "New name is required"@,
        RenameRejection::InvalidName => "Invalid or empty filename after sanitization"@,
    }
}

impl RenameRejection {
    /// The text of the 400 answer.
    pub fn message(&self) -> (r: String)
        ensures r@ == rename_message(*self),
    {
        match self {
            RenameRejection::NameRequired => String::from_str("New name is required"),
            RenameRejection::InvalidName => String::from_str("Invalid or empty filename after sanitization"),
        }
    }
}

/// The outcome of checking a new name: refused when it is blank or sanitizes
/// to blank, otherwise the sanitized trimmed name.
pub open spec fn rename_target_spec(new_name: Seq<char>) -> Result<Seq<char>, RenameRejection> {
    let t = trim_ws(new_name);
    if t.len() == 0 {
        Err(RenameRejection::NameRequired)
    } else if trim_ws(sanitize_filename_spec(t)).len() == 0 {
        Err(RenameRejection::InvalidName)
    } else {
        Ok(sanitize_filename_spec(t))
    }
}

/// The name an item is renamed to: the requested name, trimmed and sanitized.
pub fn rename_target_name(new_name: &str) -> (r: Result<String, RenameRejection>)
    ensures
        match r {
            Ok(s) => rename_target_spec(new_name@) == Ok::<Seq<char>, RenameRejection>(s@),
            Err(e) => rename_target_spec(new_name@) == Err::<Seq<char>, RenameRejection>(e),
        },
{
    let t = trim_whitespace(new_name);
    if t.as_str().unicode_len() == 0 {
        return Err(RenameRejection::NameRequired);
    }
    let s = sanitize_filename_safe(t.as_str());
    let st = trim_whitespace(s.as_str());
    if st.as_str().unicode_len() == 0 {
        return Err(RenameRejection::InvalidName);
    }
    Ok(s)
}

/// The last component of the renamed item's old path, or the path itself.
pub fn old_basename(decoded: &str) -> (r: String)
    ensures r@ == download_basename(decoded@),
{
    let v = chars_of(decoded);
    match file_name(&v) {
        Some(n) => string_from_chars(&n),
        None => String::from_str(decoded),
    }
}

} // verus!
