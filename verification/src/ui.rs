//! Byte/string encoding helpers and user-interface error kinds.
//!
//! The streams themselves (stdout, stderr, colored output) live with the
//! command-line layer; only the plain-data pieces are here.

use vstd::prelude::*;
use vstd::string::StrSliceExecFns;
use vstd::string::StringSliceAdditionalSpecFns;

verus! {

#[verifier::external_type_specification]
#[verifier::external_body]
pub struct ExIoError(std::io::Error);

/// The kind of user interface error.
#[derive(Debug)]
pub enum UiError {
    /// The standard output stream cannot be written to.
    StdoutError(std::io::Error),
    /// The standard error stream cannot be written to.
    StderrError(std::io::Error),
}

/// How paths should be reported relative to the current directory.
#[derive(Debug, Clone, Copy, PartialEq, Eq, Structural)]
pub enum RelativePaths {
    Legacy,
    Bool(bool),
}

/// Encode a Rust string for the user's system: the identity on the UTF-8
/// bytes.
pub fn utf8_to_local(s: &str) -> (r: Vec<u8>)
    ensures
        r@ == s.spec_bytes(),
{
    s.as_bytes_vec()
}

/// Decode user system bytes to a Rust string.
///
/// Relies on `alloc::string::String::from_utf8_lossy`: bytes that are valid
/// UTF-8 come through unchanged, so in particular a pure-ASCII input maps to
/// the string of the same characters.
#[verifier::external_body]
pub fn local_to_utf8(s: &[u8]) -> (r: String)
    ensures
        (forall|i: int| 0 <= i < s@.len() ==> s@[i] < 128) ==> r@ == s@.map_values(
            |b: u8| b as char,
        ),
{
    String::from_utf8_lossy(s).into_owned()
}

} // verus!
