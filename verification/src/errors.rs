//! Error kinds shared by the commands built on the dirstate engine.

use vstd::prelude::*;
use vstd::string::StringSliceAdditionalSpecFns;

verus! {

/// The kind of command error.
#[derive(Debug)]
pub enum CommandError {
    /// Exit with an error message and "standard" failure exit code.
    Abort { message: Vec<u8> },
    /// A capability has not been implemented.
    ///
    /// There is no error message printed in this case. Instead, the process
    /// exits with a specific status code and a wrapper script may fall back
    /// to another implementation.
    Unimplemented,
}

impl CommandError {
    /// Builds an `Abort` whose message is the UTF-8 bytes of `message`.
    pub fn abort(message: &str) -> (r: Self)
        ensures
            r matches CommandError::Abort { message: m } && m@ == message.spec_bytes(),
    {
        CommandError::Abort { message: crate::ui::utf8_to_local(message) }
    }
}

/// Errors that reading or writing a dirstate can produce.
#[derive(Debug)]
pub enum DirstateError {
    /// The on-disk data was not a valid dirstate-v2 container.
    Parse(crate::on_disk::DirstateV2ParseError),
    /// A path or the serialized data outgrew the fixed-width fields of the
    /// on-disk format (paths are limited to 64 KiB, the data file to 4 GiB).
    TooLarge,
}

} // verus!
