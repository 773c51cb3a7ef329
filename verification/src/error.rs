//! The error type shared by every fallible operation of the crate.

use vstd::prelude::*;

verus! {

/// Declaration of `std::io::Error` so that the `Io` variant can carry the
/// underlying cause. The value is opaque to verification; it is only stored
/// and handed back to the caller.
#[verifier::external_type_specification]
#[verifier::external_body]
pub struct ExIoError(std::io::Error);

/// Errors from parsing Debian packages.
#[derive(Debug)]
pub enum Error {
    /// The debian package is not version 2.x
    InvalidVersion,
    /// The archive does not contain the "debian-binary" file
    MissingDebianBinary,
    /// The control archive does not contain a control file
    MissingControlFile,
    /// The control file does not contain a package name
    MissingPackageName,
    /// The control file does not contain a package version
    MissingPackageVersion,
    /// The control file is not formatted correctly
    InvalidControlFile,
    /// The archive does not contain a control archive
    MissingControlArchive,
    /// The archive does not contain a data archive
    MissingDataArchive,
    /// The control archive was already read and thus can not be read again
    ControlAlreadyRead,
    /// The data archive was already read and thus can not be read again
    DataAlreadyRead,
    /// The entry in the deb package was an unknown file format
    UnknownEntryFormat,
    /// There was an I/O failure during the parsing
    Io(std::io::Error),
}

impl From<std::io::Error> for Error {
    fn from(err: std::io::Error) -> (r: Error) {
        Error::Io(err)
    }
}

impl vstd::std_specs::convert::FromSpecImpl<std::io::Error> for Error {
    open spec fn obeys_from_spec() -> bool {
        true
    }

    open spec fn from_spec(err: std::io::Error) -> Error {
        Error::Io(err)
    }
}

/// Relies on `std::io::Error::from(ErrorKind)`: builds the I/O error reported
/// when the input ends before the bytes that a format requires.
#[verifier::external_body]
pub(crate) fn eof_error() -> std::io::Error {
    std::io::Error::from(std::io::ErrorKind::UnexpectedEof)
}

/// Relies on `std::io::Error::from(ErrorKind)`: builds the I/O error reported
/// when a text stream is not valid UTF-8.
#[verifier::external_body]
pub(crate) fn invalid_data_error() -> std::io::Error {
    std::io::Error::from(std::io::ErrorKind::InvalidData)
}

} // verus!
