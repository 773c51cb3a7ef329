//! A library to parse binary Debian packages.
//!
//! A binary Debian package is an `ar` archive holding exactly three members
//! in a fixed order: a format-version marker named `debian-binary`, a
//! compressed `control.tar` with the package metadata, and a compressed
//! `data.tar` with the payload files. This crate validates that layout,
//! decodes the metadata paragraph, and exposes the payload archive.
//!
//! Only version 2.x of the format is supported.

use vstd::prelude::*;

mod archive;
pub use archive::TarArchive;

mod decompress;
mod detect;

mod error;
pub use error::Error;

mod control;
pub use control::Control;

mod debian_binary;
pub use debian_binary::{parse_debian_binary_contents, DebianBinaryVersion};

use archive::{ar_scan, ar_scan_of, ar_scan_panics, spec_ar_scan_panics, ArEntry};
use debian_binary::{spec_debian_binary, VersionOutcome};
use decompress::{gunzip, gunzip_of, unbz2, unbz2_of, unxz, unxz_of, unzstd, unzstd_of};
use detect::{detect_format, sniff_prefix, spec_detect, EntryFormat};
use vstd::pervasive::unreached;

verus! {

/// How far a package has been read. The underlying source is forward-only,
/// so each member can be taken out exactly once, in order.
#[derive(Debug)]
pub enum ReadState {
    Opened,
    ControlRead,
    DataRead,
}

/// The abstract state of a package being read: the reading position, the
/// validated format version, the members the container scan yielded in
/// order, and whether that scan stopped on a read error.
pub struct SpecDebPkg {
    pub state: ReadState,
    pub version: (u32, u32),
    pub entries: Seq<(Seq<u8>, Seq<u8>)>,
    pub scan_err: bool,
}

/// A debian package: the format version and the container members, read
/// strictly forward.
#[derive(Debug)]
pub struct DebPkg {
    /// How far the package has been read; members before this point can not
    /// be read again.
    state: ReadState,
    /// The major and minor format version of the package.
    format_version: DebianBinaryVersion,
    /// The members of the container, in order.
    entries: Vec<ArEntry>,
    /// The read error that stopped the container scan, if one did; it is
    /// reported when the member it hid is asked for.
    scan_err: Option<std::io::Error>,
}

impl View for DebPkg {
    type V = SpecDebPkg;

    closed spec fn view(&self) -> SpecDebPkg {
        SpecDebPkg {
            state: self.state,
            version: (self.format_version.major, self.format_version.minor),
            entries: Seq::new(self.entries@.len() as nat, |i: int| self.entries@[i]@),
            scan_err: self.scan_err is Some,
        }
    }
}

/// The identifier of the container's first member, the ASCII bytes of
/// `debian-binary`.
pub open spec fn debian_binary_name() -> Seq<u8> {
    seq![0x64u8, 0x65, 0x62, 0x69, 0x61, 0x6e, 0x2d, 0x62, 0x69, 0x6e, 0x61, 0x72, 0x79]
}

/// Checks that the first member carries the `debian-binary` identifier and
/// parses its content as the format version.
fn validate_debian_binary(entry: &ArEntry) -> (r: Result<DebianBinaryVersion, Error>)
    ensures
        entry@.0 != debian_binary_name() ==> r is Err && r->Err_0 is MissingDebianBinary,
        entry@.0 == debian_binary_name() ==> match spec_debian_binary(entry@.1) {
            VersionOutcome::Truncated => r is Err && r->Err_0 is Io,
            VersionOutcome::Invalid => r is Err && r->Err_0 is InvalidVersion,
            VersionOutcome::Minor(m) => r is Ok && r->Ok_0.major == 2 && r->Ok_0.minor == m,
        },
{
    let id = entry.ident_bytes();
    let named = id.len() == 13 && id[0] == 0x64 && id[1] == 0x65 && id[2] == 0x62 && id[3] == 0x69
        && id[4] == 0x61 && id[5] == 0x6e && id[6] == 0x2d && id[7] == 0x62 && id[8] == 0x69
        && id[9] == 0x6e && id[10] == 0x61 && id[11] == 0x72 && id[12] == 0x79;
    proof {
        if named {
            assert(id@ =~= debian_binary_name());
        } else {
            assert(id@ != debian_binary_name());
        }
    }
    if named {
        parse_debian_binary_contents(entry.content_bytes())
    } else {
        Err(Error::MissingDebianBinary)
    }
}

/// What turning one container member into a nested archive yields: the
/// member's encoding is sniffed from its first kilobyte, the matching
/// transform is applied to the whole content, and the decoded bytes are the
/// archive. An unrecognized encoding and a failing transform are the two
/// ways this step fails.
pub open spec fn spec_entry_tar(r: Result<TarArchive, Error>, content: Seq<u8>) -> bool {
    match spec_detect(sniff_prefix(content)) {
        EntryFormat::Tar => r is Ok && r->Ok_0@ == content,
        EntryFormat::Gzip => match gunzip_of(content) {
            Some(d) => r is Ok && r->Ok_0@ == d,
            None => r is Err && r->Err_0 is Io,
        },
        EntryFormat::Xz => match unxz_of(content) {
            Some(d) => r is Ok && r->Ok_0@ == d,
            None => r is Err && r->Err_0 is Io,
        },
        EntryFormat::Bzip2 => match unbz2_of(content) {
            Some(d) => r is Ok && r->Ok_0@ == d,
            None => r is Err && r->Err_0 is Io,
        },
        EntryFormat::Zstd => match unzstd_of(content) {
            Some(d) => r is Ok && r->Ok_0@ == d,
            None => r is Err && r->Err_0 is Io,
        },
        EntryFormat::Unknown => r is Err && r->Err_0 is UnknownEntryFormat,
    }
}

/// The step of `spec_entry_tar` succeeds on `content`.
pub open spec fn spec_entry_tar_ok(content: Seq<u8>) -> bool {
    match spec_detect(sniff_prefix(content)) {
        EntryFormat::Tar => true,
        EntryFormat::Gzip => gunzip_of(content) is Some,
        EntryFormat::Xz => unxz_of(content) is Some,
        EntryFormat::Bzip2 => unbz2_of(content) is Some,
        EntryFormat::Zstd => unzstd_of(content) is Some,
        EntryFormat::Unknown => false,
    }
}

/// Sniffs a member's encoding, applies the matching transform and wraps the
/// decoded bytes as the nested archive.
fn get_tar_from_entry(data: &[u8]) -> (r: Result<TarArchive, Error>)
    ensures
        spec_entry_tar(r, data@),
{
    match detect_format(data) {
        EntryFormat::Tar => Ok(TarArchive::new(vstd::slice::slice_to_vec(data))),
        EntryFormat::Gzip => match gunzip(data) {
            Ok(d) => Ok(TarArchive::new(d)),
            Err(e) => Err(Error::Io(e)),
        },
        EntryFormat::Xz => match unxz(data) {
            Ok(d) => Ok(TarArchive::new(d)),
            Err(e) => Err(Error::Io(e)),
        },
        EntryFormat::Bzip2 => match unbz2(data) {
            Ok(d) => Ok(TarArchive::new(d)),
            Err(e) => Err(Error::Io(e)),
        },
        EntryFormat::Zstd => match unzstd(data) {
            Ok(d) => Ok(TarArchive::new(d)),
            Err(e) => Err(Error::Io(e)),
        },
        EntryFormat::Unknown => Err(Error::UnknownEntryFormat),
    }
}

/// What taking the member at `idx` out of the container yields, for a
/// package whose abstract state is `pre`: when the member is there, the
/// nested-archive step of `spec_entry_tar` runs on it and the state advances
/// to `next`; when it is not, the scan's stored error is reported once, and
/// after that (or without one) the member is reported missing, `missing`
/// naming the error.
pub open spec fn spec_take_entry(
    pre: SpecDebPkg,
    post: SpecDebPkg,
    r: Result<TarArchive, Error>,
    idx: int,
    next: ReadState,
    missing: Error,
) -> bool {
    if pre.entries.len() > idx {
        &&& spec_entry_tar(r, pre.entries[idx].1)
        &&& post == SpecDebPkg { state: next, ..pre }
    } else {
        &&& r is Err
        &&& (pre.scan_err ==> r->Err_0 is Io && post == SpecDebPkg { scan_err: false, ..pre })
        &&& (!pre.scan_err ==> r->Err_0 == missing && post == pre)
    }
}

impl DebPkg {
    /// Parses a debian package out of the raw bytes of its container.
    ///
    /// The container's first member must be named `debian-binary` and carry
    /// a valid `2.<minor>` version line; the remaining members stay unread
    /// until `control` and `data` ask for them. A container whose member
    /// headers would drive the archive reader out of bounds (see
    /// `spec_ar_scan_panics`) is rejected up front as an I/O error.
    pub fn parse(data: &[u8]) -> (r: Result<DebPkg, Error>)
        ensures
            spec_ar_scan_panics(data@) ==> r is Err && r->Err_0 is Io,
            !spec_ar_scan_panics(data@) ==> ({
                let es = ar_scan_of(data@).0;
                let fault = ar_scan_of(data@).1;
                match r {
                    Ok(pkg) => {
                        &&& es.len() >= 1
                        &&& es[0].0 == debian_binary_name()
                        &&& spec_debian_binary(es[0].1) is Minor
                        &&& pkg@.version == (2u32, spec_debian_binary(es[0].1)->Minor_0)
                        &&& pkg@.state is Opened
                        &&& pkg@.entries == es
                        &&& pkg@.scan_err == fault
                    },
                    Err(e) => {
                        if es.len() == 0 {
                            (fault ==> e is Io) && (!fault ==> e is MissingDebianBinary)
                        } else if es[0].0 != debian_binary_name() {
                            e is MissingDebianBinary
                        } else {
                            match spec_debian_binary(es[0].1) {
                                VersionOutcome::Truncated => e is Io,
                                VersionOutcome::Invalid => e is InvalidVersion,
                                VersionOutcome::Minor(_) => false,
                            }
                        }
                    },
                }
            }),
    {
        if ar_scan_panics(data) {
            return Err(Error::Io(crate::error::invalid_data_error()));
        }
        let (entries, scan_err) = ar_scan(data);
        if entries.len() == 0 {
            return match scan_err {
                Some(e) => Err(Error::Io(e)),
                None => Err(Error::MissingDebianBinary),
            };
        }
        let format_version = match validate_debian_binary(&entries[0]) {
            Ok(v) => v,
            Err(e) => return Err(e),
        };
        let pkg = DebPkg { state: ReadState::Opened, format_version, entries, scan_err };
        proof {
            assert(pkg@.entries =~= ar_scan_of(data@).0);
        }
        Ok(pkg)
    }

    /// Returns the major and minor format version of the package.
    pub fn format_version(&self) -> (r: (u32, u32))
        ensures
            r == self@.version,
    {
        (self.format_version.major, self.format_version.minor)
    }

    /// Takes the metadata archive (the container's second member) out of the
    /// package, decompressed and ready for `Control::extract`.
    ///
    /// The source is forward-only: once this member has been passed, asking
    /// for it again is an error.
    pub fn control(&mut self) -> (r: Result<TarArchive, Error>)
        ensures
            match old(self)@.state {
                ReadState::Opened => spec_take_entry(
                    old(self)@,
                    final(self)@,
                    r,
                    1,
                    ReadState::ControlRead,
                    Error::MissingControlArchive,
                ),
                _ => r is Err && r->Err_0 is ControlAlreadyRead && final(self)@ == old(self)@,
            },
    {
        match self.state {
            ReadState::Opened => {
                if self.entries.len() > 1 {
                    self.state = ReadState::ControlRead;
                    get_tar_from_entry(self.entries[1].content_bytes())
                } else {
                    match self.scan_err.take() {
                        Some(e) => Err(Error::Io(e)),
                        None => Err(Error::MissingControlArchive),
                    }
                }
            },
            _ => Err(Error::ControlAlreadyRead),
        }
    }

    /// Takes the payload archive (the container's third member) out of the
    /// package, decompressed, consuming the metadata archive first if it has
    /// not been read yet.
    ///
    /// The source is forward-only: once this member has been passed, asking
    /// for it again is an error.
    pub fn data(&mut self) -> (r: Result<TarArchive, Error>)
        ensures
            match old(self)@.state {
                ReadState::Opened => {
                    let es = old(self)@.entries;
                    if es.len() <= 1 {
                        &&& r is Err
                        &&& (old(self)@.scan_err ==> r->Err_0 is Io && final(self)@ == (SpecDebPkg {
                            scan_err: false,
                            ..old(self)@
                        }))
                        &&& (!old(self)@.scan_err ==> r->Err_0 is MissingControlArchive
                            && final(self)@ == old(self)@)
                    } else if !spec_entry_tar_ok(es[1].1) {
                        &&& spec_entry_tar(r, es[1].1)
                        &&& final(self)@ == (SpecDebPkg {
                            state: ReadState::ControlRead,
                            ..old(self)@
                        })
                    } else {
                        spec_take_entry(
                            SpecDebPkg { state: ReadState::ControlRead, ..old(self)@ },
                            final(self)@,
                            r,
                            2,
                            ReadState::DataRead,
                            Error::MissingDataArchive,
                        )
                    }
                },
                ReadState::ControlRead => spec_take_entry(
                    old(self)@,
                    final(self)@,
                    r,
                    2,
                    ReadState::DataRead,
                    Error::MissingDataArchive,
                ),
                ReadState::DataRead => r is Err && r->Err_0 is DataAlreadyRead && final(self)@
                    == old(self)@,
            },
    {
        match self.control() {
            Ok(_) => (),
            Err(e) => match e {
                Error::ControlAlreadyRead => (),
                _ => {
                    return Err(e);
                },
            },
        }
        match self.state {
            ReadState::Opened => unreached(),
            ReadState::ControlRead => {
                if self.entries.len() > 2 {
                    self.state = ReadState::DataRead;
                    get_tar_from_entry(self.entries[2].content_bytes())
                } else {
                    match self.scan_err.take() {
                        Some(e) => Err(Error::Io(e)),
                        None => Err(Error::MissingDataArchive),
                    }
                }
            },
            ReadState::DataRead => Err(Error::DataAlreadyRead),
        }
    }
}

} // verus!
