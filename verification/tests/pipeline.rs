use debpkg::{Control, DebPkg, Error};

fn build_ar(entries: &[(&str, &[u8])]) -> Vec<u8> {
    let mut builder = ar::Builder::new(Vec::new());
    for (name, data) in entries {
        let header = ar::Header::new(name.as_bytes().to_vec(), data.len() as u64);
        builder.append(&header, *data).unwrap();
    }
    builder.into_inner().unwrap()
}

fn build_tar(files: &[(&str, &[u8])]) -> Vec<u8> {
    let mut builder = tar::Builder::new(Vec::new());
    for (path, data) in files {
        let mut header = tar::Header::new_ustar();
        header.set_size(data.len() as u64);
        header.set_cksum();
        builder
            .append_data(&mut header, std::path::Path::new(path), *data)
            .unwrap();
    }
    builder.into_inner().unwrap()
}

fn gzip_bytes(data: &[u8]) -> Vec<u8> {
    let mut enc = flate2::write::GzEncoder::new(Vec::new(), flate2::Compression::default());
    std::io::Write::write_all(&mut enc, data).unwrap();
    enc.finish().unwrap()
}

fn xz_bytes(data: &[u8]) -> Vec<u8> {
    let mut enc = xz2::write::XzEncoder::new(Vec::new(), 6);
    std::io::Write::write_all(&mut enc, data).unwrap();
    enc.finish().unwrap()
}

fn bz2_bytes(data: &[u8]) -> Vec<u8> {
    let mut enc = bzip2::write::BzEncoder::new(Vec::new(), bzip2::Compression::default());
    std::io::Write::write_all(&mut enc, data).unwrap();
    enc.finish().unwrap()
}

fn zstd_bytes(data: &[u8]) -> Vec<u8> {
    zstd::encode_all(data, 0).unwrap()
}

const CONTROL_TEXT: &[u8] = b"Package: foo\nVersion: 1.2.3\nArchitecture: amd64\n";

#[test]
fn empty_ar_fails_parse() {
    let pkg_result = DebPkg::parse(&[]).err().unwrap();
    assert!(matches!(pkg_result, Error::Io(_)));
}

#[test]
fn ar_with_out_debian_binary_fails_parse() {
    let archive = build_ar(&[("debian-trinary", b"2.0\n")]);
    let pkg_result = DebPkg::parse(&archive).err().unwrap();
    assert!(matches!(pkg_result, Error::MissingDebianBinary));
}

#[test]
fn ar_with_wrong_debian_binary_content_fails_parse() {
    let archive = build_ar(&[("debian-binary", b"3.0\n")]);
    let pkg_result = DebPkg::parse(&archive).err().unwrap();
    assert!(matches!(pkg_result, Error::InvalidVersion));
}

#[test]
fn ar_with_only_debian_binary_fails_control() {
    let archive = build_ar(&[("debian-binary", b"2.0\n")]);
    let mut pkg = DebPkg::parse(&archive).unwrap();
    let control_result = pkg.control().err().unwrap();
    assert!(matches!(control_result, Error::MissingControlArchive));
}

#[test]
fn ar_with_empty_control_tar_fails_control_extract() {
    let control_tar = tar::Builder::new(Vec::new()).into_inner().unwrap();
    let archive = build_ar(&[("debian-binary", b"2.0\n"), ("control.tar", &control_tar)]);
    let mut pkg = DebPkg::parse(&archive).unwrap();
    let control_result = pkg.control().err().unwrap();
    assert!(matches!(control_result, Error::UnknownEntryFormat));
}

#[test]
fn ar_with_empty_control_fails_extract() {
    let control_tar = build_tar(&[("./control", b"control")]);
    let archive = build_ar(&[("debian-binary", b"2.0\n"), ("control.tar", &control_tar)]);
    let mut pkg = DebPkg::parse(&archive).unwrap();
    let control_tar = pkg.control().unwrap();
    let control_result = Control::extract(control_tar).err().unwrap();
    assert!(matches!(control_result, Error::InvalidControlFile));
}

#[test]
fn full_package_parses_end_to_end() {
    let control_tar = build_tar(&[("control", CONTROL_TEXT)]);
    let data_tar = build_tar(&[("a/b.txt", b"b"), ("a/c.txt", b"c")]);
    let archive = build_ar(&[
        ("debian-binary", b"2.0\n"),
        ("control.tar", &control_tar),
        ("data.tar", &data_tar),
    ]);
    let mut pkg = DebPkg::parse(&archive).unwrap();
    assert_eq!(pkg.format_version(), (2, 0));
    let control = Control::extract(pkg.control().unwrap()).unwrap();
    assert_eq!(control.name(), "foo");
    assert_eq!(control.version(), "1.2.3");
    assert_eq!(control.get("architecture").unwrap(), "amd64");
    let data = pkg.data().unwrap();
    let paths = data.paths().unwrap();
    assert!(paths.iter().any(|p| p == "a/b.txt"));
    assert!(paths.iter().any(|p| p == "a/c.txt"));
}

#[test]
fn gzip_control_roundtrip() {
    let control_tar = gzip_bytes(&build_tar(&[("./control", CONTROL_TEXT)]));
    let archive = build_ar(&[("debian-binary", b"2.0\n"), ("control.tar.gz", &control_tar)]);
    let mut pkg = DebPkg::parse(&archive).unwrap();
    let control = Control::extract(pkg.control().unwrap()).unwrap();
    assert_eq!(control.name(), "foo");
    assert_eq!(control.version(), "1.2.3");
}

#[test]
fn xz_control_roundtrip() {
    let control_tar = xz_bytes(&build_tar(&[("./control", CONTROL_TEXT)]));
    let archive = build_ar(&[("debian-binary", b"2.0\n"), ("control.tar.xz", &control_tar)]);
    let mut pkg = DebPkg::parse(&archive).unwrap();
    let control = Control::extract(pkg.control().unwrap()).unwrap();
    assert_eq!(control.name(), "foo");
}

#[test]
fn bzip2_control_roundtrip() {
    let control_tar = bz2_bytes(&build_tar(&[("./control", CONTROL_TEXT)]));
    let archive = build_ar(&[("debian-binary", b"2.0\n"), ("control.tar.bz2", &control_tar)]);
    let mut pkg = DebPkg::parse(&archive).unwrap();
    let control = Control::extract(pkg.control().unwrap()).unwrap();
    assert_eq!(control.name(), "foo");
}

#[test]
fn zstd_control_roundtrip() {
    let control_tar = zstd_bytes(&build_tar(&[("./control", CONTROL_TEXT)]));
    let archive = build_ar(&[("debian-binary", b"2.0\n"), ("control.tar.zst", &control_tar)]);
    let mut pkg = DebPkg::parse(&archive).unwrap();
    let control = Control::extract(pkg.control().unwrap()).unwrap();
    assert_eq!(control.name(), "foo");
}

#[test]
fn control_archive_without_control_file_fails_extract() {
    let control_tar = build_tar(&[("other", b"x")]);
    let archive = build_ar(&[("debian-binary", b"2.0\n"), ("control.tar", &control_tar)]);
    let mut pkg = DebPkg::parse(&archive).unwrap();
    let result = Control::extract(pkg.control().unwrap());
    assert!(matches!(result.unwrap_err(), Error::MissingControlFile));
}

#[test]
fn control_cannot_be_read_twice() {
    let control_tar = build_tar(&[("control", CONTROL_TEXT)]);
    let archive = build_ar(&[("debian-binary", b"2.0\n"), ("control.tar", &control_tar)]);
    let mut pkg = DebPkg::parse(&archive).unwrap();
    assert!(pkg.control().is_ok());
    assert!(matches!(pkg.control().unwrap_err(), Error::ControlAlreadyRead));
}

#[test]
fn data_cannot_be_read_twice() {
    let control_tar = build_tar(&[("control", CONTROL_TEXT)]);
    let data_tar = build_tar(&[("a", b"a")]);
    let archive = build_ar(&[
        ("debian-binary", b"2.0\n"),
        ("control.tar", &control_tar),
        ("data.tar", &data_tar),
    ]);
    let mut pkg = DebPkg::parse(&archive).unwrap();
    assert!(pkg.data().is_ok());
    assert!(matches!(pkg.data().unwrap_err(), Error::DataAlreadyRead));
}

#[test]
fn missing_data_archive_is_reported() {
    let control_tar = build_tar(&[("control", CONTROL_TEXT)]);
    let archive = build_ar(&[("debian-binary", b"2.0\n"), ("control.tar", &control_tar)]);
    let mut pkg = DebPkg::parse(&archive).unwrap();
    assert!(pkg.control().is_ok());
    assert!(matches!(pkg.data().unwrap_err(), Error::MissingDataArchive));
}

#[test]
fn data_consumes_control_first() {
    let control_tar = build_tar(&[("control", CONTROL_TEXT)]);
    let data_tar = build_tar(&[("payload.bin", b"p")]);
    let archive = build_ar(&[
        ("debian-binary", b"2.0\n"),
        ("control.tar", &control_tar),
        ("data.tar", &data_tar),
    ]);
    let mut pkg = DebPkg::parse(&archive).unwrap();
    let data = pkg.data().unwrap();
    let paths = data.paths().unwrap();
    assert_eq!(paths, vec!["payload.bin"]);
    assert!(matches!(pkg.control().unwrap_err(), Error::ControlAlreadyRead));
}

#[test]
fn extra_members_after_data_are_ignored() {
    let control_tar = build_tar(&[("control", CONTROL_TEXT)]);
    let data_tar = build_tar(&[("a", b"a")]);
    let archive = build_ar(&[
        ("debian-binary", b"2.0\n"),
        ("control.tar", &control_tar),
        ("data.tar", &data_tar),
        ("trailing", b"junk"),
    ]);
    let mut pkg = DebPkg::parse(&archive).unwrap();
    assert!(pkg.control().is_ok());
    assert!(pkg.data().is_ok());
}

#[test]
fn gnu_name_reference_out_of_range_is_rejected() {
    // one member whose identifier "/9" points into an absent name table;
    // the container is rejected up front instead of crashing the reader
    let mut bytes = b"!<arch>\n".to_vec();
    bytes.extend_from_slice(b"/9              "); // identifier
    bytes.extend_from_slice(b"0           "); // mtime
    bytes.extend_from_slice(b"0     "); // uid
    bytes.extend_from_slice(b"0     "); // gid
    bytes.extend_from_slice(b"644     "); // mode
    bytes.extend_from_slice(b"4         "); // size
    bytes.extend_from_slice(b"`\n");
    bytes.extend_from_slice(b"2.0\n");
    let result = DebPkg::parse(&bytes);
    assert!(matches!(result.unwrap_err(), Error::Io(_)));
}

#[test]
fn gnu_name_table_reference_in_range_resolves() {
    // a name table holding "debian-binary/" and a member referencing it at
    // offset zero: the reader resolves the long name and the parse succeeds
    let mut bytes = b"!<arch>\n".to_vec();
    bytes.extend_from_slice(b"//              "); // the name table member
    bytes.extend_from_slice(b"            "); // mtime (unread for the table)
    bytes.extend_from_slice(b"      "); // uid
    bytes.extend_from_slice(b"      "); // gid
    bytes.extend_from_slice(b"        "); // mode
    bytes.extend_from_slice(b"15        "); // size
    bytes.extend_from_slice(b"`\n");
    bytes.extend_from_slice(b"debian-binary/\n"); // the table itself
    bytes.push(b'\n'); // padding: the table is odd-sized
    bytes.extend_from_slice(b"/0              "); // reference to offset 0
    bytes.extend_from_slice(b"0           "); // mtime
    bytes.extend_from_slice(b"      "); // uid (empty is allowed here)
    bytes.extend_from_slice(b"      "); // gid
    bytes.extend_from_slice(b"644     "); // mode
    bytes.extend_from_slice(b"4         "); // size
    bytes.extend_from_slice(b"`\n");
    bytes.extend_from_slice(b"2.0\n");
    let mut pkg = DebPkg::parse(&bytes).unwrap();
    assert_eq!(pkg.format_version(), (2, 0));
    assert!(matches!(pkg.control().unwrap_err(), Error::MissingControlArchive));
}

#[test]
fn truncated_tar_walk_surfaces_as_io() {
    // a control archive whose walk stops on a corrupt block before any
    // control entry: the read error is reported, not a missing file
    let full = build_tar(&[("other", b"xx")]);
    let mut corrupt = full[..1024].to_vec();
    corrupt.extend_from_slice(&[0xffu8; 512]);
    let archive = build_ar(&[("debian-binary", b"2.0\n"), ("control.tar", &corrupt)]);
    let mut pkg = DebPkg::parse(&archive).unwrap();
    let result = Control::extract(pkg.control().unwrap());
    assert!(matches!(result.unwrap_err(), Error::Io(_)));
}

#[test]
fn utf8_control_values_are_decoded() {
    let text = "Package: p\nVersion: 1\nMaintainer: Zo\u{eb}\n".as_bytes();
    let control_tar = build_tar(&[("control", text)]);
    let archive = build_ar(&[("debian-binary", b"2.0\n"), ("control.tar", &control_tar)]);
    let mut pkg = DebPkg::parse(&archive).unwrap();
    let control = Control::extract(pkg.control().unwrap()).unwrap();
    assert_eq!(control.get("maintainer").unwrap(), "Zo\u{eb}");
}

#[test]
fn invalid_utf8_control_file_fails_with_io_error() {
    let text: &[u8] = b"Package: p\nVersion: 1\nX: \xff\xfe\n";
    let control_tar = build_tar(&[("control", text)]);
    let archive = build_ar(&[("debian-binary", b"2.0\n"), ("control.tar", &control_tar)]);
    let mut pkg = DebPkg::parse(&archive).unwrap();
    let result = Control::extract(pkg.control().unwrap());
    assert!(matches!(result.unwrap_err(), Error::Io(_)));
}

#[test]
fn data_propagates_control_member_defects() {
    let data_tar = build_tar(&[("a", b"a")]);
    let archive = build_ar(&[
        ("debian-binary", b"2.0\n"),
        ("control.tar", b"not an archive at all"),
        ("data.tar", &data_tar),
    ]);
    let mut pkg = DebPkg::parse(&archive).unwrap();
    assert!(matches!(pkg.data().unwrap_err(), Error::UnknownEntryFormat));
}

#[test]
fn corrupt_gzip_control_fails_with_io_error() {
    // gzip magic with a truncated body: detection picks gzip, decoding fails
    let bogus: &[u8] = &[0x1f, 0x8b, 0x08, 0x00, 0x01];
    let archive = build_ar(&[("debian-binary", b"2.0\n"), ("control.tar.gz", bogus)]);
    let mut pkg = DebPkg::parse(&archive).unwrap();
    assert!(matches!(pkg.control().unwrap_err(), Error::Io(_)));
}
