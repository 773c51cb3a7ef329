use debpkg::{parse_debian_binary_contents, Error};

#[test]
fn proper_debian_binary_contents_succeeds() {
    let contents = b"2.0\n";
    assert!(parse_debian_binary_contents(contents).is_ok());
    let version = parse_debian_binary_contents(contents).unwrap();
    assert!(version.major == 2);
    assert!(version.minor == 0);
}

#[test]
fn old_version_debian_binary_contents_fails() {
    let contents = b"1.0\n";
    let result = parse_debian_binary_contents(contents);
    assert!(result.is_err());
    assert!(matches!(result.unwrap_err(), Error::InvalidVersion));
}

#[test]
fn new_version_debian_binary_contents_fails() {
    let contents = b"3.0\n";
    let result = parse_debian_binary_contents(contents);
    assert!(result.is_err());
    assert!(matches!(result.unwrap_err(), Error::InvalidVersion));
}

#[test]
fn empty_debian_binary_contents_fails() {
    let contents = b"";
    let result = parse_debian_binary_contents(contents);
    assert!(result.is_err());
    assert!(matches!(result.unwrap_err(), Error::Io(_)));
}

#[test]
fn windows_line_ending_debian_binary_contents_fails() {
    let contents = b"2.0\r\n";
    let result = parse_debian_binary_contents(contents);
    assert!(result.is_err());
    assert!(matches!(result.unwrap_err(), Error::InvalidVersion));
}

#[test]
fn extra_characters_after_newline_debian_binary_contents_succeeds() {
    let contents = b"2.0\n\r";
    assert!(parse_debian_binary_contents(contents).is_ok());
    let version = parse_debian_binary_contents(contents).unwrap();
    assert!(version.major == 2);
    assert!(version.minor == 0);
}

#[test]
fn extra_newlines_debian_binary_contents_succeeds() {
    let contents = b"2.0\n\n";
    assert!(parse_debian_binary_contents(contents).is_ok());
    let version = parse_debian_binary_contents(contents).unwrap();
    assert!(version.major == 2);
    assert!(version.minor == 0);
}

#[test]
fn bump_minor_version_debian_binary_contents_succeeds() {
    let contents = b"2.1\n";
    assert!(parse_debian_binary_contents(contents).is_ok());
    let version = parse_debian_binary_contents(contents).unwrap();
    assert!(version.major == 2);
    assert!(version.minor == 1);
}

#[test]
fn large_minor_version_debian_binary_contents_succeeds() {
    let contents = b"2.100\n";
    assert!(parse_debian_binary_contents(contents).is_ok());
    let version = parse_debian_binary_contents(contents).unwrap();
    assert!(version.major == 2);
    assert!(version.minor == 100);
}

#[test]
fn new_version_new_line_debian_binary_contents_succeeds() {
    let contents = b"2.100\nTest\n";
    assert!(parse_debian_binary_contents(contents).is_ok());
    let version = parse_debian_binary_contents(contents).unwrap();
    assert!(version.major == 2);
    assert!(version.minor == 100);
}

#[test]
fn largest_minor_version_succeeds() {
    let version = parse_debian_binary_contents(b"2.4294967295\n").unwrap();
    assert!(version.major == 2);
    assert!(version.minor == u32::MAX);
}

#[test]
fn overflowing_minor_version_fails() {
    let result = parse_debian_binary_contents(b"2.4294967296\n");
    assert!(matches!(result.unwrap_err(), Error::InvalidVersion));
}

#[test]
fn missing_newline_fails() {
    // the input ends before any newline: the version line is incomplete
    let result = parse_debian_binary_contents(b"2.7");
    assert!(matches!(result.unwrap_err(), Error::InvalidVersion));
}

#[test]
fn no_digits_before_newline_fails() {
    let result = parse_debian_binary_contents(b"2.\n");
    assert!(matches!(result.unwrap_err(), Error::InvalidVersion));
}

#[test]
fn non_digit_before_newline_fails() {
    let result = parse_debian_binary_contents(b"2.1a\n");
    assert!(matches!(result.unwrap_err(), Error::InvalidVersion));
}
