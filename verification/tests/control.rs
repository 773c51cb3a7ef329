use debpkg::{Control, Error};

#[test]
fn empty_control_file_fails() {
    assert!(Control::parse("").is_err());
}

#[test]
fn only_name_fails_parse() {
    let err = Control::parse("package: name_only").unwrap_err();
    assert!(matches!(err, Error::MissingPackageVersion));
}

#[test]
fn only_version_fails_parse() {
    let err = Control::parse("version: 1.8.2").unwrap_err();
    assert!(matches!(err, Error::MissingPackageName));
}

#[test]
fn name_and_version_parse() {
    let ctrl = Control::parse("package: name\nversion: 1.8.2").unwrap();
    assert!(ctrl.name() == "name");
    assert!(ctrl.version() == "1.8.2");
}

#[test]
fn proper_description_parse() {
    let ctrl =
        Control::parse("package: name\nversion: 1.8.2\nDescription: short\n very\n long").unwrap();
    assert!(ctrl.name() == "name");
    assert!(ctrl.version() == "1.8.2");
    let desc = ctrl.short_description().unwrap();
    assert!(desc == "short");
    let desc = ctrl.long_description().unwrap();
    assert!(desc == "very\nlong");
}

#[test]
fn control_starting_with_continuation_fails() {
    let err = Control::parse(" continue\npackage: name\nversion: 1.8.2").unwrap_err();
    assert!(matches!(err, Error::InvalidControlFile));
}

#[test]
fn control_keys_list_everything() {
    let ctrl = Control::parse("package: name\nversion: 1.8.2\nTest: a").unwrap();
    assert!(ctrl.tags().len() == 3);
}

#[test]
fn control_keys_captures_dash() {
    let ctrl = Control::parse("package: name\nversion: 1.8.2\nInstalled-Size: a").unwrap();
    assert!(ctrl.tags().len() == 3);
}

#[test]
fn control_non_continuation_line_fails() {
    let err = Control::parse("package: name\nthis is wrong").unwrap_err();
    assert!(matches!(err, Error::InvalidControlFile));
}

#[test]
fn duplicate_fields_fails_parsing() {
    let err = Control::parse("package: name\nversion: 1.8.2\npackage: name2").unwrap_err();
    assert!(matches!(err, Error::InvalidControlFile));
}

#[test]
fn continuation_in_package_is_appended() {
    // a continuation extends whichever field is current, so the package
    // field gains a continuation line and the parse succeeds
    let ctrl = Control::parse("package: name\n more\nversion: 1.8.2").unwrap();
    assert!(ctrl.name() == "name");
    assert!(ctrl.version() == "1.8.2");
}

#[test]
fn continuation_after_any_field_folds() {
    let ctrl = Control::parse("Package: p\nVersion: 1\nConffiles:\n /etc/a\n /etc/b").unwrap();
    assert_eq!(ctrl.get("Conffiles").unwrap(), "");
    assert_eq!(ctrl.tags().len(), 3);
}

#[test]
fn lookup_is_case_insensitive() {
    let ctrl =
        Control::parse("Package: p\nVersion: 1\nArchitecture: amd64").unwrap();
    assert_eq!(ctrl.get("Architecture").unwrap(), "amd64");
    assert_eq!(ctrl.get("architecture").unwrap(), "amd64");
    assert_eq!(ctrl.get("ARCHITECTURE").unwrap(), "amd64");
    assert!(ctrl.get("BLAH").is_none());
}

#[test]
fn duplicate_tag_across_cases_fails() {
    let err = Control::parse("Package: a\nVersion: 1\nPackage: b\n").unwrap_err();
    assert!(matches!(err, Error::InvalidControlFile));
}

#[test]
fn description_folds_continuation_lines() {
    let ctrl = Control::parse("Package: p\nVersion: 1\nDescription: short\n long\n text\n").unwrap();
    assert_eq!(ctrl.short_description().unwrap(), "short");
    assert_eq!(ctrl.long_description().unwrap(), "long\ntext");
}

#[test]
fn description_without_continuation_has_no_long_value() {
    let ctrl = Control::parse("Package: p\nVersion: 1\nDescription: only short").unwrap();
    assert_eq!(ctrl.short_description().unwrap(), "only short");
    assert!(ctrl.long_description().is_none());
}

#[test]
fn missing_description_has_no_values() {
    let ctrl = Control::parse("Package: p\nVersion: 1").unwrap();
    assert!(ctrl.short_description().is_none());
    assert!(ctrl.long_description().is_none());
}

#[test]
fn comments_and_separators_are_tolerated() {
    let ctrl = Control::parse("#comment\nPackage: p\n\nVersion: 1\n# another\n").unwrap();
    assert_eq!(ctrl.name(), "p");
    assert_eq!(ctrl.version(), "1");
    assert_eq!(ctrl.tags().len(), 2);
}

#[test]
fn tags_keep_insertion_order_and_case() {
    let ctrl = Control::parse("Package: p\nVERSION: 1\nZeta: z\nAlpha: a").unwrap();
    let tags = ctrl.tags();
    assert_eq!(tags, vec!["Package", "VERSION", "Zeta", "Alpha"]);
}

#[test]
fn field_values_are_trimmed() {
    let ctrl = Control::parse("Package:   p  \nVersion:\t1\t").unwrap();
    assert_eq!(ctrl.name(), "p");
    assert_eq!(ctrl.version(), "1");
}

#[test]
fn carriage_returns_before_newlines_are_stripped() {
    let ctrl = Control::parse("Package: p\r\nVersion: 1\r\n").unwrap();
    assert_eq!(ctrl.name(), "p");
    assert_eq!(ctrl.version(), "1");
}
