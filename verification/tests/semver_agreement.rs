use std::cmp::Ordering;
use tagger::version::{PrereleaseTag, Version};

fn release(major: u64, minor: u64, patch: u64) -> Version {
    Version { major, minor, patch, prerelease: None }
}

fn pre(major: u64, minor: u64, patch: u64, counter: u32) -> Version {
    Version { major, minor, patch, prerelease: Some(PrereleaseTag { counter }) }
}

fn samples() -> Vec<Version> {
    vec![
        release(0, 0, 0),
        release(0, 1, 0),
        release(1, 4, 7),
        release(10, 20, 30),
        release(u64::MAX, u64::MAX, u64::MAX),
        pre(0, 0, 0, 0),
        pre(1, 2, 0, 1),
        pre(1, 2, 0, 9),
        pre(1, 2, 0, 10),
        pre(1, 2, 0, 102),
        pre(u64::MAX, 0, 1, u32::MAX),
    ]
}

#[test]
fn every_text_is_a_semantic_version_with_the_same_numbers() {
    for v in samples() {
        let read = semver::Version::parse(&v.format()).unwrap();
        assert_eq!((read.major, read.minor, read.patch), (v.major, v.minor, v.patch));
        match v.prerelease {
            Some(tag) => assert_eq!(read.pre.as_str(), tag.to_string()),
            None => assert!(read.pre.is_empty()),
        }
        assert!(read.build.is_empty());
    }
}

#[test]
fn every_text_is_what_semver_writes_for_the_same_numbers() {
    for v in samples() {
        let mut written = semver::Version::new(v.major, v.minor, v.patch);
        if let Some(tag) = v.prerelease {
            written.pre = semver::Prerelease::new(&tag.to_string()).unwrap();
        }
        assert_eq!(v.format(), written.to_string());
        assert_eq!(Version::parse(&written.to_string()), Ok(v));
    }
}

#[test]
fn what_semver_rejects_is_rejected() {
    for text in [
        "", "1", "1.0", "1.0.01", "01.0.0", "1.0.unknown", "1.0.0-", "1.0.0+", "1.0.0-alpha_123",
        "23456789999999999999.0.0", " 1.0.0", "1.0.0 ", "1.0.0.0", "1.0.0-pre1..2",
    ] {
        assert!(semver::Version::parse(text).is_err(), "{:?}", text);
        assert!(Version::parse(text).is_err(), "{:?}", text);
    }
}

#[test]
fn other_semantic_versions_are_no_versions_here() {
    for text in [
        "1.0.0-alpha", "1.0.0-alpha.1", "1.0.0-rc1", "1.0.0-pre", "1.0.0-pre007", "1.0.0-pre1.2",
        "1.0.0-pre-1", "1.0.0+build", "1.0.0-pre1+build", "1.0.0-0", "1.0.0-xpre1",
        "1.0.0-pre4294967296",
    ] {
        assert!(semver::Version::parse(text).is_ok(), "{:?}", text);
        assert!(Version::parse(text).is_err(), "{:?}", text);
    }
}

#[test]
fn a_release_stands_above_its_prereleases_as_in_semver() {
    for counter in [0, 1, 10, 4096] {
        let ours = release(1, 2, 3).compare(&pre(1, 2, 3, counter));
        let theirs = semver::Version::parse(&release(1, 2, 3).format())
            .unwrap()
            .cmp(&semver::Version::parse(&pre(1, 2, 3, counter).format()).unwrap());
        assert_eq!(ours, Ordering::Greater);
        assert_eq!(theirs, Ordering::Greater);
    }
}

#[test]
fn counters_are_ordered_as_numbers_not_as_text() {
    let nine = pre(1, 2, 3, 9);
    let ten = pre(1, 2, 3, 10);
    assert_eq!(nine.compare(&ten), Ordering::Less);
    // Precedence of semantic versions goes by the characters of the label.
    let theirs = semver::Version::parse(&nine.format())
        .unwrap()
        .cmp(&semver::Version::parse(&ten.format()).unwrap());
    assert_eq!(theirs, Ordering::Greater);
}
