use tagger::error::ParseError;
use tagger::text::read_tags;
use tagger::version::{PrereleaseTag, Version};

fn release(major: u64, minor: u64, patch: u64) -> Version {
    Version { major, minor, patch, prerelease: None }
}

fn pre(major: u64, minor: u64, patch: u64, counter: u32) -> Version {
    Version { major, minor, patch, prerelease: Some(PrereleaseTag { counter }) }
}

#[test]
fn format_writes_the_numbers_and_the_mark() {
    assert_eq!(release(1, 2, 3).format(), "1.2.3");
    assert_eq!(release(0, 0, 0).format(), "0.0.0");
    assert_eq!(release(10, 200, 3000).format(), "10.200.3000");
    assert_eq!(pre(1, 2, 0, 0).format(), "1.2.0-pre0");
    assert_eq!(pre(1, 2, 0, 12).format(), "1.2.0-pre12");
    assert_eq!(
        pre(u64::MAX, 0, u64::MAX, u32::MAX).format(),
        "18446744073709551615.0.18446744073709551615-pre4294967295"
    );
}

#[test]
fn to_string_writes_the_tag_name() {
    assert_eq!(release(1, 2, 3).to_string(), "v1.2.3");
    assert_eq!(pre(1, 2, 0, 102).to_string(), "v1.2.0-pre102");
}

#[test]
fn git_ref_writes_the_reference_of_the_tag() {
    assert_eq!(release(1, 2, 3).git_ref(), "refs/tags/v1.2.3");
    assert_eq!(pre(0, 1, 0, 7).git_ref(), "refs/tags/v0.1.0-pre7");
}

#[test]
fn label_is_pre_and_the_counter() {
    assert_eq!(PrereleaseTag::encode(0).to_string(), "pre0");
    assert_eq!(PrereleaseTag::encode(12).to_string(), "pre12");
    assert_eq!(PrereleaseTag::encode(u32::MAX).to_string(), "pre4294967295");
}

#[test]
fn decode_reads_a_label() {
    assert_eq!(PrereleaseTag::decode("pre0"), Ok(0));
    assert_eq!(PrereleaseTag::decode("pre12"), Ok(12));
    assert_eq!(PrereleaseTag::decode("pre4294967295"), Ok(u32::MAX));
}

#[test]
fn decode_rejects_other_labels() {
    for label in [
        "", "pre", "pr", "pre-1", "pre+1", "pre 1", " pre1", "pre1 ", "Pre1", "PRE1", "alpha",
        "rc1", "beta.2", "pre1.2", "xpre12", "pre12y", "pre01", "pre007", "pre00", "pre4294967296",
        "pre99999999999999999999999", "1", "pre١",
    ] {
        assert_eq!(PrereleaseTag::decode(label), Err(ParseError::Malformed), "{}", label);
    }
}

#[test]
fn decode_reads_back_what_encode_writes() {
    for counter in [0, 1, 9, 10, 99, 100, 101, 4096, u32::MAX - 1, u32::MAX] {
        let label = PrereleaseTag::encode(counter).to_string();
        assert_eq!(PrereleaseTag::decode(&label), Ok(counter));
    }
}

#[test]
fn parse_reads_a_tag_name() {
    assert_eq!(Version::parse("v1.2.3"), Ok(release(1, 2, 3)));
    assert_eq!(Version::parse("v0.0.0"), Ok(release(0, 0, 0)));
    assert_eq!(Version::parse("v1.2.0-pre0"), Ok(pre(1, 2, 0, 0)));
    assert_eq!(Version::parse("v10.20.30-pre405"), Ok(pre(10, 20, 30, 405)));
}

#[test]
fn parse_reads_the_text_without_the_prefix() {
    assert_eq!(Version::parse("1.2.3"), Ok(release(1, 2, 3)));
    assert_eq!(Version::parse("1.2.0-pre1"), Ok(pre(1, 2, 0, 1)));
}

#[test]
fn parse_reads_the_largest_numbers() {
    assert_eq!(
        Version::parse("v18446744073709551615.18446744073709551615.18446744073709551615-pre4294967295"),
        Ok(pre(u64::MAX, u64::MAX, u64::MAX, u32::MAX))
    );
}

#[test]
fn parse_rejects_what_is_no_version() {
    for name in [
        "", "v", "vv1.2.3", "V1.2.3", "x1.2.3", "1", "1.2", "v1.2", "1.2.", "1..3", ".2.3",
        "1.2.3.4", "v1.2.3.", "1.2.3 ", " 1.2.3", "v 1.2.3", "1,2,3", "a.b.c", "1.q.r", "-1.2.3",
        "+1.2.3", "1.2.3-", "1.2.3-pre", "1.2.3-pre-1", "1.2.3-alpha", "1.2.3-rc1", "1.2.3-pre1.2",
        "1.2.3-pre1+build", "1.2.3+build", "1.2.3-Pre1", "1.2.3_pre1", "1.2.3pre1", "1.2.3--pre1",
        "01.2.3", "1.02.3", "1.2.03", "00.0.0", "1.2.3-pre01", "1.2.3-pre007",
        "18446744073709551616.0.0", "0.18446744073709551616.0", "0.0.18446744073709551616",
        "99999999999999999999999999.0.0", "1.2.3-pre4294967296", "1.2.3-xpre1", "1.2.3-pre1y",
        "v1.2.3\n", "１.2.3", "1.2.3-pré1", "release-1.2.3", "latest",
    ] {
        assert_eq!(Version::parse(name), Err(ParseError::Malformed), "{:?}", name);
    }
}

#[test]
fn parse_reads_back_what_format_writes() {
    let versions = [
        release(0, 0, 0),
        release(0, 1, 0),
        release(1, 4, 7),
        release(10, 0, 100),
        release(u64::MAX, u64::MAX, u64::MAX),
        pre(0, 0, 0, 0),
        pre(1, 2, 0, 1),
        pre(1, 2, 0, 102),
        pre(9, 99, 999, 1_000_000),
        pre(u64::MAX, 0, 1, u32::MAX),
    ];
    for v in versions {
        assert_eq!(Version::parse(&v.format()), Ok(v));
        assert_eq!(Version::parse(&v.to_string()), Ok(v));
    }
}

#[test]
fn format_writes_back_what_parse_reads() {
    for text in ["0.0.0", "1.2.3", "1.2.3-pre0", "12.0.7-pre100", "3.14.159-pre2653"] {
        let v = Version::parse(text).unwrap();
        assert_eq!(v.format(), text);
        let name = format!("v{}", text);
        let v = Version::parse(&name).unwrap();
        assert_eq!(v.to_string(), name);
    }
}

#[test]
fn read_tags_passes_over_what_is_no_version() {
    let names: Vec<String> = [
        "v1.0.0", "nightly", "v1.1.0-pre0", "v1.1", "1.2.0", "v1.1.0-rc1", "", "v1.1.0", "v01.0.0",
    ]
    .iter()
    .map(|name| name.to_string())
    .collect();
    assert_eq!(
        read_tags(&names),
        vec![release(1, 0, 0), pre(1, 1, 0, 0), release(1, 2, 0), release(1, 1, 0)]
    );
}

#[test]
fn read_tags_of_nothing_is_nothing() {
    assert_eq!(read_tags(&[]), vec![]);
    assert_eq!(read_tags(&["main".to_string()]), vec![]);
}
