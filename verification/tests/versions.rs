use std::cmp::Ordering;
use tagger::error::ProposalError;
use tagger::version::{PrereleaseTag, SubVersion, Version};

fn release(major: u64, minor: u64, patch: u64) -> Version {
    Version { major, minor, patch, prerelease: None }
}

fn pre(major: u64, minor: u64, patch: u64, counter: u32) -> Version {
    Version { major, minor, patch, prerelease: Some(PrereleaseTag { counter }) }
}

#[test]
fn bump_major_resets_minor_and_patch() {
    assert_eq!(release(1, 4, 7).increment_version(SubVersion::Major), release(2, 0, 0));
}

#[test]
fn bump_minor_resets_patch() {
    assert_eq!(release(1, 4, 7).increment_version(SubVersion::Minor), release(1, 5, 0));
}

#[test]
fn bump_patch_raises_patch_only() {
    assert_eq!(release(1, 4, 7).increment_version(SubVersion::Patch), release(1, 4, 8));
}

#[test]
fn bump_clears_the_prerelease_mark() {
    assert_eq!(pre(1, 4, 7, 3).increment_version(SubVersion::Major), release(2, 0, 0));
    assert_eq!(pre(1, 4, 7, 3).increment_version(SubVersion::Minor), release(1, 5, 0));
    assert_eq!(pre(1, 4, 7, 3).increment_version(SubVersion::Patch), release(1, 4, 8));
}

#[test]
fn bump_of_the_floor_gives_the_first_versions() {
    let floor = Version::default();
    assert_eq!(floor, release(0, 0, 0));
    assert_eq!(floor.increment_version(SubVersion::Major), release(1, 0, 0));
    assert_eq!(floor.increment_version(SubVersion::Minor), release(0, 1, 0));
    assert_eq!(floor.increment_version(SubVersion::Patch), release(0, 0, 1));
}

#[test]
fn can_increment_stops_at_the_last_number() {
    let last = release(u64::MAX, 3, u64::MAX);
    assert!(!last.can_increment(SubVersion::Major));
    assert!(last.can_increment(SubVersion::Minor));
    assert!(!last.can_increment(SubVersion::Patch));
    assert_eq!(last.increment_version(SubVersion::Minor), release(u64::MAX, 4, 0));
}

#[test]
fn set_prerelease_keeps_the_triple() {
    assert_eq!(release(1, 2, 3).set_prerelease(0), pre(1, 2, 3, 0));
    assert_eq!(pre(1, 2, 3, 9).set_prerelease(4), pre(1, 2, 3, 4));
    assert_eq!(release(1, 2, 3).set_prerelease(u32::MAX), pre(1, 2, 3, u32::MAX));
}

#[test]
fn increment_prerelease_of_a_release_starts_at_zero() {
    assert_eq!(release(1, 2, 3).increment_prerelease(1), Ok(pre(1, 2, 3, 0)));
    assert_eq!(release(1, 2, 3).increment_prerelease(100), Ok(pre(1, 2, 3, 0)));
}

#[test]
fn increment_prerelease_adds_to_the_counter() {
    assert_eq!(pre(1, 2, 3, 0).increment_prerelease(1), Ok(pre(1, 2, 3, 1)));
    assert_eq!(pre(1, 2, 3, 7).increment_prerelease(100), Ok(pre(1, 2, 3, 107)));
    assert_eq!(pre(1, 2, 3, 7).increment_prerelease(0), Ok(pre(1, 2, 3, 7)));
    assert_eq!(pre(1, 2, 3, u32::MAX - 1).increment_prerelease(1), Ok(pre(1, 2, 3, u32::MAX)));
}

#[test]
fn increment_prerelease_fails_past_the_last_counter() {
    assert_eq!(
        pre(1, 2, 3, u32::MAX).increment_prerelease(1),
        Err(ProposalError::ResolutionExhausted)
    );
    assert_eq!(
        pre(1, 2, 3, u32::MAX - 99).increment_prerelease(100),
        Err(ProposalError::ResolutionExhausted)
    );
}

#[test]
fn encode_holds_the_counter() {
    assert_eq!(PrereleaseTag::encode(12), PrereleaseTag { counter: 12 });
    assert_eq!(PrereleaseTag::encode(12).counter, 12);
}

#[test]
fn is_prerelease_tells_releases_from_prereleases() {
    assert!(!release(1, 0, 0).is_prerelease());
    assert!(pre(1, 0, 0, 0).is_prerelease());
}

#[test]
fn release_stands_above_its_prereleases() {
    for counter in [0, 1, 99, u32::MAX] {
        assert_eq!(release(1, 2, 3).compare(&pre(1, 2, 3, counter)), Ordering::Greater);
        assert_eq!(pre(1, 2, 3, counter).compare(&release(1, 2, 3)), Ordering::Less);
        assert!(pre(1, 2, 3, counter) < release(1, 2, 3));
        assert!(release(1, 2, 3) > pre(1, 2, 3, counter));
    }
}

#[test]
fn prereleases_stand_by_their_counters() {
    assert_eq!(pre(1, 2, 3, 9).compare(&pre(1, 2, 3, 10)), Ordering::Less);
    assert_eq!(pre(1, 2, 3, 10).compare(&pre(1, 2, 3, 9)), Ordering::Greater);
    assert_eq!(pre(1, 2, 3, 10).compare(&pre(1, 2, 3, 10)), Ordering::Equal);
    assert!(pre(1, 2, 3, 9) < pre(1, 2, 3, 10));
    assert!(pre(1, 2, 3, 100) > pre(1, 2, 3, 20));
}

#[test]
fn the_triple_decides_first() {
    assert_eq!(release(1, 2, 3).compare(&release(1, 2, 3)), Ordering::Equal);
    assert_eq!(release(1, 2, 3).compare(&release(2, 0, 0)), Ordering::Less);
    assert_eq!(release(1, 2, 3).compare(&release(1, 3, 0)), Ordering::Less);
    assert_eq!(release(1, 2, 3).compare(&release(1, 2, 4)), Ordering::Less);
    assert_eq!(release(2, 0, 0).compare(&release(1, 9, 9)), Ordering::Greater);
    assert_eq!(pre(1, 2, 0, 0).compare(&release(1, 1, 0)), Ordering::Greater);
    assert_eq!(release(1, 1, 0).compare(&pre(1, 2, 0, 5)), Ordering::Less);
    assert_eq!(pre(1, 1, 0, 50).compare(&pre(1, 2, 0, 0)), Ordering::Less);
    assert!(release(1, 1, 0) < pre(1, 2, 0, 0));
    assert!(release(1, 1, 0) <= release(1, 1, 0));
    assert!(release(1, 1, 0) >= release(1, 1, 0));
    assert_eq!(release(1, 1, 0).partial_cmp(&pre(1, 1, 0, 0)), Some(Ordering::Greater));
}
