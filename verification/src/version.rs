//! The version model: three numbers and, for a pre-release, a counter.

use crate::error::ProposalError;
use vstd::prelude::*;

verus! {

/// The number of a version that a release raises.
#[derive(Clone, Copy, Debug, PartialEq, Eq, Hash, Structural)]
pub enum SubVersion {
    Major,
    Minor,
    Patch,
}

/// The mark of a pre-release: its counter, written `pre<counter>`.
#[derive(Clone, Copy, Debug, PartialEq, Eq, Hash, Structural)]
pub struct PrereleaseTag {
    pub counter: u32,
}

/// A version `major.minor.patch`, a release where `prerelease` is `None` and
/// otherwise a pre-release of that triple.
#[derive(Clone, Copy, Debug, PartialEq, Eq, Hash, Structural)]
pub struct Version {
    pub major: u64,
    pub minor: u64,
    pub patch: u64,
    pub prerelease: Option<PrereleaseTag>,
}

impl Version {
    /// Whether this is a release: a version without a pre-release mark.
    pub open spec fn is_release(self) -> bool {
        self.prerelease is None
    }

    /// This version's triple as a pre-release with the given counter.
    pub open spec fn with_counter(self, counter: u32) -> Version {
        Version { prerelease: Some(PrereleaseTag { counter }), ..self }
    }

    /// Whether `part` of this version can be raised by one.
    pub open spec fn can_bump(self, part: SubVersion) -> bool {
        match part {
            SubVersion::Major => self.major < u64::MAX,
            SubVersion::Minor => self.minor < u64::MAX,
            SubVersion::Patch => self.patch < u64::MAX,
        }
    }

    /// The release that follows this version in `part`: that number raised by
    /// one, the numbers behind it zero, no pre-release mark.
    pub open spec fn bumped(self, part: SubVersion) -> Version
        recommends
            self.can_bump(part),
    {
        match part {
            SubVersion::Major => Version {
                major: (self.major + 1) as u64,
                minor: 0,
                patch: 0,
                prerelease: None,
            },
            SubVersion::Minor => Version {
                major: self.major,
                minor: (self.minor + 1) as u64,
                patch: 0,
                prerelease: None,
            },
            SubVersion::Patch => Version {
                major: self.major,
                minor: self.minor,
                patch: (self.patch + 1) as u64,
                prerelease: None,
            },
        }
    }

    /// The pre-release that follows this version `by` counters on: counter 0
    /// after a release, whatever `by` is; `None` where the counter does not
    /// reach that far.
    pub open spec fn advanced(self, by: u32) -> Option<Version> {
        match self.prerelease {
            None => Some(self.with_counter(0)),
            Some(tag) => if tag.counter + by <= u32::MAX {
                Some(self.with_counter((tag.counter + by) as u32))
            } else {
                None
            },
        }
    }

    /// Whether this version is a pre-release.
    pub fn is_prerelease(&self) -> (r: bool)
        ensures
            r == !self.is_release(),
    {
        self.prerelease.is_some()
    }

    /// Whether `part` of this version can be raised by one.
    pub fn can_increment(&self, part: SubVersion) -> (r: bool)
        ensures
            r == self.can_bump(part),
    {
        match part {
            SubVersion::Major => self.major < u64::MAX,
            SubVersion::Minor => self.minor < u64::MAX,
            SubVersion::Patch => self.patch < u64::MAX,
        }
    }

    /// Raises `part` by one, sets the numbers behind it to zero and clears the
    /// pre-release mark.
    pub fn increment_version(self, part: SubVersion) -> (r: Version)
        requires
            self.can_bump(part),
        ensures
            r == self.bumped(part),
    {
        match part {
            SubVersion::Major => Version {
                major: self.major + 1,
                minor: 0,
                patch: 0,
                prerelease: None,
            },
            SubVersion::Minor => Version {
                major: self.major,
                minor: self.minor + 1,
                patch: 0,
                prerelease: None,
            },
            SubVersion::Patch => Version {
                major: self.major,
                minor: self.minor,
                patch: self.patch + 1,
                prerelease: None,
            },
        }
    }

    /// Makes this version the pre-release with counter `i` of its triple.
    pub fn set_prerelease(self, i: u32) -> (r: Version)
        ensures
            r == self.with_counter(i),
    {
        Version {
            major: self.major,
            minor: self.minor,
            patch: self.patch,
            prerelease: Some(PrereleaseTag::encode(i)),
        }
    }

    /// Moves on to the pre-release `i` counters further; a release becomes
    /// the first pre-release of its triple, with counter 0.
    ///
    /// Fails with `ResolutionExhausted` where the counter cannot be raised by
    /// `i`.
    pub fn increment_prerelease(self, i: u32) -> (r: Result<Version, ProposalError>)
        ensures
            r == match self.advanced(i) {
                Some(next) => Ok::<Version, ProposalError>(next),
                None => Err(ProposalError::ResolutionExhausted),
            },
    {
        match self.prerelease {
            None => Ok(self.set_prerelease(0)),
            Some(tag) => match tag.counter.checked_add(i) {
                Some(counter) => Ok(self.set_prerelease(counter)),
                None => Err(ProposalError::ResolutionExhausted),
            },
        }
    }
}

impl PrereleaseTag {
    /// The mark with the given counter.
    pub fn encode(counter: u32) -> (tag: PrereleaseTag)
        ensures
            tag.counter == counter,
    {
        PrereleaseTag { counter }
    }
}

impl Default for Version {
    /// The floor `0.0.0`: the release that stands in where no release exists
    /// yet.
    fn default() -> (floor: Version)
        ensures
            floor == (Version { major: 0, minor: 0, patch: 0, prerelease: None }),
    {
        Version { major: 0, minor: 0, patch: 0, prerelease: None }
    }
}

} // verus!
