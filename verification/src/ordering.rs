//! The order of versions: by the triple first; within one triple the release
//! stands above every pre-release, and pre-releases stand by their counters.

use crate::version::Version;
use std::cmp::Ordering;
use vstd::prelude::*;
use vstd::std_specs::cmp::PartialOrdSpecImpl;

verus! {

impl Version {
    /// Whether this version comes before `other`.
    pub open spec fn precedes(self, other: Version) -> bool {
        if self.major != other.major {
            self.major < other.major
        } else if self.minor != other.minor {
            self.minor < other.minor
        } else if self.patch != other.patch {
            self.patch < other.patch
        } else {
            match (self.prerelease, other.prerelease) {
                (Some(mine), Some(theirs)) => mine.counter < theirs.counter,
                (Some(_), None) => true,
                (None, _) => false,
            }
        }
    }

    /// Whether this version is `other` or comes before it.
    pub open spec fn at_most(self, other: Version) -> bool {
        self == other || self.precedes(other)
    }

    /// Compares this version with `other`.
    pub fn compare(&self, other: &Version) -> (r: Ordering)
        ensures
            r == Ordering::Less <==> self.precedes(*other),
            r == Ordering::Equal <==> *self == *other,
            r == Ordering::Greater <==> other.precedes(*self),
    {
        if self.major != other.major {
            if self.major < other.major {
                Ordering::Less
            } else {
                Ordering::Greater
            }
        } else if self.minor != other.minor {
            if self.minor < other.minor {
                Ordering::Less
            } else {
                Ordering::Greater
            }
        } else if self.patch != other.patch {
            if self.patch < other.patch {
                Ordering::Less
            } else {
                Ordering::Greater
            }
        } else {
            match (self.prerelease, other.prerelease) {
                (Some(mine), Some(theirs)) => {
                    if mine.counter < theirs.counter {
                        Ordering::Less
                    } else if mine.counter == theirs.counter {
                        Ordering::Equal
                    } else {
                        Ordering::Greater
                    }
                },
                (Some(_), None) => Ordering::Less,
                (None, Some(_)) => Ordering::Greater,
                (None, None) => Ordering::Equal,
            }
        }
    }
}

impl PartialOrd for Version {
    fn partial_cmp(&self, other: &Version) -> (r: Option<Ordering>) {
        Some(self.compare(other))
    }
}

impl PartialOrdSpecImpl for Version {
    open spec fn obeys_partial_cmp_spec() -> bool {
        true
    }

    open spec fn partial_cmp_spec(&self, other: &Version) -> Option<Ordering> {
        if self.precedes(*other) {
            Some(Ordering::Less)
        } else if *self == *other {
            Some(Ordering::Equal)
        } else {
            Some(Ordering::Greater)
        }
    }
}

/// Of two versions exactly one holds: the first comes before the second, they
/// are the same, or the second comes before the first.
pub proof fn law_order_is_total(a: Version, b: Version)
    ensures
        a.precedes(b) || a == b || b.precedes(a),
        !(a.precedes(b) && a == b),
        !(a.precedes(b) && b.precedes(a)),
        !(a == b && b.precedes(a)),
{
}

/// If `a` comes before `b` and `b` before `c`, `a` comes before `c`.
pub proof fn law_order_is_transitive(a: Version, b: Version, c: Version)
    requires
        a.precedes(b),
        b.precedes(c),
    ensures
        a.precedes(c),
{
}

/// The release of a triple stands above each of its pre-releases.
pub proof fn law_release_above_prereleases(release: Version, counter: u32)
    requires
        release.is_release(),
    ensures
        release.with_counter(counter).precedes(release),
        !release.precedes(release.with_counter(counter)),
{
}

/// Among the pre-releases of one triple the higher counter stands above.
pub proof fn law_prereleases_by_counter(version: Version, lower: u32, higher: u32)
    ensures
        lower < higher <==> version.with_counter(lower).precedes(version.with_counter(higher)),
{
}

} // verus!
