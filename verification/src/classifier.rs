//! Sorting the known tags: which release is the latest, and which
//! pre-releases are still ahead of it.
//!
//! Both are said of the tags as a collection; the order in which they are
//! handed over does not enter.

use crate::ordering::law_order_is_total;
use crate::version::Version;
use vstd::prelude::*;

verus! {

/// Whether `v` is in `versions` and none of them stands above it.
pub open spec fn is_greatest(versions: Set<Version>, v: Version) -> bool {
    &&& versions.contains(v)
    &&& forall|w: Version| versions.contains(w) ==> w.at_most(v)
}

/// The greatest of `versions`, where they have one.
pub open spec fn greatest_of(versions: Set<Version>) -> Option<Version> {
    if exists|v: Version| is_greatest(versions, v) {
        Some(choose|v: Version| is_greatest(versions, v))
    } else {
        None
    }
}

/// The releases among `known`.
pub open spec fn releases_of(known: Set<Version>) -> Set<Version> {
    known.filter(|v: Version| v.is_release())
}

/// The latest release among `known`: the greatest of the releases.
pub open spec fn latest_release_of(known: Set<Version>) -> Option<Version> {
    greatest_of(releases_of(known))
}

/// The release that a proposal starts from: the latest release, or `0.0.0`
/// where no release exists.
pub open spec fn floor_of(latest_release: Option<Version>) -> Version {
    match latest_release {
        Some(release) => release,
        None => Version { major: 0, minor: 0, patch: 0, prerelease: None },
    }
}

/// Whether `v` is a pre-release ahead of `floor`.
pub open spec fn is_active(v: Version, floor: Version) -> bool {
    !v.is_release() && floor.precedes(v)
}

/// The pre-releases among `known` that are ahead of the latest release, in
/// the order in which `known` holds them.
pub open spec fn active_prereleases_of(known: Seq<Version>) -> Seq<Version> {
    let floor = floor_of(latest_release_of(known.to_set()));
    known.filter(|v: Version| is_active(v, floor))
}

/// A set of versions has at most one greatest.
pub proof fn lemma_greatest_is_unique(versions: Set<Version>, a: Version, b: Version)
    requires
        is_greatest(versions, a),
        is_greatest(versions, b),
    ensures
        a == b,
{
    law_order_is_total(a, b);
}

/// A version that is greatest of a set is what `greatest_of` gives.
pub proof fn lemma_greatest_of(versions: Set<Version>, v: Version)
    requires
        is_greatest(versions, v),
    ensures
        greatest_of(versions) == Some(v),
{
    lemma_greatest_is_unique(versions, v, choose|w: Version| is_greatest(versions, w));
}

/// The latest release among `known`, or `None` where it holds no release.
pub fn latest_release(known: &[Version]) -> (latest: Option<Version>)
    ensures
        latest == latest_release_of(known@.to_set()),
        match latest {
            Some(release) => {
                &&& known@.contains(release)
                &&& release.is_release()
                &&& forall|i: int|
                    0 <= i < known@.len() && known@[i].is_release() ==> (#[trigger] known@[i]).at_most(
                        release,
                    )
            },
            None => forall|i: int| 0 <= i < known@.len() ==> !(#[trigger] known@[i]).is_release(),
        },
{
    let mut latest: Option<Version> = None;
    let mut i: usize = 0;
    while i < known.len()
        invariant
            i <= known@.len(),
            match latest {
                Some(release) => {
                    &&& known@.contains(release)
                    &&& release.is_release()
                    &&& forall|j: int|
                        0 <= j < i && known@[j].is_release() ==> (#[trigger] known@[j]).at_most(
                            release,
                        )
                },
                None => forall|j: int| 0 <= j < i ==> !(#[trigger] known@[j]).is_release(),
            },
        decreases known@.len() - i,
    {
        let v = known[i];
        if !v.is_prerelease() {
            let better = match latest {
                Some(release) => release < v,
                None => true,
            };
            if better {
                latest = Some(v);
            }
        }
        i = i + 1;
    }
    proof {
        let releases = releases_of(known@.to_set());
        match latest {
            Some(release) => {
                assert forall|w: Version| releases.contains(w) implies w.at_most(release) by {
                    let j = choose|j: int| 0 <= j < known@.len() && known@[j] == w;
                    assert(known@[j].at_most(release));
                }
                lemma_greatest_of(releases, release);
            },
            None => {
                assert forall|w: Version| !is_greatest(releases, w) by {
                    if releases.contains(w) {
                        let j = choose|j: int| 0 <= j < known@.len() && known@[j] == w;
                        assert(!known@[j].is_release());
                    }
                }
            },
        }
    }
    latest
}

/// The release that a proposal starts from: `latest_release`, or `0.0.0`
/// where there is none.
pub fn release_floor(latest_release: Option<Version>) -> (floor: Version)
    ensures
        floor == floor_of(latest_release),
{
    match latest_release {
        Some(release) => release,
        None => Version::default(),
    }
}

/// The pre-releases among `known` that are ahead of `floor`, in the order in
/// which `known` holds them.
pub fn active_prereleases(known: &[Version], floor: Version) -> (active: Vec<Version>)
    ensures
        active@ == known@.filter(|v: Version| is_active(v, floor)),
{
    let ghost ahead = |v: Version| is_active(v, floor);
    let mut active: Vec<Version> = Vec::new();
    let mut i: usize = 0;
    proof {
        assert(known@.take(0) =~= Seq::<Version>::empty());
    }
    while i < known.len()
        invariant
            i <= known@.len(),
            ahead == |v: Version| is_active(v, floor),
            active@ == known@.take(i as int).filter(ahead),
        decreases known@.len() - i,
    {
        let v = known[i];
        proof {
            assert(known@.take(i + 1) =~= known@.take(i as int).push(v));
            known@.take(i as int).lemma_filter_push(v, ahead);
        }
        if v.is_prerelease() && floor < v {
            active.push(v);
        }
        i = i + 1;
    }
    proof {
        assert(known@.take(i as int) =~= known@);
    }
    active
}

/// What the classification says does not depend on the order of the tags: a
/// shuffled collection has the same latest release and the same pre-releases
/// ahead of it.
pub proof fn law_classification_ignores_order(known: Seq<Version>, shuffled: Seq<Version>)
    requires
        known.to_multiset() == shuffled.to_multiset(),
    ensures
        latest_release_of(known.to_set()) == latest_release_of(shuffled.to_set()),
        active_prereleases_of(known).to_set() == active_prereleases_of(shuffled).to_set(),
{
    lemma_same_tags(known, shuffled);
    let floor = floor_of(latest_release_of(known.to_set()));
    let ahead = |v: Version| is_active(v, floor);
    assert forall|v: Version|
        known.filter(ahead).contains(v) <==> shuffled.filter(ahead).contains(v) by {
        lemma_filter_membership(known, ahead, v);
        lemma_filter_membership(shuffled, ahead, v);
        assert(known.contains(v) <==> known.to_set().contains(v));
        assert(shuffled.contains(v) <==> shuffled.to_set().contains(v));
    }
    assert(known.filter(ahead).to_set() =~= shuffled.filter(ahead).to_set());
}

/// Two collections with the same tags, each as often, hold the same versions.
proof fn lemma_same_tags(known: Seq<Version>, shuffled: Seq<Version>)
    requires
        known.to_multiset() == shuffled.to_multiset(),
    ensures
        known.to_set() == shuffled.to_set(),
{
    assert forall|v: Version| known.contains(v) <==> shuffled.contains(v) by {
        vstd::seq_lib::to_multiset_contains(known, v);
        vstd::seq_lib::to_multiset_contains(shuffled, v);
    }
    assert(known.to_set() =~= shuffled.to_set());
}

/// What a filtered sequence holds: the items of the sequence that pass.
proof fn lemma_filter_membership(s: Seq<Version>, pass: spec_fn(Version) -> bool, v: Version)
    ensures
        s.filter(pass).contains(v) <==> s.contains(v) && pass(v),
{
    if s.filter(pass).contains(v) {
        s.lemma_filter_contains_rev(pass, v);
    }
    if s.contains(v) && pass(v) {
        let i = choose|i: int| 0 <= i < s.len() && s[i] == v;
        s.lemma_filter_contains(pass, i);
    }
}

} // verus!
