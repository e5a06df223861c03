//! Making a proposed pre-release free of collisions: while the candidate is a
//! known tag already, its counter moves on by a fixed stride.

use crate::error::ProposalError;
use crate::version::Version;
use vstd::prelude::*;

verus! {

/// How far the counter of a pre-release moves on when its version is taken.
/// It is wide enough to tell such a counter from one chosen by hand.
pub const COLLISION_STRIDE: u32 = 100;

/// Whether `v` is one of `known`.
pub fn is_known(known: &[Version], v: Version) -> (found: bool)
    ensures
        found == known@.contains(v),
{
    let mut i: usize = 0;
    while i < known.len()
        invariant
            i <= known@.len(),
            forall|j: int| 0 <= j < i ==> known@[j] != v,
        decreases known@.len() - i,
    {
        if known[i] == v {
            return true;
        }
        i = i + 1;
    }
    false
}

impl Version {
    /// How far the counter of this version is from the last counter there
    /// is; zero for a release.
    pub open spec fn counters_left(self) -> nat {
        match self.prerelease {
            Some(tag) => (u32::MAX - tag.counter) as nat,
            None => 0,
        }
    }

    /// Where the resolution of this candidate against `known` ends.
    ///
    /// A candidate that is not known stands as it is. A known release is
    /// refused: `VersionAlreadyExists`. A known pre-release gives way to the
    /// one a stride further, and so on; `ResolutionExhausted` where the
    /// counter cannot move on by another stride.
    pub open spec fn resolved(self, known: Seq<Version>) -> Result<Version, ProposalError>
        decreases self.counters_left(),
    {
        if !known.contains(self) {
            Ok(self)
        } else {
            match self.prerelease {
                None => Err(ProposalError::VersionAlreadyExists),
                Some(tag) => if tag.counter + COLLISION_STRIDE <= u32::MAX {
                    self.with_counter((tag.counter + COLLISION_STRIDE) as u32).resolved(known)
                } else {
                    Err(ProposalError::ResolutionExhausted)
                },
            }
        }
    }

    /// Whether `free` is this candidate or a pre-release of the same triple
    /// whose counter lies a whole number of strides further.
    pub open spec fn reaches(self, free: Version) -> bool {
        free == self || match (self.prerelease, free.prerelease) {
            (Some(from), Some(to)) => {
                &&& free == self.with_counter(to.counter)
                &&& from.counter < to.counter
                &&& (to.counter - from.counter) % (COLLISION_STRIDE as int) == 0
            },
            _ => false,
        }
    }

    /// Moves this candidate on until it is none of `known`.
    ///
    /// Gives the candidate itself where it is not known, else the first
    /// pre-release of its triple, going by strides of `COLLISION_STRIDE` from
    /// its counter, that is not known. Fails with `VersionAlreadyExists` for
    /// a release that is known, and with `ResolutionExhausted` where every
    /// counter up to the last that a stride reaches is taken.
    ///
    /// The search is short: each known tag is in the way of one candidate at
    /// most, so it ends after no more strides than there are known tags.
    pub fn resolve_collision(self, known: &[Version]) -> (r: Result<Version, ProposalError>)
        ensures
            r == self.resolved(known@),
            match r {
                Ok(free) => !known@.contains(free) && self.reaches(free),
                Err(e) => known@.contains(self) && (e == ProposalError::VersionAlreadyExists
                    <==> self.is_release()),
            },
    {
        let mut candidate = self;
        while is_known(known, candidate)
            invariant
                candidate.resolved(known@) == self.resolved(known@),
                self.reaches(candidate),
                known@.contains(candidate) ==> known@.contains(self),
            decreases candidate.counters_left(),
        {
            match candidate.prerelease {
                None => {
                    return Err(ProposalError::VersionAlreadyExists);
                },
                Some(tag) => match tag.counter.checked_add(COLLISION_STRIDE) {
                    Some(counter) => {
                        proof {
                            if self != candidate {
                                lemma_strides_add(tag.counter - self.prerelease.unwrap().counter);
                            }
                        }
                        candidate = candidate.set_prerelease(counter);
                    },
                    None => {
                        return Err(ProposalError::ResolutionExhausted);
                    },
                },
            }
        }
        Ok(candidate)
    }
}

/// A whole number of strides and one more is a whole number of strides.
proof fn lemma_strides_add(distance: int)
    requires
        distance % (COLLISION_STRIDE as int) == 0,
    ensures
        (distance + COLLISION_STRIDE) % (COLLISION_STRIDE as int) == 0,
{
}

/// What resolution gives is free: it is none of `known`, it has the triple of
/// the candidate, and its counter is the candidate's or lies whole strides
/// above it.
pub proof fn law_resolved_is_free(candidate: Version, known: Seq<Version>)
    ensures
        candidate.resolved(known) matches Ok(free) ==> !known.contains(free) && candidate.reaches(
            free,
        ),
    decreases candidate.counters_left(),
{
    if known.contains(candidate) {
        match candidate.prerelease {
            None => {},
            Some(tag) => {
                if tag.counter + COLLISION_STRIDE <= u32::MAX {
                    let next = candidate.with_counter((tag.counter + COLLISION_STRIDE) as u32);
                    law_resolved_is_free(next, known);
                    match next.resolved(known) {
                        Ok(free) => {
                            if free != next {
                                lemma_strides_add(
                                    free.prerelease.unwrap().counter - tag.counter
                                        - COLLISION_STRIDE,
                                );
                            }
                        },
                        Err(_) => {},
                    }
                }
            },
        }
    }
}

/// Resolution of a pre-release ends in a free version exactly where one of
/// the counters that the strides reach is free: given such a counter, it
/// gives that one or an earlier one.
pub proof fn law_resolution_finds_free_counter(
    candidate: Version,
    known: Seq<Version>,
    strides: nat,
)
    requires
        candidate.prerelease matches Some(tag) && tag.counter + COLLISION_STRIDE * strides
            <= u32::MAX && !known.contains(
            candidate.with_counter((tag.counter + COLLISION_STRIDE * strides) as u32),
        ),
    ensures
        candidate.resolved(known) matches Ok(free) && free.prerelease matches Some(found)
            && found.counter <= candidate.prerelease.unwrap().counter + COLLISION_STRIDE * strides,
    decreases strides,
{
    let tag = candidate.prerelease.unwrap();
    assert(candidate == candidate.with_counter(tag.counter));
    if known.contains(candidate) {
        let next = candidate.with_counter((tag.counter + COLLISION_STRIDE) as u32);
        assert(next.with_counter(
            (tag.counter + COLLISION_STRIDE + COLLISION_STRIDE * (strides - 1)) as u32,
        ) == candidate.with_counter((tag.counter + COLLISION_STRIDE * strides) as u32));
        law_resolution_finds_free_counter(next, known, (strides - 1) as nat);
    }
}

/// Resolution looks at `known` only to ask whether it holds the pre-releases
/// of the candidate's triple from the candidate's counter on.
proof fn lemma_resolved_congruent(candidate: Version, a: Seq<Version>, b: Seq<Version>)
    requires
        candidate.prerelease is Some,
        forall|counter: u32|
            counter >= candidate.prerelease.unwrap().counter ==> (a.contains(
                #[trigger] candidate.with_counter(counter),
            ) <==> b.contains(candidate.with_counter(counter))),
    ensures
        candidate.resolved(a) == candidate.resolved(b),
    decreases candidate.counters_left(),
{
    let tag = candidate.prerelease.unwrap();
    assert(candidate == candidate.with_counter(tag.counter));
    if a.contains(candidate) && tag.counter + COLLISION_STRIDE <= u32::MAX {
        let next = candidate.with_counter((tag.counter + COLLISION_STRIDE) as u32);
        assert forall|counter: u32| counter >= next.prerelease.unwrap().counter implies (a.contains(
            #[trigger] next.with_counter(counter),
        ) <==> b.contains(next.with_counter(counter))) by {
            assert(next.with_counter(counter) == candidate.with_counter(counter));
        }
        lemma_resolved_congruent(next, a, b);
    }
}

/// Taking one tag out of `known` changes nothing for a candidate that is
/// another version than that tag.
proof fn lemma_contains_without(known: Seq<Version>, i: int, v: Version)
    requires
        0 <= i < known.len(),
        known[i] != v,
    ensures
        known.contains(v) <==> known.remove(i).contains(v),
{
    let rest = known.remove(i);
    if known.contains(v) {
        let j = choose|j: int| 0 <= j < known.len() && known[j] == v;
        if j < i {
            assert(rest[j] == v);
        } else {
            assert(rest[j - 1] == v);
        }
    }
    if rest.contains(v) {
        let j = choose|j: int| 0 <= j < rest.len() && rest[j] == v;
        if j < i {
            assert(known[j] == v);
        } else {
            assert(known[j + 1] == v);
        }
    }
}

/// A known pre-release that is in the way gives way to the next candidate,
/// and for that one the tag that was in the way no longer counts.
proof fn lemma_resolved_step(candidate: Version, known: Seq<Version>, i: int)
    requires
        0 <= i < known.len(),
        known[i] == candidate,
        candidate.prerelease matches Some(tag) && tag.counter + COLLISION_STRIDE <= u32::MAX,
    ensures
        candidate.resolved(known) == candidate.with_counter(
            (candidate.prerelease.unwrap().counter + COLLISION_STRIDE) as u32,
        ).resolved(known.remove(i)),
{
    let tag = candidate.prerelease.unwrap();
    let next = candidate.with_counter((tag.counter + COLLISION_STRIDE) as u32);
    assert forall|counter: u32| counter >= next.prerelease.unwrap().counter implies (known.contains(
        #[trigger] next.with_counter(counter),
    ) <==> known.remove(i).contains(next.with_counter(counter))) by {
        lemma_contains_without(known, i, next.with_counter(counter));
    }
    lemma_resolved_congruent(next, known, known.remove(i));
}

/// Resolution of a pre-release ends in a free version whenever the counter
/// can move on by one stride for each known tag: each known tag is in the
/// way of at most one candidate.
pub proof fn law_resolution_succeeds(candidate: Version, known: Seq<Version>)
    requires
        candidate.prerelease matches Some(tag) && tag.counter + COLLISION_STRIDE * known.len()
            <= u32::MAX,
    ensures
        candidate.resolved(known) is Ok,
    decreases known.len(),
{
    if known.contains(candidate) {
        let tag = candidate.prerelease.unwrap();
        let i = choose|i: int| 0 <= i < known.len() && known[i] == candidate;
        lemma_resolved_step(candidate, known, i);
        law_resolution_succeeds(
            candidate.with_counter((tag.counter + COLLISION_STRIDE) as u32),
            known.remove(i),
        );
    }
}

/// Resolution visits each known tag at most once: the counter it gives lies
/// at most one stride for each known tag above the candidate's.
pub proof fn law_resolution_is_short(candidate: Version, known: Seq<Version>)
    ensures
        candidate.resolved(known) matches Ok(free) ==> match (
            candidate.prerelease,
            free.prerelease,
        ) {
            (Some(from), Some(to)) => to.counter <= from.counter + COLLISION_STRIDE * known.len(),
            _ => free == candidate,
        },
    decreases known.len(),
{
    if known.contains(candidate) {
        match candidate.prerelease {
            Some(tag) => {
                if tag.counter + COLLISION_STRIDE <= u32::MAX {
                    let i = choose|i: int| 0 <= i < known.len() && known[i] == candidate;
                    lemma_resolved_step(candidate, known, i);
                    law_resolution_is_short(
                        candidate.with_counter((tag.counter + COLLISION_STRIDE) as u32),
                        known.remove(i),
                    );
                }
            },
            None => {},
        }
    }
}

} // verus!
