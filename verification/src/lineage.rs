//! Picking the pre-release that the current line of work continues: the
//! greatest of the active pre-releases that can be reached from where the
//! work stands.
//!
//! What can be reached is for the caller to say. It is asked once for each
//! active pre-release, and the answers decide.

use crate::classifier::{greatest_of, is_greatest, lemma_greatest_of};
use crate::version::Version;
use vstd::prelude::*;

verus! {

/// The versions of `active` that `verdicts` marks as reached: `active[i]`
/// for each `i` with `verdicts[i]`.
pub open spec fn reached(active: Seq<Version>, verdicts: Seq<bool>) -> Set<Version> {
    Set::new(
        |v: Version|
            exists|i: int|
                0 <= i < active.len() && i < verdicts.len() && verdicts[i] && #[trigger] active[i]
                    == v,
    )
}

/// The pre-release that the current line of work continues: the greatest of
/// the reached ones.
pub open spec fn lineage_of(active: Seq<Version>, verdicts: Seq<bool>) -> Option<Version> {
    greatest_of(reached(active, verdicts))
}

/// Whether `verdicts` holds, for each of `active` in turn, an answer that
/// `reachable` can give for it.
pub open spec fn answers<F: Fn(Version) -> bool>(
    active: Seq<Version>,
    reachable: F,
    verdicts: Seq<bool>,
) -> bool {
    &&& verdicts.len() == active.len()
    &&& forall|i: int|
        0 <= i < active.len() ==> call_ensures(reachable, (active[i],), #[trigger] verdicts[i])
}

/// The greatest of the versions of `active` that `verdicts` marks as
/// reached, or `None` where it marks none. A version without a verdict
/// counts as not reached.
pub fn select_lineage(active: &[Version], verdicts: &[bool]) -> (lineage: Option<Version>)
    ensures
        lineage == lineage_of(active@, verdicts@),
        match lineage {
            Some(head) => is_greatest(reached(active@, verdicts@), head),
            None => forall|i: int|
                0 <= i < active@.len() && i < verdicts@.len() ==> !#[trigger] verdicts@[i],
        },
{
    let count = if active.len() < verdicts.len() {
        active.len()
    } else {
        verdicts.len()
    };
    let mut lineage: Option<Version> = None;
    let mut i: usize = 0;
    while i < count
        invariant
            i <= count,
            count <= active@.len(),
            count <= verdicts@.len(),
            match lineage {
                Some(head) => {
                    &&& reached(active@, verdicts@).contains(head)
                    &&& forall|j: int|
                        0 <= j < i && verdicts@[j] ==> (#[trigger] active@[j]).at_most(head)
                },
                None => forall|j: int| 0 <= j < i ==> !#[trigger] verdicts@[j],
            },
        decreases count - i,
    {
        if verdicts[i] {
            let v = active[i];
            let better = match lineage {
                Some(head) => head < v,
                None => true,
            };
            if better {
                lineage = Some(v);
            }
        }
        i = i + 1;
    }
    proof {
        let among = reached(active@, verdicts@);
        match lineage {
            Some(head) => {
                assert forall|w: Version| among.contains(w) implies w.at_most(head) by {
                    let j = choose|j: int|
                        0 <= j < active@.len() && j < verdicts@.len() && verdicts@[j]
                            && #[trigger] active@[j] == w;
                    assert(active@[j].at_most(head));
                }
                lemma_greatest_of(among, head);
            },
            None => {
                assert forall|w: Version| !is_greatest(among, w) by {
                    if among.contains(w) {
                        let j = choose|j: int|
                            0 <= j < active@.len() && j < verdicts@.len() && verdicts@[j]
                                && #[trigger] active@[j] == w;
                        assert(!verdicts@[j]);
                    }
                }
            },
        }
    }
    lineage
}

/// Asks `reachable` for each of `active` in turn and gives the greatest
/// version for which it answered `true`, or `None` where it answered `true`
/// for none.
pub fn current_lineage<F: Fn(Version) -> bool>(active: &[Version], reachable: F) -> (lineage:
    Option<Version>)
    requires
        forall|i: int| 0 <= i < active@.len() ==> call_requires(reachable, (#[trigger] active@[i],)),
    ensures
        exists|verdicts: Seq<bool>|
            answers(active@, reachable, verdicts) && lineage == lineage_of(active@, verdicts),
{
    let mut verdicts: Vec<bool> = Vec::new();
    let mut i: usize = 0;
    while i < active.len()
        invariant
            i <= active@.len(),
            verdicts@.len() == i,
            forall|j: int| 0 <= j < active@.len() ==> call_requires(reachable, (#[trigger] active@[j],)),
            forall|j: int|
                0 <= j < i ==> call_ensures(reachable, (active@[j],), #[trigger] verdicts@[j]),
        decreases active@.len() - i,
    {
        let verdict = reachable(active[i]);
        verdicts.push(verdict);
        i = i + 1;
    }
    let lineage = select_lineage(active, verdicts.as_slice());
    proof {
        assert(answers(active@, reachable, verdicts@));
    }
    lineage
}

} // verus!
