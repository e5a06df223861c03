//! Proposing the next version.
//!
//! On the release line the next version is a release: the latest release
//! with one of its numbers raised. On a side line it is a pre-release: the
//! one after the pre-release that the line continues, or the first
//! pre-release of a raised triple where the line continues none. A version
//! asked for by name is taken as it is, unless it exists already.

use crate::classifier::{
    active_prereleases, active_prereleases_of, floor_of, latest_release, latest_release_of,
    release_floor,
};
use crate::collision::is_known;
use crate::error::ProposalError;
use crate::lineage::{answers, current_lineage, lineage_of};
use crate::version::{SubVersion, Version};
use vstd::prelude::*;

verus! {

/// Where the work stands when a version is proposed.
#[derive(Clone, Copy, Debug, PartialEq, Eq, Hash, Structural)]
pub enum ProposalState {
    /// On the canonical branch: the proposal is a release.
    OnReleaseLine,
    /// On any other branch: the proposal is a pre-release.
    OnSideLine,
}

/// What is asked of a proposal.
#[derive(Clone, Copy, Debug, PartialEq, Eq, Hash, Structural)]
pub enum Request {
    /// This version and no other.
    Target(Version),
    /// The version that follows by raising this number.
    Bump(SubVersion),
}

/// The known tags as a proposal sees them.
#[derive(Debug)]
pub struct Classification {
    /// The latest release, where a release exists.
    pub latest_release: Option<Version>,
    /// The pre-releases ahead of the latest release.
    pub active_prereleases: Vec<Version>,
    /// The active pre-release that the current line of work continues, where
    /// it continues one.
    pub current_lineage_prerelease: Option<Version>,
}

/// The state that goes with a branch.
pub open spec fn state_of(canonical: bool) -> ProposalState {
    if canonical {
        ProposalState::OnReleaseLine
    } else {
        ProposalState::OnSideLine
    }
}

/// Whether the proposal starts from the latest release with a number raised,
/// so that the caller's choice of the number counts.
pub open spec fn starts_from_release(state: ProposalState, lineage: Option<Version>) -> bool {
    state == ProposalState::OnReleaseLine || lineage is None
}

/// The version to propose before it is held against the known tags.
pub open spec fn candidate_of(
    state: ProposalState,
    latest_release: Option<Version>,
    lineage: Option<Version>,
    part: SubVersion,
) -> Result<Version, ProposalError>
    recommends
        starts_from_release(state, lineage) ==> floor_of(latest_release).can_bump(part),
{
    match (state, lineage) {
        (ProposalState::OnReleaseLine, _) => Ok(floor_of(latest_release).bumped(part)),
        (ProposalState::OnSideLine, Some(head)) => match head.advanced(1) {
            Some(next) => Ok(next),
            None => Err(ProposalError::ResolutionExhausted),
        },
        (ProposalState::OnSideLine, None) => Ok(
            floor_of(latest_release).bumped(part).with_counter(0),
        ),
    }
}

/// The version to propose for `request`.
pub open spec fn proposal_of(
    known: Seq<Version>,
    state: ProposalState,
    latest_release: Option<Version>,
    lineage: Option<Version>,
    request: Request,
) -> Result<Version, ProposalError> {
    match request {
        Request::Target(target) => if known.contains(target) {
            Err(ProposalError::VersionAlreadyExists)
        } else {
            Ok(target)
        },
        Request::Bump(part) => match candidate_of(state, latest_release, lineage, part) {
            Ok(candidate) => candidate.resolved(known),
            Err(e) => Err(e),
        },
    }
}

impl ProposalState {
    /// The state on the canonical branch, `OnReleaseLine`, or on another,
    /// `OnSideLine`.
    pub fn for_branch(canonical: bool) -> (state: ProposalState)
        ensures
            state == state_of(canonical),
    {
        if canonical {
            ProposalState::OnReleaseLine
        } else {
            ProposalState::OnSideLine
        }
    }

    /// Whether a proposal in this state, continuing `lineage`, starts from the
    /// latest release with a number raised.
    pub fn needs_bump(&self, lineage: Option<Version>) -> (r: bool)
        ensures
            r == starts_from_release(*self, lineage),
    {
        match self {
            ProposalState::OnReleaseLine => true,
            ProposalState::OnSideLine => lineage.is_none(),
        }
    }
}

/// Takes stock of the known tags: the latest release, the pre-releases ahead
/// of it in the order in which `known` holds them, and the one among these
/// that the current line of work continues, which is the greatest for which
/// `reachable` answers `true`.
pub fn classify<F: Fn(Version) -> bool>(known: &[Version], reachable: F) -> (snapshot:
    Classification)
    requires
        forall|v: Version|
            active_prereleases_of(known@).contains(v) ==> call_requires(reachable, (v,)),
    ensures
        snapshot.latest_release == latest_release_of(known@.to_set()),
        snapshot.active_prereleases@ == active_prereleases_of(known@),
        exists|verdicts: Seq<bool>|
            answers(snapshot.active_prereleases@, reachable, verdicts)
                && snapshot.current_lineage_prerelease == lineage_of(
                snapshot.active_prereleases@,
                verdicts,
            ),
{
    let latest_release = latest_release(known);
    let active_prereleases = active_prereleases(known, release_floor(latest_release));
    proof {
        assert(active_prereleases@ == active_prereleases_of(known@));
        assert forall|i: int| 0 <= i < active_prereleases@.len() implies call_requires(
            reachable,
            (#[trigger] active_prereleases@[i],),
        ) by {
            assert(active_prereleases@.contains(active_prereleases@[i]));
        }
    }
    let current_lineage_prerelease = current_lineage(active_prereleases.as_slice(), reachable);
    Classification { latest_release, active_prereleases, current_lineage_prerelease }
}

/// The version that follows, before it is held against the known tags.
///
/// On the release line: the latest release, or `0.0.0` where there is none,
/// with `part` raised. On a side line that continues `lineage`: `lineage`
/// with its counter raised by one, or `ResolutionExhausted` where the counter
/// is the last there is. On a side line that continues nothing: the first
/// pre-release, with counter 0, of the latest release with `part` raised.
pub fn next_version(
    state: ProposalState,
    latest_release: Option<Version>,
    lineage: Option<Version>,
    part: SubVersion,
) -> (r: Result<Version, ProposalError>)
    requires
        starts_from_release(state, lineage) ==> floor_of(latest_release).can_bump(part),
    ensures
        r == candidate_of(state, latest_release, lineage, part),
{
    match (state, lineage) {
        (ProposalState::OnReleaseLine, _) => Ok(
            release_floor(latest_release).increment_version(part),
        ),
        (ProposalState::OnSideLine, Some(head)) => head.increment_prerelease(1),
        (ProposalState::OnSideLine, None) => Ok(
            release_floor(latest_release).increment_version(part).set_prerelease(0),
        ),
    }
}

/// Proposes the version for `request`, given the known tags and what
/// `classify` made of them.
///
/// A target is proposed as it is, or refused with `VersionAlreadyExists`
/// where it is a known tag. Otherwise the proposal is what `next_version`
/// gives, moved on by `resolve_collision` until it is no known tag.
pub fn propose(
    known: &[Version],
    state: ProposalState,
    snapshot: &Classification,
    request: Request,
) -> (r: Result<Version, ProposalError>)
    requires
        request matches Request::Bump(part) ==> (starts_from_release(
            state,
            snapshot.current_lineage_prerelease,
        ) ==> floor_of(snapshot.latest_release).can_bump(part)),
    ensures
        r == proposal_of(
            known@,
            state,
            snapshot.latest_release,
            snapshot.current_lineage_prerelease,
            request,
        ),
        r matches Ok(version) ==> !known@.contains(version),
{
    match request {
        Request::Target(target) => {
            if is_known(known, target) {
                Err(ProposalError::VersionAlreadyExists)
            } else {
                Ok(target)
            }
        },
        Request::Bump(part) => {
            match next_version(
                state,
                snapshot.latest_release,
                snapshot.current_lineage_prerelease,
                part,
            ) {
                Ok(candidate) => candidate.resolve_collision(known),
                Err(e) => Err(e),
            }
        },
    }
}

} // verus!
