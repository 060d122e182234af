//! The steps of an update: fetch upstream, rebase the fork's branch onto
//! it, and tell whether anything changed. The program runs each step and
//! reports how it went; this module decides what comes next.
use vstd::prelude::*;

verus! {

/// How the last step of an update went.
#[derive(Debug, Clone, Copy, PartialEq, Eq, Structural)]
pub enum UpdateEvent {
    /// The fetch from `origin` finished, successfully or not.
    Fetched(bool),
    /// The rebase onto the upstream branch finished, without conflicts or
    /// with them.
    Rebased(bool),
    /// The head before and after the rebase were compared.
    HeadCompared { changed: bool },
}

/// How an update ends.
#[derive(Debug, Clone, Copy, PartialEq, Eq, Structural)]
pub enum UpdateOutcome {
    /// `git fetch` failed: the update is an error.
    FetchFailed,
    /// The rebase stopped on conflicts, which the user resolves by hand.
    Conflicts,
    /// The rebase left the head where it was.
    UpToDate,
    /// The rebase moved the branch onto the new upstream.
    Rebased,
}

/// What to do next.
#[derive(Debug, Clone, Copy, PartialEq, Eq, Structural)]
pub enum UpdateAction {
    /// Fetch from `origin`.
    Fetch,
    /// Note the head, then rebase onto the upstream branch.
    Rebase,
    /// Compare the head with the one noted before the rebase.
    CompareHead,
    /// Stop, with this outcome.
    Finish(UpdateOutcome),
}

/// The step that follows `last` (`None` before the first one): fetch,
/// then rebase if the fetch succeeded, then compare the head if the rebase
/// did; a failed fetch or a rebase with conflicts ends the update.
pub open spec fn spec_next_update_action(last: Option<UpdateEvent>) -> UpdateAction {
    match last {
        None => UpdateAction::Fetch,
        Some(UpdateEvent::Fetched(ok)) => if ok {
            UpdateAction::Rebase
        } else {
            UpdateAction::Finish(UpdateOutcome::FetchFailed)
        },
        Some(UpdateEvent::Rebased(ok)) => if ok {
            UpdateAction::CompareHead
        } else {
            UpdateAction::Finish(UpdateOutcome::Conflicts)
        },
        Some(UpdateEvent::HeadCompared { changed }) => if changed {
            UpdateAction::Finish(UpdateOutcome::Rebased)
        } else {
            UpdateAction::Finish(UpdateOutcome::UpToDate)
        },
    }
}

/// The step of an update that follows `last` (`None` before the first).
pub fn next_update_action(last: Option<UpdateEvent>) -> (res: UpdateAction)
    ensures
        res == spec_next_update_action(last),
{
    match last {
        None => UpdateAction::Fetch,
        Some(UpdateEvent::Fetched(ok)) => if ok {
            UpdateAction::Rebase
        } else {
            UpdateAction::Finish(UpdateOutcome::FetchFailed)
        },
        Some(UpdateEvent::Rebased(ok)) => if ok {
            UpdateAction::CompareHead
        } else {
            UpdateAction::Finish(UpdateOutcome::Conflicts)
        },
        Some(UpdateEvent::HeadCompared { changed }) => if changed {
            UpdateAction::Finish(UpdateOutcome::Rebased)
        } else {
            UpdateAction::Finish(UpdateOutcome::UpToDate)
        },
    }
}

/// The event that running `action` can report.
pub open spec fn reports(action: UpdateAction, event: UpdateEvent) -> bool {
    match action {
        UpdateAction::Fetch => event is Fetched,
        UpdateAction::Rebase => event is Rebased,
        UpdateAction::CompareHead => event is HeadCompared,
        UpdateAction::Finish(_) => false,
    }
}

/// Update law: when each step reports an event of its own kind, an
/// update finishes within three steps, and it ends with the branch moved
/// only after a successful fetch, a rebase without conflicts and a change
/// of head.
pub proof fn lemma_update_finishes(e1: UpdateEvent, e2: UpdateEvent, e3: UpdateEvent)
    requires
        reports(spec_next_update_action(None), e1),
        spec_next_update_action(Some(e1)) !is Finish ==> reports(
            spec_next_update_action(Some(e1)),
            e2,
        ),
        spec_next_update_action(Some(e1)) !is Finish && spec_next_update_action(Some(e2)) !is Finish
            ==> reports(spec_next_update_action(Some(e2)), e3),
    ensures
        spec_next_update_action(Some(e1)) is Finish || spec_next_update_action(Some(e2)) is Finish
            || spec_next_update_action(Some(e3)) is Finish,
        spec_next_update_action(Some(e1)) !is Finish && spec_next_update_action(Some(e2)) !is Finish
            && spec_next_update_action(Some(e3)) == UpdateAction::Finish(UpdateOutcome::Rebased)
            ==> e1 == UpdateEvent::Fetched(true) && e2 == UpdateEvent::Rebased(true) && e3
            == (UpdateEvent::HeadCompared { changed: true }),
{
}

} // verus!
