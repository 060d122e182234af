//! Applying the patch store to the checkout: what each record makes of the
//! file it is about, and how that gives back the fork a sync recorded.
use vstd::prelude::*;

use crate::git::{ContentView, FileContent, FileDiff};
use crate::sync::{
    records_text_change, old_text, opt_content, restores_new_text, step_for, SyncStep, SyncWrite,
    WriteView,
};

use crate::patch::{
    apply_patch, is_new_file_patch, spec_apply_patch, spec_hunk_ranges_fit, spec_is_new_file_patch,
    text_or_empty, PatchError,
};

verus! {

/// The content a text patch gives its file.
pub enum TextApplied {
    /// The patch creates the file.
    Created(String),
    /// The patch changes the existing file.
    Patched(String),
}

/// What a text patch gives its file: a patch that creates the file is
/// applied to the empty text, any other one to the file's current
/// content `original`.
pub open spec fn spec_apply_text_patch(patch_content: Seq<char>, original: Seq<char>) -> Result<
    (bool, Seq<char>),
    PatchError,
> {
    if spec_is_new_file_patch(patch_content) {
        match spec_apply_patch(Seq::empty(), patch_content) {
            Ok(s) => Ok((true, s)),
            Err(e) => Err(e),
        }
    } else {
        match spec_apply_patch(original, patch_content) {
            Ok(s) => Ok((false, s)),
            Err(e) => Err(e),
        }
    }
}

/// A result of applying a text patch, as (created, content).
pub open spec fn applied_view(r: Result<TextApplied, PatchError>) -> Result<(bool, Seq<char>), PatchError> {
    match r {
        Ok(TextApplied::Created(s)) => Ok((true, s@)),
        Ok(TextApplied::Patched(s)) => Ok((false, s@)),
        Err(e) => Err(e),
    }
}

/// What the text patch `patch_content` gives its file. `original` is the
/// file's current content; it is needed only when the patch does not
/// create the file (see `is_new_file_patch`).
pub fn apply_text_patch(patch_content: &str, original: Option<&str>) -> (res: Result<
    TextApplied,
    PatchError,
>)
    requires
        !spec_is_new_file_patch(patch_content@) ==> original is Some,
        spec_hunk_ranges_fit(patch_content@),
    ensures
        applied_view(res) == spec_apply_text_patch(patch_content@, text_or_empty(original)),
{
    let empty = "";
    proof {
        reveal_strlit("");
    }
    assert(empty@ =~= Seq::<char>::empty());
    if is_new_file_patch(patch_content) {
        match apply_patch(empty, patch_content) {
            Ok(s) => Ok(TextApplied::Created(s)),
            Err(e) => Err(e),
        }
    } else {
        let base = match original {
            Some(o) => o,
            None => empty,
        };
        match apply_patch(base, patch_content) {
            Ok(s) => Ok(TextApplied::Patched(s)),
            Err(e) => Err(e),
        }
    }
}

/// What applying a record does to its file.
pub enum FileOutcome {
    /// The file is removed (where it exists).
    Removed,
    /// The file is written with a copy of these bytes.
    Copied(Vec<u8>),
    /// The file is created with this text.
    Created(String),
    /// The existing file is rewritten with this text.
    Patched(String),
}

/// What applying a record does to its file, by the content involved.
pub enum OutcomeView {
    Removed,
    Copied(Seq<u8>),
    Created(Seq<char>),
    Patched(Seq<char>),
}

impl View for FileOutcome {
    type V = OutcomeView;

    open spec fn view(&self) -> OutcomeView {
        match self {
            FileOutcome::Removed => OutcomeView::Removed,
            FileOutcome::Copied(b) => OutcomeView::Copied(b@),
            FileOutcome::Created(s) => OutcomeView::Created(s@),
            FileOutcome::Patched(s) => OutcomeView::Patched(s@),
        }
    }
}

/// What applying the record `record` does to its file, whose current text
/// is `current` (used only by a text patch that does not create the
/// file): a deletion marker removes the file, a binary copy writes its
/// bytes, a text patch creates or rewrites it (see
/// `spec_apply_text_patch`).
pub open spec fn spec_apply_record(record: WriteView, current: Seq<char>) -> Result<
    OutcomeView,
    PatchError,
> {
    match record {
        WriteView::DeletedMarker => Ok(OutcomeView::Removed),
        WriteView::Binary(b) => Ok(OutcomeView::Copied(b)),
        WriteView::Text(p) => match spec_apply_text_patch(p, current) {
            Ok((true, s)) => Ok(OutcomeView::Created(s)),
            Ok((false, s)) => Ok(OutcomeView::Patched(s)),
            Err(e) => Err(e),
        },
    }
}

/// An outcome, by its view.
pub open spec fn outcome_view(r: Result<FileOutcome, PatchError>) -> Result<OutcomeView, PatchError> {
    match r {
        Ok(o) => Ok(o@),
        Err(e) => Err(e),
    }
}

/// The content the file has after the outcome (`None`: no file).
pub open spec fn outcome_content(o: OutcomeView) -> Option<ContentView> {
    match o {
        OutcomeView::Removed => None,
        OutcomeView::Copied(b) => Some(ContentView::Binary(b)),
        OutcomeView::Created(s) => Some(ContentView::Text(s)),
        OutcomeView::Patched(s) => Some(ContentView::Text(s)),
    }
}

/// What applying `record` does to its file. `current` is the file's
/// current text; it is needed only for a text patch that does not create
/// the file (see `is_new_file_patch`).
pub fn apply_record(record: &SyncWrite, current: Option<&str>) -> (res: Result<FileOutcome, PatchError>)
    requires
        record@ matches WriteView::Text(p) ==> spec_hunk_ranges_fit(p) && (
        !spec_is_new_file_patch(p) ==> current is Some),
    ensures
        outcome_view(res) == spec_apply_record(record@, text_or_empty(current)),
{
    match record {
        SyncWrite::DeletedMarker => Ok(FileOutcome::Removed),
        SyncWrite::Binary(b) => Ok(FileOutcome::Copied(vstd::slice::slice_to_vec(b.as_slice()))),
        SyncWrite::Text(p) => match apply_text_patch(p.as_str(), current) {
            Ok(TextApplied::Created(s)) => Ok(FileOutcome::Created(s)),
            Ok(TextApplied::Patched(s)) => Ok(FileOutcome::Patched(s)),
            Err(e) => Err(e),
        },
    }
}

/// Sync-then-apply law: the record that a sync writes for a changed file
/// (a step of `plan_sync`), applied to the file as upstream has it, gives
/// the file as the fork has it: no file where the fork deleted it, and
/// otherwise the fork's bytes or text. A changed file is one that exists
/// on some side and, where the fork has it as text, whose text differs
/// from the upstream one (empty where upstream has no text). `current` is
/// the checkout's text of the file after the reset to upstream: the
/// upstream text where that is not empty, and anything at all otherwise.
/// The record can be applied: a text patch has hunk ranges within
/// `usize`, and it reads the current text only when the upstream text is
/// not empty.
pub proof fn lemma_sync_then_apply(step: SyncStep, change: FileDiff, current: Seq<char>)
    requires
        step_for(step, change),
        restores_new_text(step, change),
        records_text_change(step, change),
        change.old_content is Some || change.new_content is Some,
        change.new_content matches Some(FileContent::Text(t)) ==> t@ != old_text(
            opt_content(change.old_content),
        ),
        old_text(opt_content(change.old_content)).len() > 0 ==> current == old_text(
            opt_content(change.old_content),
        ),
    ensures
        step.write is Some,
        step.write matches Some(SyncWrite::Text(p)) ==> spec_hunk_ranges_fit(p@) && (
        !spec_is_new_file_patch(p@) ==> old_text(opt_content(change.old_content)).len() > 0),
        spec_apply_record(step.write->0@, current) matches Ok(o) && outcome_content(o)
            == opt_content(change.new_content),
{
    let old = old_text(opt_content(change.old_content));
    if old.len() == 0 {
        assert(old =~= Seq::<char>::empty());
    }
}

} // verus!
