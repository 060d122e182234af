//! Turning the differences between upstream and the fork into patch
//! records: what to write for each changed file, which files were synced,
//! and which old records no longer stand for a change.
use vstd::prelude::*;

use crate::git::{ContentView, FileContent, FileDiff};
use crate::patch::{
    diffy_patch_text, generate_patch, spec_apply_patch, spec_hunk_ranges_fit, spec_is_new_file_patch,
    EntryView, PatchEntry, PatchError,
};
use crate::text::{chars_of, lines, split_lines};

verus! {

/// What is recorded for a changed file.
pub enum SyncWrite {
    /// The file was deleted: a deletion marker.
    DeletedMarker,
    /// The file is binary: a copy of its new bytes.
    Binary(Vec<u8>),
    /// The file is text: a patch from its old text to its new one.
    Text(String),
}

/// A record to write, by its kind and content.
pub enum WriteView {
    DeletedMarker,
    Binary(Seq<u8>),
    Text(Seq<char>),
}

impl View for SyncWrite {
    type V = WriteView;

    open spec fn view(&self) -> WriteView {
        match self {
            SyncWrite::DeletedMarker => WriteView::DeletedMarker,
            SyncWrite::Binary(b) => WriteView::Binary(b@),
            SyncWrite::Text(t) => WriteView::Text(t@),
        }
    }
}

/// One step of a sync: the records of `path` are cleared, and then
/// `write` (if any) is recorded for it.
pub struct SyncStep {
    pub path: String,
    /// The file does not exist upstream.
    pub is_new: bool,
    pub write: Option<SyncWrite>,
}

/// An optional content, by its view.
pub open spec fn opt_content(o: Option<FileContent>) -> Option<ContentView> {
    match o {
        Some(c) => Some(c@),
        None => None,
    }
}

/// An optional record to write, by its view.
pub open spec fn opt_write(o: Option<SyncWrite>) -> Option<WriteView> {
    match o {
        Some(w) => Some(w@),
        None => None,
    }
}

/// The old side's text: empty when the file is new or was binary.
pub open spec fn old_text(old: Option<ContentView>) -> Seq<char> {
    match old {
        Some(ContentView::Text(s)) => s,
        _ => Seq::empty(),
    }
}

/// What is recorded for a file with the given old and new content: a
/// deletion marker when it is gone, a copy when it is binary, a patch when
/// it is text (nothing when the patch has no more than its two header
/// lines), and nothing when it exists on neither side.
pub open spec fn spec_sync_write(old: Option<ContentView>, new: Option<ContentView>) -> Option<
    WriteView,
> {
    match new {
        None => if old is Some {
            Some(WriteView::DeletedMarker)
        } else {
            None
        },
        Some(ContentView::Binary(b)) => Some(WriteView::Binary(b)),
        Some(ContentView::Text(t)) => {
            let p = diffy_patch_text(old_text(old), t);
            if lines(p).len() <= 2 {
                None
            } else {
                Some(WriteView::Text(p))
            }
        },
    }
}

/// `step` is the sync step for `change`.
pub open spec fn step_for(step: SyncStep, change: FileDiff) -> bool {
    &&& step.path@ == change.path@
    &&& step.is_new == (change.old_content is None)
    &&& opt_write(step.write) == spec_sync_write(
        opt_content(change.old_content),
        opt_content(change.new_content),
    )
}

/// Sync law: a text patch recorded for a change, applied to the file's
/// old text, gives its new text back.
pub open spec fn restores_new_text(step: SyncStep, change: FileDiff) -> bool {
    match (step.write, change.new_content) {
        (Some(SyncWrite::Text(p)), Some(FileContent::Text(t))) => spec_apply_patch(
            old_text(opt_content(change.old_content)),
            p@,
        ) == Ok::<Seq<char>, PatchError>(t@),
        _ => true,
    }
}

/// Sync law: a text file is recorded exactly when its text differs from
/// the upstream one (empty where upstream has no text), and then as a
/// patch that can be applied and that creates its file exactly when the
/// upstream text is empty.
pub open spec fn records_text_change(step: SyncStep, change: FileDiff) -> bool {
    match change.new_content {
        Some(FileContent::Text(t)) => {
            let upstream = old_text(opt_content(change.old_content));
            if t@ == upstream {
                step.write is None
            } else {
                step.write matches Some(SyncWrite::Text(p)) && spec_hunk_ranges_fit(p@) && (
                spec_is_new_file_patch(p@) <==> upstream.len() == 0)
            }
        },
        _ => true,
    }
}

/// The sync step for one changed file.
pub fn plan_step(change: &FileDiff) -> (res: SyncStep)
    ensures
        res.path@ == change.path@,
        res.is_new == (change.old_content is None),
        step_for(res, *change),
        restores_new_text(res, *change),
        records_text_change(res, *change),
{
    let is_new = change.old_content.is_none();
    let write = match &change.new_content {
        None => if change.old_content.is_some() {
            Some(SyncWrite::DeletedMarker)
        } else {
            None
        },
        Some(FileContent::Binary(bytes)) => Some(
            SyncWrite::Binary(vstd::slice::slice_to_vec(bytes.as_slice())),
        ),
        Some(FileContent::Text(new_text)) => {
            let empty = "";
            proof {
                reveal_strlit("");
            }
            assert(empty@ =~= Seq::<char>::empty());
            let old: &str = match &change.old_content {
                Some(FileContent::Text(s)) => s.as_str(),
                _ => empty,
            };
            assert(old@ == old_text(opt_content(change.old_content)));
            proof {
                if old@.len() == 0 && new_text@.len() == 0 {
                    assert(old@ =~= new_text@);
                }
            }
            let patch = generate_patch(Some(old), Some(new_text.as_str()));
            let chars = chars_of(patch.as_str());
            let ls = split_lines(&chars);
            if ls.len() <= 2 {
                None
            } else {
                Some(SyncWrite::Text(patch))
            }
        },
    };
    SyncStep { path: change.path.clone(), is_new, write }
}

/// The sync steps for the changed files, one per file, in order.
pub fn plan_sync(changes: &Vec<FileDiff>) -> (res: Vec<SyncStep>)
    ensures
        res.len() == changes.len(),
        forall|i: int| 0 <= i < changes.len() ==> (#[trigger] res[i]).path@ == changes[i].path@,
        forall|i: int| 0 <= i < changes.len() ==> step_for(#[trigger] res[i], changes[i]),
        forall|i: int| 0 <= i < changes.len() ==> restores_new_text(#[trigger] res[i], changes[i]),
        forall|i: int| 0 <= i < changes.len() ==> records_text_change(#[trigger] res[i], changes[i]),
{
    let mut out: Vec<SyncStep> = Vec::new();
    for i in 0..changes.len()
        invariant
            out.len() == i,
            forall|k: int| 0 <= k < i ==> (#[trigger] out[k]).path@ == changes[k].path@,
            forall|k: int| 0 <= k < i ==> step_for(#[trigger] out[k], changes[k]),
            forall|k: int| 0 <= k < i ==> restores_new_text(#[trigger] out[k], changes[k]),
            forall|k: int| 0 <= k < i ==> records_text_change(#[trigger] out[k], changes[k]),
    {
        let step = plan_step(&changes[i]);
        out.push(step);
    }
    out
}

/// Some step of `steps` writes a record for `path`.
pub open spec fn written(steps: Seq<SyncStep>, path: Seq<char>) -> bool {
    exists|i: int| 0 <= i < steps.len() && steps[i].write is Some && #[trigger] steps[i].path@ == path
}

/// The paths of the steps that write a record, in order.
pub open spec fn written_paths(steps: Seq<SyncStep>) -> Seq<Seq<char>>
    decreases steps.len(),
{
    if steps.len() == 0 {
        seq![]
    } else {
        let rest = written_paths(steps.drop_last());
        if steps.last().write is Some {
            rest.push(steps.last().path@)
        } else {
            rest
        }
    }
}

/// `s` with each value kept at its first occurrence only.
pub open spec fn first_occurrences(s: Seq<Seq<char>>) -> Seq<Seq<char>>
    decreases s.len(),
{
    if s.len() == 0 {
        seq![]
    } else {
        let rest = first_occurrences(s.drop_last());
        if rest.contains(s.last()) {
            rest
        } else {
            rest.push(s.last())
        }
    }
}

/// The paths for which `steps` write a record, each once, in the order of
/// their first step.
pub fn processed_paths(steps: &Vec<SyncStep>) -> (res: Vec<String>)
    ensures
        res@.map_values(|s: String| s@) == first_occurrences(written_paths(steps@)),
        forall|k: int| 0 <= k < res.len() ==> written(steps@, #[trigger] res[k]@),
        forall|i: int|
            0 <= i < steps.len() && (#[trigger] steps[i]).write is Some ==> exists|k: int|
                0 <= k < res.len() && #[trigger] res[k]@ == steps[i].path@,
        forall|k1: int, k2: int| 0 <= k1 < k2 < res.len() ==> res[k1]@ != res[k2]@,
{
    let mut out: Vec<String> = Vec::new();
    for i in 0..steps.len()
        invariant
            out@.map_values(|s: String| s@) == first_occurrences(
                written_paths(steps@.take(i as int)),
            ),
            forall|k: int| 0 <= k < out.len() ==> written(steps@, #[trigger] out[k]@),
            forall|j: int|
                0 <= j < i && (#[trigger] steps[j]).write is Some ==> exists|k: int|
                    0 <= k < out.len() && #[trigger] out[k]@ == steps[j].path@,
            forall|k1: int, k2: int| 0 <= k1 < k2 < out.len() ==> out[k1]@ != out[k2]@,
    {
        let ghost prefix = steps@.take(i as int);
        let ghost next = steps@.take(i + 1);
        let ghost seen = out@.map_values(|s: String| s@);
        proof {
            assert(next.drop_last() =~= prefix);
            assert(next.last() == steps@[i as int]);
        }
        if steps[i].write.is_some() {
            let mut found = false;
            for k in 0..out.len()
                invariant
                    i < steps.len(),
                    seen == out@.map_values(|s: String| s@),
                    found ==> exists|m: int| 0 <= m < out.len() && #[trigger] out[m]@ == steps[i as int].path@,
                    !found ==> forall|m: int| 0 <= m < k ==> #[trigger] out[m]@ != steps[i as int].path@,
            {
                if out[k] == steps[i].path {
                    found = true;
                }
            }
            proof {
                assert(written_paths(next) == written_paths(prefix).push(steps@[i as int].path@));
                let w = written_paths(next);
                assert(w.drop_last() =~= written_paths(prefix));
                if found {
                    let m = choose|m: int| 0 <= m < out.len() && #[trigger] out[m]@ == steps[i as int].path@;
                    assert(seen[m] == steps@[i as int].path@);
                } else {
                    assert forall|m: int| 0 <= m < seen.len() implies seen[m] != steps@[i as int].path@ by {
                        assert(seen[m] == out[m]@);
                    }
                }
            }
            if !found {
                let ghost old_out = out@;
                out.push(steps[i].path.clone());
                assert(out[out.len() - 1]@ == steps[i as int].path@);
                assert(forall|m: int| 0 <= m < old_out.len() ==> out[m] == old_out[m]);
                assert(out@.map_values(|s: String| s@) =~= seen.push(steps@[i as int].path@));
            }
        } else {
            assert(written_paths(next) == written_paths(prefix));
        }
    }
    assert(steps@.take(steps.len() as int) =~= steps@);
    out
}

/// The path of a record.
fn entry_path(e: &PatchEntry) -> (res: &String)
    ensures
        res@ == e@.path(),
{
    match e {
        PatchEntry::TextPatch(p) => p,
        PatchEntry::Binary(p) => p,
        PatchEntry::Deleted(p) => p,
    }
}

/// A copy of a record.
fn copy_entry(e: &PatchEntry) -> (res: PatchEntry)
    ensures
        res@ == e@,
{
    match e {
        PatchEntry::TextPatch(p) => PatchEntry::TextPatch(p.clone()),
        PatchEntry::Binary(p) => PatchEntry::Binary(p.clone()),
        PatchEntry::Deleted(p) => PatchEntry::Deleted(p.clone()),
    }
}

/// The records of `existing`, in order, whose file is not among
/// `processed`.
pub open spec fn spec_stale_entries(existing: Seq<EntryView>, processed: Seq<Seq<char>>) -> Seq<
    EntryView,
> {
    existing.filter(|e: EntryView| !processed.contains(e.path()))
}

/// The records, in order, whose file is not among `processed`: those that
/// no longer stand for a change.
pub fn stale_entries(existing: &Vec<PatchEntry>, processed: &Vec<String>) -> (res: Vec<PatchEntry>)
    ensures
        res@.map_values(|e: PatchEntry| e@) == spec_stale_entries(
            existing@.map_values(|e: PatchEntry| e@),
            processed@.map_values(|s: String| s@),
        ),
{
    let ghost done = processed@.map_values(|s: String| s@);
    let ghost pred = |e: EntryView| !done.contains(e.path());
    let mut out: Vec<PatchEntry> = Vec::new();
    for i in 0..existing.len()
        invariant
            done == processed@.map_values(|s: String| s@),
            pred == (|e: EntryView| !done.contains(e.path())),
            out@.map_values(|e: PatchEntry| e@) == existing@.take(i as int).map_values(
                |e: PatchEntry| e@,
            ).filter(pred),
    {
        let p = entry_path(&existing[i]);
        let mut found = false;
        for k in 0..processed.len()
            invariant
                done == processed@.map_values(|s: String| s@),
                p@ == existing[i as int]@.path(),
                found ==> done.contains(p@),
                !found ==> forall|m: int| 0 <= m < k ==> processed[m]@ != p@,
        {
            if processed[k] == *p {
                assert(done[k as int] == p@);
                found = true;
            }
        }
        if !found {
            assert forall|m: int| 0 <= m < done.len() implies done[m] != p@ by {
                assert(done[m] == processed[m]@);
            }
        }
        let ghost before = existing@.take(i as int).map_values(|e: PatchEntry| e@);
        let ghost after = existing@.take(i + 1).map_values(|e: PatchEntry| e@);
        proof {
            assert(after =~= before.push(existing[i as int]@));
            before.lemma_filter_push(existing[i as int]@, pred);
        }
        if !found {
            let ghost old_out = out@;
            out.push(copy_entry(&existing[i]));
            assert(out@.map_values(|e: PatchEntry| e@) =~= old_out.map_values(|e: PatchEntry| e@).push(
                existing[i as int]@,
            ));
        }
    }
    assert(existing@.take(existing.len() as int) =~= existing@);
    out
}

/// Sync law: the step for a change is about the change's own file: the
/// same path, whatever separators it holds, and it is new exactly when
/// upstream lacks the file.
pub proof fn lemma_step_keeps_path(step: SyncStep, change: FileDiff)
    requires
        step_for(step, change),
    ensures
        step.path@ == change.path@,
        step.is_new == (change.old_content is None),
{
}

/// Stale-record law: the stale records are exactly the existing records,
/// of whatever kind, whose file is not among the processed paths; there
/// are no more of them than records, and when no record's file was
/// processed they are all the records, in their order.
pub proof fn lemma_stale_entries(existing: Seq<EntryView>, processed: Seq<Seq<char>>)
    ensures
        forall|e: EntryView|
            #![trigger spec_stale_entries(existing, processed).contains(e)]
            spec_stale_entries(existing, processed).contains(e) <==> (existing.contains(e)
                && !processed.contains(e.path())),
        spec_stale_entries(existing, processed).len() <= existing.len(),
        (forall|i: int| 0 <= i < existing.len() ==> !processed.contains(#[trigger] existing[i].path()))
            ==> spec_stale_entries(existing, processed) == existing,
{
    broadcast use vstd::seq_lib::group_filter_ensures;

    let pred = |e: EntryView| !processed.contains(e.path());
    let st = spec_stale_entries(existing, processed);
    assert(st == existing.filter(pred));
    assert forall|e: EntryView| st.contains(e) <==> (existing.contains(e) && !processed.contains(
        e.path(),
    )) by {
        if st.contains(e) {
            existing.lemma_filter_contains_rev(pred, e);
            let k = choose|k: int| 0 <= k < st.len() && st[k] == e;
            assert(pred(st[k]));
        }
        if existing.contains(e) && !processed.contains(e.path()) {
            let k = choose|k: int| 0 <= k < existing.len() && existing[k] == e;
            assert(pred(existing[k]));
        }
    }
    if forall|i: int| 0 <= i < existing.len() ==> !processed.contains(#[trigger] existing[i].path()) {
        lemma_filter_keeps_all(existing, pred);
    }
}

/// Stale-record law, over two lists of records: the stale records of
/// the records of one list followed by another are those of the first
/// followed by those of the second; and a single record is stale exactly
/// when its file was not processed, whatever its kind. Together these fix
/// the stale records of every list: its records, in order, minus those
/// whose file was processed.
pub proof fn lemma_stale_entries_structure(
    first: Seq<EntryView>,
    second: Seq<EntryView>,
    e: EntryView,
    processed: Seq<Seq<char>>,
)
    ensures
        spec_stale_entries(first + second, processed) == spec_stale_entries(first, processed)
            + spec_stale_entries(second, processed),
        spec_stale_entries(seq![e], processed) == (if processed.contains(e.path()) {
            Seq::<EntryView>::empty()
        } else {
            seq![e]
        }),
{
    let pred = |x: EntryView| !processed.contains(x.path());
    Seq::filter_distributes_over_add(first, second, pred);
    let one = seq![e];
    reveal(Seq::filter);
    assert(spec_stale_entries(one, processed) == one.filter(pred));
    assert(one.drop_last() =~= Seq::<EntryView>::empty());
    assert(Seq::<EntryView>::empty().filter(pred) =~= Seq::<EntryView>::empty());
    assert(one.last() == e);
    assert(one.filter(pred) == (if pred(e) {
        one.drop_last().filter(pred).push(e)
    } else {
        one.drop_last().filter(pred)
    }));
    if !processed.contains(e.path()) {
        assert(Seq::<EntryView>::empty().push(e) =~= one);
    }
}

/// Filtering by a predicate that every element meets keeps the sequence.
proof fn lemma_filter_keeps_all(s: Seq<EntryView>, pred: spec_fn(EntryView) -> bool)
    requires
        forall|i: int| 0 <= i < s.len() ==> pred(#[trigger] s[i]),
    ensures
        s.filter(pred) == s,
    decreases s.len(),
{
    if s.len() > 0 {
        let init = s.drop_last();
        assert forall|i: int| 0 <= i < init.len() implies pred(#[trigger] init[i]) by {
            assert(init[i] == s[i]);
        }
        lemma_filter_keeps_all(init, pred);
        assert(pred(s[s.len() - 1]));
        init.lemma_filter_push(s.last(), pred);
        assert(init.push(s.last()) =~= s);
    }
}

} // verus!
