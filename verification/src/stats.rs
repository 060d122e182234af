//! Statistics over the patch store: how many files the fork adds,
//! modifies and deletes.
use vstd::prelude::*;

use crate::patch::{EntryView, PatchEntry};
use crate::text::{
    chars_of, contains_seq, has_infix, has_prefix, is_prefix, lines, occurs_at, split_lines,
};

verus! {

/// Whether a text patch creates its file or changes an existing one.
#[derive(Debug, Clone, Copy, PartialEq, Eq, Structural)]
pub enum TextPatchType {
    Added,
    Modified,
}

/// `@@`, the start of a hunk header.
pub open spec fn hunk_header_start() -> Seq<char> {
    seq!['@', '@']
}

/// `-0,0`, the old range of a hunk against an empty file.
pub open spec fn empty_old_range() -> Seq<char> {
    seq!['-', '0', ',', '0']
}

/// The first line among `ls` that is a hunk header.
pub open spec fn first_hunk_header(ls: Seq<Seq<char>>) -> Option<Seq<char>>
    decreases ls.len(),
{
    if ls.len() == 0 {
        None
    } else if is_prefix(hunk_header_start(), ls[0]) {
        Some(ls[0])
    } else {
        first_hunk_header(ls.drop_first())
    }
}

/// A text patch creates its file when its first hunk header has the old
/// range `-0,0`; without any hunk header it counts as a modification.
pub open spec fn spec_classify_text_patch(content: Seq<char>) -> TextPatchType {
    match first_hunk_header(lines(content)) {
        Some(h) => if contains_seq(h, empty_old_range()) {
            TextPatchType::Added
        } else {
            TextPatchType::Modified
        },
        None => TextPatchType::Modified,
    }
}

/// Whether the text patch `content` creates its file.
pub fn classify_text_patch(content: &str) -> (res: TextPatchType)
    ensures
        res == spec_classify_text_patch(content@),
{
    proof {
        reveal_strlit("@@");
        reveal_strlit("-0,0");
    }
    let header_start = chars_of("@@");
    let empty_range = chars_of("-0,0");
    assert(header_start@ =~= hunk_header_start());
    assert(empty_range@ =~= empty_old_range());
    let chars = chars_of(content);
    let ls = split_lines(&chars);
    let ghost all = lines(content@);
    assert(all.skip(0) =~= all);
    for i in 0..ls.len()
        invariant
            ls.len() == all.len(),
            all == lines(content@),
            forall|k: int| 0 <= k < ls.len() ==> #[trigger] ls[k]@ == all[k],
            header_start@ == hunk_header_start(),
            empty_range@ == empty_old_range(),
            first_hunk_header(all) == first_hunk_header(all.skip(i as int)),
    {
        let ghost rest = all.skip(i as int);
        assert(rest[0] == ls[i as int]@);
        if has_prefix(&ls[i], &header_start) {
            if has_infix(&ls[i], &empty_range) {
                return TextPatchType::Added;
            }
            return TextPatchType::Modified;
        }
        assert(rest.drop_first() =~= all.skip(i + 1));
    }
    assert(all.skip(ls.len() as int).len() == 0);
    TextPatchType::Modified
}

/// The line opens a hunk: it starts with `@@`.
pub open spec fn opens_hunk(l: Seq<char>) -> bool {
    l.len() >= 2 && l[0] == '@' && l[1] == '@'
}

/// The line holds `-0,0` starting at index `k`.
pub open spec fn empty_old_range_at(l: Seq<char>, k: int) -> bool {
    0 <= k && k + 4 <= l.len() && l[k] == '-' && l[k + 1] == '0' && l[k + 2] == ',' && l[k + 3]
        == '0'
}

/// `first_hunk_header` gives the first line that opens a hunk, if any.
proof fn lemma_first_hunk_header(ls: Seq<Seq<char>>)
    ensures
        match first_hunk_header(ls) {
            Some(h) => exists|i: int|
                0 <= i < ls.len() && ls[i] == h && opens_hunk(ls[i]) && forall|j: int|
                    0 <= j < i ==> !opens_hunk(#[trigger] ls[j]),
            None => forall|j: int| 0 <= j < ls.len() ==> !opens_hunk(#[trigger] ls[j]),
        },
    decreases ls.len(),
{
    if ls.len() > 0 {
        let l = ls[0];
        if l.len() >= 2 {
            assert(l.take(2) =~= seq![l[0], l[1]]);
        }
        if is_prefix(hunk_header_start(), l) {
            assert(l.take(2)[0] == l[0] && l.take(2)[1] == l[1]);
            assert(opens_hunk(ls[0]));
        } else {
            assert(!opens_hunk(ls[0]));
            lemma_first_hunk_header(ls.drop_first());
            let rest = ls.drop_first();
            match first_hunk_header(rest) {
                Some(h) => {
                    let i = choose|i: int|
                        0 <= i < rest.len() && rest[i] == h && opens_hunk(rest[i]) && forall|j: int|
                            0 <= j < i ==> !opens_hunk(#[trigger] rest[j]);
                    assert(ls[i + 1] == rest[i]);
                    assert forall|j: int| 0 <= j < i + 1 implies !opens_hunk(#[trigger] ls[j]) by {
                        if j > 0 {
                            assert(ls[j] == rest[j - 1]);
                        }
                    }
                },
                None => {
                    assert forall|j: int| 0 <= j < ls.len() implies !opens_hunk(#[trigger] ls[j]) by {
                        if j > 0 {
                            assert(ls[j] == rest[j - 1]);
                        }
                    }
                },
            }
        }
    }
}

/// Classification law: a text patch counts as adding its file exactly
/// when the first of its lines that starts with `@@` holds `-0,0`
/// somewhere; every other patch, one without such a line included, counts
/// as modifying its file.
pub proof fn lemma_classification(content: Seq<char>)
    ensures
        (spec_classify_text_patch(content) == TextPatchType::Added) <==> exists|i: int, k: int|
            0 <= i < lines(content).len() && opens_hunk(lines(content)[i]) && (forall|j: int|
                0 <= j < i ==> !opens_hunk(#[trigger] lines(content)[j])) && empty_old_range_at(
                lines(content)[i],
                k,
            ),
        (spec_classify_text_patch(content) == TextPatchType::Modified) || (spec_classify_text_patch(
            content,
        ) == TextPatchType::Added),
{
    let ls = lines(content);
    lemma_first_hunk_header(ls);
    match first_hunk_header(ls) {
        Some(h) => {
            let i0 = choose|i: int|
                0 <= i < ls.len() && ls[i] == h && opens_hunk(ls[i]) && forall|j: int|
                    0 <= j < i ==> !opens_hunk(#[trigger] ls[j]);
            if contains_seq(h, empty_old_range()) {
                let k = choose|k: int| occurs_at(h, empty_old_range(), k);
                let sub = h.subrange(k, k + 4);
                assert(sub[0] == h[k] && sub[1] == h[k + 1] && sub[2] == h[k + 2] && sub[3] == h[k
                    + 3]);
                assert(empty_old_range_at(ls[i0], k));
            } else {
                assert forall|i: int, k: int|
                    0 <= i < ls.len() && opens_hunk(ls[i]) && (forall|j: int|
                        0 <= j < i ==> !opens_hunk(#[trigger] ls[j])) implies !empty_old_range_at(
                    ls[i],
                    k,
                ) by {
                    if i < i0 {
                        assert(!opens_hunk(ls[i]));
                    } else if i > i0 {
                        assert(!opens_hunk(ls[i0]));
                    }
                    if empty_old_range_at(ls[i], k) {
                        assert(h.subrange(k, k + 4) =~= empty_old_range());
                        assert(occurs_at(h, empty_old_range(), k));
                    }
                }
            }
        },
        None => {},
    }
}

/// What a record of the store counts as.
#[derive(Debug, Clone, Copy, PartialEq, Eq, Structural)]
pub enum EntryClass {
    TextAdded,
    TextModified,
    Binary,
    Deleted,
}

/// The class of a record; a text patch is classified by its content.
/// Binary copies always count as added files.
pub open spec fn spec_entry_class(entry: EntryView, patch_content: Seq<char>) -> EntryClass {
    match entry {
        EntryView::TextPatch(_) => match spec_classify_text_patch(patch_content) {
            TextPatchType::Added => EntryClass::TextAdded,
            TextPatchType::Modified => EntryClass::TextModified,
        },
        EntryView::Binary(_) => EntryClass::Binary,
        EntryView::Deleted(_) => EntryClass::Deleted,
    }
}

/// The class of a record; `patch_content` is the content of a text patch
/// and is needed only for one.
pub fn classify_entry(entry: &PatchEntry, patch_content: Option<&str>) -> (res: EntryClass)
    requires
        entry@ is TextPatch ==> patch_content is Some,
    ensures
        entry@ is TextPatch ==> res == spec_entry_class(entry@, patch_content->0@),
        !(entry@ is TextPatch) ==> res == spec_entry_class(entry@, Seq::empty()),
{
    match entry {
        PatchEntry::TextPatch(_) => {
            let content = match patch_content {
                Some(c) => c,
                None => "",
            };
            match classify_text_patch(content) {
                TextPatchType::Added => EntryClass::TextAdded,
                TextPatchType::Modified => EntryClass::TextModified,
            }
        },
        PatchEntry::Binary(_) => EntryClass::Binary,
        PatchEntry::Deleted(_) => EntryClass::Deleted,
    }
}

/// How many of `classes` are `c`.
pub open spec fn count_class(classes: Seq<EntryClass>, c: EntryClass) -> nat
    decreases classes.len(),
{
    if classes.len() == 0 {
        0
    } else {
        count_class(classes.drop_last(), c) + if classes.last() == c {
            1nat
        } else {
            0nat
        }
    }
}

/// Counts of the records in the store.
#[derive(Debug, Clone, Copy)]
pub struct PatchStats {
    pub text_added: usize,
    pub text_modified: usize,
    pub binary_added: usize,
    pub deleted: usize,
    /// Files added: text patches that create their file, and binary copies.
    pub total_added: usize,
    /// Files modified: text patches of existing files.
    pub total_modified: usize,
    /// All records.
    pub total: usize,
}

/// Statistics law: every record is counted exactly once as an added,
/// modified or deleted file.
pub proof fn lemma_classes_partition(classes: Seq<EntryClass>)
    ensures
        count_class(classes, EntryClass::TextAdded) + count_class(classes, EntryClass::Binary)
            + count_class(classes, EntryClass::TextModified) + count_class(
            classes,
            EntryClass::Deleted,
        ) == classes.len(),
    decreases classes.len(),
{
    if classes.len() > 0 {
        lemma_classes_partition(classes.drop_last());
    }
}

/// The counts of each class among `classes`.
pub fn tally(classes: &Vec<EntryClass>) -> (res: PatchStats)
    ensures
        res.text_added == count_class(classes@, EntryClass::TextAdded),
        res.text_modified == count_class(classes@, EntryClass::TextModified),
        res.binary_added == count_class(classes@, EntryClass::Binary),
        res.deleted == count_class(classes@, EntryClass::Deleted),
        res.total_added == res.text_added + res.binary_added,
        res.total_modified == res.text_modified,
        res.total == classes.len(),
        res.total == res.total_added + res.total_modified + res.deleted,
{
    let mut text_added: usize = 0;
    let mut text_modified: usize = 0;
    let mut binary_added: usize = 0;
    let mut deleted: usize = 0;
    for i in 0..classes.len()
        invariant
            text_added == count_class(classes@.take(i as int), EntryClass::TextAdded),
            text_modified == count_class(classes@.take(i as int), EntryClass::TextModified),
            binary_added == count_class(classes@.take(i as int), EntryClass::Binary),
            deleted == count_class(classes@.take(i as int), EntryClass::Deleted),
            text_added + text_modified + binary_added + deleted == i,
    {
        proof {
            assert(classes@.take(i + 1).drop_last() =~= classes@.take(i as int));
            lemma_classes_partition(classes@.take(i as int));
        }
        match classes[i] {
            EntryClass::TextAdded => text_added = text_added + 1,
            EntryClass::TextModified => text_modified = text_modified + 1,
            EntryClass::Binary => binary_added = binary_added + 1,
            EntryClass::Deleted => deleted = deleted + 1,
        }
    }
    assert(classes@.take(classes.len() as int) =~= classes@);
    PatchStats {
        text_added,
        text_modified,
        binary_added,
        deleted,
        total_added: text_added + binary_added,
        total_modified: text_modified,
        total: classes.len(),
    }
}

} // verus!
