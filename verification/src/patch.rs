//! The patch store: where each changed file's record lives under
//! `patches/`, how a record's path leads back to the file, and the text
//! patches themselves, made and applied with `diffy`.
//!
//! Paths here are `/`-separated, joined and split the way `std::path`
//! joins and splits them on Unix.
use vstd::prelude::*;

use crate::text::{
    chars_of, concat, find_first, first_occurrence, has_prefix, has_suffix, is_prefix, is_suffix,
    lines, parse_usize, parsed_usize, slice_chars, split_lines, string_of, trim_end_all,
    trim_end_matches,
};

verus! {

/// Directory that holds all patch records.
pub const PATCHES_DIR: &'static str = "patches";

/// Extension of text patches.
const PATCH_EXT: &'static str = ".patch";

/// Extension of deleted-file markers.
const DELETED_EXT: &'static str = ".deleted";

// ---------------------------------------------------------------------------
// Path layout
// ---------------------------------------------------------------------------
/// `patches`
pub open spec fn patches_dir() -> Seq<char> {
    seq!['p', 'a', 't', 'c', 'h', 'e', 's']
}

/// `.patch`
pub open spec fn patch_ext() -> Seq<char> {
    seq!['.', 'p', 'a', 't', 'c', 'h']
}

/// `.deleted`
pub open spec fn deleted_ext() -> Seq<char> {
    seq!['.', 'd', 'e', 'l', 'e', 't', 'e', 'd']
}

/// `rel` joined onto `patches`: a path that starts at the root replaces
/// the directory, any other one goes below it.
pub open spec fn in_patches_dir(rel: Seq<char>) -> Seq<char> {
    if rel.len() > 0 && rel[0] == '/' {
        rel
    } else {
        patches_dir() + seq!['/'] + rel
    }
}

/// `s` without the separators and `.` components at its front, which a
/// path's remainder does not show.
pub open spec fn trim_front_components(s: Seq<char>) -> Seq<char>
    decreases s.len(),
{
    if s.len() > 0 && (s[0] == '/' || (s[0] == '.' && (s.len() == 1 || s[1] == '/'))) {
        trim_front_components(s.drop_first())
    } else {
        s
    }
}

/// `s` without the separators and `.` components at its back.
pub open spec fn trim_back_components(s: Seq<char>) -> Seq<char>
    decreases s.len(),
{
    if s.len() > 0 && (s.last() == '/' || (s.last() == '.' && (s.len() == 1 || s[s.len() - 2]
        == '/'))) {
        trim_back_components(s.drop_last())
    } else {
        s
    }
}

/// The part of `path` below `patches`, if `path` lies there
/// (`Path::strip_prefix`): its first component must be `patches`, and the
/// rest is shown without separators and `.` components at either end.
pub open spec fn below_patches_dir(path: Seq<char>) -> Option<Seq<char>> {
    if is_prefix(patches_dir(), path) && (path.len() == 7 || path[7] == '/') {
        Some(trim_back_components(trim_front_components(path.skip(7))))
    } else {
        None
    }
}

/// The file path that a text patch at `path` records.
pub open spec fn spec_file_path_from_patch(path: Seq<char>) -> Option<Seq<char>> {
    match below_patches_dir(path) {
        Some(r) => Some(trim_end_all(r, patch_ext())),
        None => None,
    }
}

/// The file path that a binary copy at `path` records.
pub open spec fn spec_file_path_from_binary(path: Seq<char>) -> Option<Seq<char>> {
    below_patches_dir(path)
}

/// The file path that a deleted-file marker at `path` records.
pub open spec fn spec_file_path_from_deleted(path: Seq<char>) -> Option<Seq<char>> {
    match below_patches_dir(path) {
        Some(r) => Some(trim_end_all(r, deleted_ext())),
        None => None,
    }
}

/// An optional string, by its characters.
pub open spec fn opt_chars(o: Option<String>) -> Option<Seq<char>> {
    match o {
        Some(s) => Some(s@),
        None => None,
    }
}

/// Builds `patches/<rel>` (or `rel` itself when it starts at the root).
fn join_patches_dir(rel: &str) -> (res: String)
    ensures
        res@ == in_patches_dir(rel@),
{
    let chars = chars_of(rel);
    if chars.len() > 0 && chars[0] == '/' {
        string_of(&chars)
    } else {
        proof {
            reveal_strlit("patches/");
        }
        concat("patches/", rel)
    }
}

/// Path of the text patch recorded for `file_path`.
pub fn patch_path_for_file(file_path: &str) -> (res: String)
    ensures
        res@ == in_patches_dir(file_path@ + patch_ext()),
{
    proof {
        reveal_strlit(".patch");
    }
    let rel = concat(file_path, PATCH_EXT);
    join_patches_dir(rel.as_str())
}

/// Path of the binary copy recorded for `file_path`.
pub fn binary_path_for_file(file_path: &str) -> (res: String)
    ensures
        res@ == in_patches_dir(file_path@),
{
    join_patches_dir(file_path)
}

/// Path of the deleted-file marker recorded for `file_path`.
pub fn deleted_path_for_file(file_path: &str) -> (res: String)
    ensures
        res@ == in_patches_dir(file_path@ + deleted_ext()),
{
    proof {
        reveal_strlit(".deleted");
    }
    let rel = concat(file_path, DELETED_EXT);
    join_patches_dir(rel.as_str())
}

/// The part of `path` below `patches`, if `path` lies there.
fn strip_patches_dir(path: &Vec<char>) -> (res: Option<Vec<char>>)
    ensures
        match res {
            Some(r) => below_patches_dir(path@) == Some(r@),
            None => below_patches_dir(path@) is None,
        },
{
    proof {
        reveal_strlit("patches");
    }
    let dir = chars_of(PATCHES_DIR);
    assert(dir@ =~= patches_dir());
    if !(has_prefix(path, &dir) && (path.len() == 7 || path[7] == '/')) {
        return None;
    }
    let n = path.len();
    let mut a: usize = 7;
    assert(path@.skip(7) =~= path@.subrange(7, n as int));
    while a < n && (path[a] == '/' || (path[a] == '.' && (a + 1 == n || path[a + 1] == '/')))
        invariant
            n == path.len(),
            7 <= a <= n,
            trim_front_components(path@.skip(7)) == trim_front_components(
                path@.subrange(a as int, n as int),
            ),
        decreases n - a,
    {
        assert(path@.subrange(a as int, n as int).drop_first() =~= path@.subrange(a + 1, n as int));
        a = a + 1;
    }
    let ghost front = path@.subrange(a as int, n as int);
    assert(trim_front_components(front) == front) by {
        if a < n {
            assert(front[0] == path@[a as int]);
            if n - a > 1 {
                assert(front[1] == path@[a + 1]);
            }
        }
    }
    let mut b: usize = n;
    while b > a && (path[b - 1] == '/' || (path[b - 1] == '.' && (b - 1 == a || path[b - 2]
        == '/')))
        invariant
            n == path.len(),
            7 <= a <= b <= n,
            front == path@.subrange(a as int, n as int),
            trim_back_components(front) == trim_back_components(
                path@.subrange(a as int, b as int),
            ),
        decreases b - a,
    {
        let ghost cur = path@.subrange(a as int, b as int);
        assert(cur.last() == path@[b - 1]);
        if b - a > 1 {
            assert(cur[cur.len() - 2] == path@[b - 2]);
        }
        assert(cur.drop_last() =~= path@.subrange(a as int, b - 1));
        b = b - 1;
    }
    let rest = slice_chars(path, a, b);
    assert(trim_back_components(rest@) == rest@) by {
        if b > a {
            assert(rest@.last() == path@[b - 1]);
            if b - a > 1 {
                assert(rest@[rest@.len() - 2] == path@[b - 2]);
            }
        }
    }
    Some(rest)
}

/// The file path that the text patch at `patch_path` records.
pub fn file_path_from_patch(patch_path: &str) -> (res: Option<String>)
    ensures
        opt_chars(res) == spec_file_path_from_patch(patch_path@),
{
    let path = chars_of(patch_path);
    match strip_patches_dir(&path) {
        Some(rest) => {
            proof {
                reveal_strlit(".patch");
            }
            let ext = chars_of(PATCH_EXT);
            assert(ext@ =~= patch_ext());
            let trimmed = trim_end_matches(&rest, &ext);
            Some(string_of(&trimmed))
        },
        None => None,
    }
}

/// The file path that the binary copy at `binary_path` records.
pub fn file_path_from_binary(binary_path: &str) -> (res: Option<String>)
    ensures
        opt_chars(res) == spec_file_path_from_binary(binary_path@),
{
    let path = chars_of(binary_path);
    match strip_patches_dir(&path) {
        Some(rest) => Some(string_of(&rest)),
        None => None,
    }
}

/// The file path that the deleted-file marker at `deleted_path` records.
pub fn file_path_from_deleted(deleted_path: &str) -> (res: Option<String>)
    ensures
        opt_chars(res) == spec_file_path_from_deleted(deleted_path@),
{
    let path = chars_of(deleted_path);
    match strip_patches_dir(&path) {
        Some(rest) => {
            proof {
                reveal_strlit(".deleted");
            }
            let ext = chars_of(DELETED_EXT);
            assert(ext@ =~= deleted_ext());
            let trimmed = trim_end_matches(&rest, &ext);
            Some(string_of(&trimmed))
        },
        None => None,
    }
}

// ---------------------------------------------------------------------------
// Entries of the store
// ---------------------------------------------------------------------------
/// One record of the store, named by the file it is about.
#[derive(Debug, Clone, PartialEq)]
pub enum PatchEntry {
    TextPatch(String),
    Binary(String),
    Deleted(String),
}

/// A record of the store, by its kind and file path.
pub enum EntryView {
    TextPatch(Seq<char>),
    Binary(Seq<char>),
    Deleted(Seq<char>),
}

impl EntryView {
    /// The file path the record is about.
    pub open spec fn path(self) -> Seq<char> {
        match self {
            EntryView::TextPatch(p) => p,
            EntryView::Binary(p) => p,
            EntryView::Deleted(p) => p,
        }
    }
}

impl View for PatchEntry {
    type V = EntryView;

    open spec fn view(&self) -> EntryView {
        match self {
            PatchEntry::TextPatch(p) => EntryView::TextPatch(p@),
            PatchEntry::Binary(p) => EntryView::Binary(p@),
            PatchEntry::Deleted(p) => EntryView::Deleted(p@),
        }
    }
}

impl PatchEntry {
    /// The file path the record is about.
    pub fn file_path(&self) -> (res: &str)
        ensures
            res@ == self@.path(),
    {
        match self {
            PatchEntry::TextPatch(p) => p.as_str(),
            PatchEntry::Binary(p) => p.as_str(),
            PatchEntry::Deleted(p) => p.as_str(),
        }
    }
}

/// The record that a file found at `path` in the store stands for: a text
/// patch for `.patch`, a deletion marker for `.deleted`, a binary copy
/// otherwise.
pub open spec fn spec_entry_for_path(path: Seq<char>) -> Option<EntryView> {
    if is_suffix(patch_ext(), path) {
        match spec_file_path_from_patch(path) {
            Some(f) => Some(EntryView::TextPatch(f)),
            None => None,
        }
    } else if is_suffix(deleted_ext(), path) {
        match spec_file_path_from_deleted(path) {
            Some(f) => Some(EntryView::Deleted(f)),
            None => None,
        }
    } else {
        match spec_file_path_from_binary(path) {
            Some(f) => Some(EntryView::Binary(f)),
            None => None,
        }
    }
}

/// An optional entry, by its view.
pub open spec fn opt_entry(o: Option<PatchEntry>) -> Option<EntryView> {
    match o {
        Some(e) => Some(e@),
        None => None,
    }
}

/// The record that the file at `path`, found in the store, stands for.
pub fn entry_for_path(path: &str) -> (res: Option<PatchEntry>)
    ensures
        opt_entry(res) == spec_entry_for_path(path@),
{
    let chars = chars_of(path);
    proof {
        reveal_strlit(".patch");
        reveal_strlit(".deleted");
    }
    let patch_ext_chars = chars_of(PATCH_EXT);
    let deleted_ext_chars = chars_of(DELETED_EXT);
    assert(patch_ext_chars@ =~= patch_ext());
    assert(deleted_ext_chars@ =~= deleted_ext());
    if has_suffix(&chars, &patch_ext_chars) {
        match file_path_from_patch(path) {
            Some(f) => Some(PatchEntry::TextPatch(f)),
            None => None,
        }
    } else if has_suffix(&chars, &deleted_ext_chars) {
        match file_path_from_deleted(path) {
            Some(f) => Some(PatchEntry::Deleted(f)),
            None => None,
        }
    } else {
        match file_path_from_binary(path) {
            Some(f) => Some(PatchEntry::Binary(f)),
            None => None,
        }
    }
}

/// The file paths of the text patches among `entries`, in order.
pub open spec fn text_patch_paths(entries: Seq<EntryView>) -> Seq<Seq<char>>
    decreases entries.len(),
{
    if entries.len() == 0 {
        seq![]
    } else {
        let rest = text_patch_paths(entries.drop_last());
        match entries.last() {
            EntryView::TextPatch(p) => rest.push(p),
            _ => rest,
        }
    }
}

/// The file paths of the text patches among `entries`, in order.
pub fn list_patches(entries: &Vec<PatchEntry>) -> (res: Vec<String>)
    ensures
        res@.map_values(|s: String| s@) == text_patch_paths(entries@.map_values(|e: PatchEntry| e@)),
{
    let mut out: Vec<String> = Vec::new();
    for i in 0..entries.len()
        invariant
            out@.map_values(|s: String| s@) == text_patch_paths(
                entries@.take(i as int).map_values(|e: PatchEntry| e@),
            ),
    {
        let ghost before = entries@.take(i as int).map_values(|e: PatchEntry| e@);
        let ghost after = entries@.take(i + 1).map_values(|e: PatchEntry| e@);
        assert(after.drop_last() =~= before);
        assert(after.last() == entries@[i as int]@);
        match &entries[i] {
            PatchEntry::TextPatch(p) => {
                let ghost old_out = out@;
                out.push(p.clone());
                assert(out@.map_values(|s: String| s@) =~= old_out.map_values(|s: String| s@).push(
                    p@,
                ));
            },
            _ => {},
        }
    }
    assert(entries@.take(entries.len() as int) =~= entries@);
    out
}

// ---------------------------------------------------------------------------
// Making and applying text patches
// ---------------------------------------------------------------------------
#[verifier::external_type_specification]
#[verifier::external_body]
pub struct ExParsePatchError(diffy::ParsePatchError);

#[verifier::external_type_specification]
#[verifier::external_body]
pub struct ExApplyError(diffy::ApplyError);

/// The text of the unified diff that `diffy::create_patch` makes from
/// `original` to `modified`, as its `Display` impl renders it.
pub uninterp spec fn diffy_patch_text(original: Seq<char>, modified: Seq<char>) -> Seq<char>;

/// Whether `diffy::Patch::from_str` accepts `patch_text`.
pub uninterp spec fn diffy_parses(patch_text: Seq<char>) -> bool;

/// What `diffy::apply` makes of `base` with the patch parsed from
/// `patch_text`; `None` when a hunk does not fit.
pub uninterp spec fn diffy_applied(base: Seq<char>, patch_text: Seq<char>) -> Option<Seq<char>>;

/// Calls `diffy::create_patch(original, modified)` and renders the patch
/// with `to_string`. Claimed of it:
/// - the text is `diffy_patch_text` of the two inputs, `diffy::Patch::from_str`
///   accepts it, and `diffy::apply` with it turns `original` into
///   `modified` (the round trip that diffy's own test suite asserts for
///   every patch it makes);
/// - its lines are the header `--- original` and `+++ modified`, then the
///   hunks, each a header `@@ -<old> +<new> @@` and body lines that start
///   with ` `, `-`, `+` or `\`; so the only lines starting with `@@ ` are
///   the hunk headers, whose ranges count lines of the two texts and end
///   well within `usize`;
/// - from an empty original to a non-empty text, the third line starts
///   with `@@ -0,0` (the Myers diff of no lines against some is one
///   insertion, whose hunk has no context, and `HunkRange` shows an empty
///   range at 0 as `0,0`);
/// - from a non-empty original, no line starts with `@@ -0,0`: with three
///   lines of context a hunk against a non-empty text holds at least one
///   old line, so its old range starts at line 1 or later;
/// - equal texts give the two header lines alone (the Myers diff of equal
///   lines has no edit, so no hunk), and different texts give at least one
///   hunk, so more than two lines.
/// Not claimed: what the text looks like otherwise.
#[verifier::external_body]
fn diffy_create_patch(original: &str, modified: &str) -> (res: String)
    ensures
        res@ == diffy_patch_text(original@, modified@),
        diffy_parses(res@),
        diffy_applied(original@, res@) == Some(modified@),
        spec_hunk_ranges_fit(res@),
        original@.len() == 0 && modified@.len() > 0 ==> lines(res@).len() > 2 && is_prefix(
            new_file_hunk_start(),
            lines(res@)[2],
        ),
        original@.len() > 0 ==> !spec_is_new_file_patch(res@),
        original@ == modified@ ==> lines(res@).len() == 2,
        original@ != modified@ ==> lines(res@).len() > 2,
{
    diffy::create_patch(original, modified).to_string()
}

/// `@@ `, how a hunk header starts.
pub open spec fn header_open() -> Seq<char> {
    seq!['@', '@', ' ']
}

/// ` @@`, what closes the ranges of a hunk header.
pub open spec fn header_close() -> Seq<char> {
    seq![' ', '@', '@']
}

/// A hunk range `<start>[,<len>]` (a missing length is 1) whose end,
/// `start + len`, fits in `usize` whenever both numbers parse.
pub open spec fn range_end_fits(r: Seq<char>) -> bool {
    match first_occurrence(r, seq![',']) {
        Some(k) => match (parsed_usize(r.take(k)), parsed_usize(r.skip(k + 1))) {
            (Some(a), Some(b)) => a + b <= usize::MAX,
            _ => true,
        },
        None => match parsed_usize(r) {
            Some(a) => a + 1 <= usize::MAX,
            None => true,
        },
    }
}

/// A line read the way `diffy` reads a hunk header,
/// `@@ -<old range> +<new range> @@<anything>`: each of the two ranges that
/// parses has an end that fits in `usize`. Lines of any other form are
/// not constrained.
pub open spec fn header_ranges_fit(l: Seq<char>) -> bool {
    is_prefix(header_open(), l) ==> match first_occurrence(l.skip(3), header_close()) {
        Some(k) => match first_occurrence(l.skip(3).take(k), seq![' ']) {
            Some(m) => {
                let r1 = l.skip(3).take(k).take(m);
                let r2 = l.skip(3).take(k).skip(m + 1);
                &&& (r1.len() > 0 && r1[0] == '-' ==> range_end_fits(r1.drop_first()))
                &&& (r2.len() > 0 && r2[0] == '+' ==> range_end_fits(r2.drop_first()))
            },
            None => true,
        },
        None => true,
    }
}

/// Every hunk range of the patch ends within `usize`: for every line
/// that `diffy` would read as a hunk header, `start + len` fits. `diffy`
/// adds the two when it checks the order of the hunks, and that addition
/// overflows for a range that ends beyond `usize::MAX`.
pub open spec fn spec_hunk_ranges_fit(patch_text: Seq<char>) -> bool {
    forall|i: int|
        0 <= i < lines(patch_text).len() ==> #[trigger] header_ranges_fit(lines(patch_text)[i])
}

/// Whether the range `r` ends within `usize` (see `range_end_fits`).
fn range_fits(r: &Vec<char>) -> (res: bool)
    ensures
        res == range_end_fits(r@),
{
    let comma: Vec<char> = vec![','];
    assert(comma@ =~= seq![',']);
    match find_first(r, &comma) {
        Some(k) => {
            assert(comma@.len() == 1);
            assert(k + 1 <= r.len());
            let start = slice_chars(r, 0, k);
            let len = slice_chars(r, k + 1, r.len());
            assert(start@ =~= r@.take(k as int));
            assert(len@ =~= r@.skip(k + 1));
            match (parse_usize(&start), parse_usize(&len)) {
                (Some(a), Some(b)) => a.checked_add(b).is_some(),
                _ => true,
            }
        },
        None => match parse_usize(r) {
            Some(a) => a < usize::MAX,
            None => true,
        },
    }
}

/// Whether the line `l` meets `header_ranges_fit`.
fn header_fits(l: &Vec<char>) -> (res: bool)
    ensures
        res == header_ranges_fit(l@),
{
    let open: Vec<char> = vec!['@', '@', ' '];
    let close: Vec<char> = vec![' ', '@', '@'];
    let space: Vec<char> = vec![' '];
    assert(open@ =~= header_open());
    assert(close@ =~= header_close());
    assert(space@ =~= seq![' ']);
    if !has_prefix(l, &open) {
        return true;
    }
    let rest = slice_chars(l, 3, l.len());
    assert(rest@ =~= l@.skip(3));
    let k = match find_first(&rest, &close) {
        Some(k) => k,
        None => return true,
    };
    let ranges = slice_chars(&rest, 0, k);
    assert(ranges@ =~= l@.skip(3).take(k as int));
    let m = match find_first(&ranges, &space) {
        Some(m) => m,
        None => return true,
    };
    let r1 = slice_chars(&ranges, 0, m);
    let r2 = slice_chars(&ranges, m + 1, ranges.len());
    assert(r1@ =~= ranges@.take(m as int));
    assert(r2@ =~= ranges@.skip(m + 1));
    let first_ok = if r1.len() > 0 && r1[0] == '-' {
        let body = slice_chars(&r1, 1, r1.len());
        assert(body@ =~= r1@.drop_first());
        range_fits(&body)
    } else {
        true
    };
    let second_ok = if r2.len() > 0 && r2[0] == '+' {
        let body = slice_chars(&r2, 1, r2.len());
        assert(body@ =~= r2@.drop_first());
        range_fits(&body)
    } else {
        true
    };
    first_ok && second_ok
}

/// Whether every hunk range of `patch_content` ends within `usize` (see
/// `spec_hunk_ranges_fit`); `apply_patch` asks for this.
pub fn hunk_ranges_fit(patch_content: &str) -> (res: bool)
    ensures
        res == spec_hunk_ranges_fit(patch_content@),
{
    let chars = chars_of(patch_content);
    let ls = split_lines(&chars);
    let ghost all = lines(patch_content@);
    for i in 0..ls.len()
        invariant
            all == lines(patch_content@),
            ls.len() == all.len(),
            forall|k: int| 0 <= k < ls.len() ==> #[trigger] ls[k]@ == all[k],
            forall|k: int| 0 <= k < i ==> #[trigger] header_ranges_fit(all[k]),
    {
        assert(ls[i as int]@ == all[i as int]);
        if !header_fits(&ls[i]) {
            return false;
        }
    }
    true
}

/// Parses `patch_text` with `diffy::Patch::from_str` and, when that
/// succeeds, applies the patch to `base` with `diffy::apply`. Claimed of
/// it: the outer result is `Ok` exactly when the text parses, and the
/// inner one is `diffy_applied` of the two texts. Not claimed: which
/// texts parse or what applying gives. Required: every hunk range ends
/// within `usize` (`spec_hunk_ranges_fit`), since `diffy` computes
/// `start + len` when it checks the order of the hunks and overflows
/// otherwise.
#[verifier::external_body]
fn diffy_apply(base: &str, patch_text: &str) -> (res: Result<
    Result<String, diffy::ApplyError>,
    diffy::ParsePatchError,
>)
    requires
        spec_hunk_ranges_fit(patch_text@),
    ensures
        res is Ok <==> diffy_parses(patch_text@),
        res matches Ok(r) ==> match r {
            Ok(s) => diffy_applied(base@, patch_text@) == Some(s@),
            Err(_) => diffy_applied(base@, patch_text@) is None,
        },
{
    match diffy::Patch::from_str(patch_text) {
        Ok(patch) => Ok(diffy::apply(base, &patch)),
        Err(e) => Err(e),
    }
}

/// Why a text patch could not be applied.
#[derive(Debug, Clone, Copy, PartialEq, Eq, Structural)]
pub enum PatchError {
    /// The patch text is not a unified diff.
    InvalidPatch,
    /// A hunk of the patch does not fit the text it is applied to.
    HunkRejected,
}

/// The outcome of applying `patch_text` to `base`.
pub open spec fn spec_apply_patch(base: Seq<char>, patch_text: Seq<char>) -> Result<
    Seq<char>,
    PatchError,
> {
    if !diffy_parses(patch_text) {
        Err(PatchError::InvalidPatch)
    } else {
        match diffy_applied(base, patch_text) {
            Some(s) => Ok(s),
            None => Err(PatchError::HunkRejected),
        }
    }
}

/// A text result, by its characters.
pub open spec fn result_chars(r: Result<String, PatchError>) -> Result<Seq<char>, PatchError> {
    match r {
        Ok(s) => Ok(s@),
        Err(e) => Err(e),
    }
}

/// The characters of an optional text, an absent one being empty.
pub open spec fn text_or_empty(o: Option<&str>) -> Seq<char> {
    match o {
        Some(s) => s@,
        None => Seq::empty(),
    }
}

/// The patch that turns `old_content` into `new_content`; an absent side
/// is the empty text. Applying the patch to the old text gives the new
/// one back, and it can be applied (its hunk ranges end within `usize`).
/// A patch from nothing to some text is one that creates its file, and a
/// patch from a non-empty text is not; a patch between equal texts is its
/// two header lines alone, and one between different texts is longer.
pub fn generate_patch(old_content: Option<&str>, new_content: Option<&str>) -> (res: String)
    ensures
        res@ == diffy_patch_text(text_or_empty(old_content), text_or_empty(new_content)),
        spec_apply_patch(text_or_empty(old_content), res@) == Ok::<Seq<char>, PatchError>(
            text_or_empty(new_content),
        ),
        text_or_empty(old_content).len() == 0 && text_or_empty(new_content).len() > 0 ==> lines(
            res@,
        ).len() > 2 && spec_is_new_file_patch(res@),
        text_or_empty(old_content) == text_or_empty(new_content) ==> lines(res@).len() == 2,
        text_or_empty(old_content) != text_or_empty(new_content) ==> lines(res@).len() > 2,
        text_or_empty(old_content).len() > 0 ==> !spec_is_new_file_patch(res@),
        spec_hunk_ranges_fit(res@),
{
    let empty = "";
    proof {
        reveal_strlit("");
    }
    assert(empty@ =~= Seq::<char>::empty());
    let old = match old_content {
        Some(s) => s,
        None => empty,
    };
    let new = match new_content {
        Some(s) => s,
        None => empty,
    };
    let res = diffy_create_patch(old, new);
    proof {
        if old@.len() == 0 && new@.len() > 0 {
            assert(is_prefix(new_file_hunk_start(), lines(res@)[2]));
        }
    }
    res
}

/// `original` with `patch_content` applied.
pub fn apply_patch(original: &str, patch_content: &str) -> (res: Result<String, PatchError>)
    requires
        spec_hunk_ranges_fit(patch_content@),
    ensures
        result_chars(res) == spec_apply_patch(original@, patch_content@),
{
    match diffy_apply(original, patch_content) {
        Ok(Ok(s)) => Ok(s),
        Ok(Err(_)) => Err(PatchError::HunkRejected),
        Err(_) => Err(PatchError::InvalidPatch),
    }
}

/// `@@ -0,0`, the start of a hunk that adds to an empty file.
pub open spec fn new_file_hunk_start() -> Seq<char> {
    seq!['@', '@', ' ', '-', '0', ',', '0']
}

/// Whether some line of the patch starts with `@@ -0,0`, the mark of a
/// patch that creates its file.
pub open spec fn spec_is_new_file_patch(patch_content: Seq<char>) -> bool {
    exists|i: int|
        0 <= i < lines(patch_content).len() && is_prefix(
            new_file_hunk_start(),
            #[trigger] lines(patch_content)[i],
        )
}

/// Whether the patch creates its file (a line starts with `@@ -0,0`).
pub fn is_new_file_patch(patch_content: &str) -> (res: bool)
    ensures
        res == spec_is_new_file_patch(patch_content@),
{
    proof {
        reveal_strlit("@@ -0,0");
    }
    let marker = chars_of("@@ -0,0");
    assert(marker@ =~= new_file_hunk_start());
    let content = chars_of(patch_content);
    let ls = split_lines(&content);
    for i in 0..ls.len()
        invariant
            ls.len() == lines(patch_content@).len(),
            forall|k: int| 0 <= k < ls.len() ==> #[trigger] ls[k]@ == lines(patch_content@)[k],
            marker@ == new_file_hunk_start(),
            forall|k: int|
                0 <= k < i ==> !is_prefix(new_file_hunk_start(), #[trigger] lines(patch_content@)[k]),
    {
        if has_prefix(&ls[i], &marker) {
            assert(ls[i as int]@ == lines(patch_content@)[i as int]);
            return true;
        }
        assert(ls[i as int]@ == lines(patch_content@)[i as int]);
    }
    false
}

// ---------------------------------------------------------------------------
// Laws of the store layout
// ---------------------------------------------------------------------------
/// A path that does not start at the root.
pub open spec fn is_relative(p: Seq<char>) -> bool {
    !(p.len() > 0 && p[0] == '/')
}

/// A suffix without `/` that `f` lacks is not a suffix of `patches/<f>`
/// either.
proof fn lemma_dir_path_suffix(f: Seq<char>, suf: Seq<char>)
    requires
        forall|j: int| 0 <= j < suf.len() ==> suf[j] != '/',
        !is_suffix(suf, f),
    ensures
        !is_suffix(suf, patches_dir() + seq!['/'] + f),
{
    let p = patches_dir() + seq!['/'] + f;
    if is_suffix(suf, p) {
        let off = p.len() - suf.len();
        if suf.len() <= f.len() {
            assert(f.skip(f.len() - suf.len()) =~= p.skip(off));
        } else {
            assert(p[7] == '/');
            assert(suf[7 - off] == p.skip(off)[7 - off]);
        }
    }
}

/// A path that `Path` shows as it is: no separators or `.` components at
/// its ends (in particular, it does not start at the root).
pub open spec fn is_normal_path(p: Seq<char>) -> bool {
    trim_front_components(p) == p && trim_back_components(p) == p
}

/// A path that neither starts at the root nor with a `./` component.
pub open spec fn is_plain_start(p: Seq<char>) -> bool {
    is_relative(p) && !is_prefix(seq!['.', '/'], p)
}

/// Trimming the front of a path never lengthens it.
proof fn lemma_trim_front_len(s: Seq<char>)
    ensures
        trim_front_components(s).len() <= s.len(),
    decreases s.len(),
{
    if s.len() > 0 && (s[0] == '/' || (s[0] == '.' && (s.len() == 1 || s[1] == '/'))) {
        lemma_trim_front_len(s.drop_first());
    }
}

/// Joining a normal path onto `patches` puts it below the directory, and
/// it is read back from there unchanged.
proof fn lemma_below_dir(rel: Seq<char>)
    requires
        is_normal_path(rel),
    ensures
        in_patches_dir(rel) == patches_dir() + seq!['/'] + rel,
        below_patches_dir(in_patches_dir(rel)) == Some(rel),
{
    if rel.len() > 0 && rel[0] == '/' {
        lemma_trim_front_len(rel.drop_first());
    }
    let p = patches_dir() + seq!['/'] + rel;
    assert(p.take(7) =~= patches_dir());
    assert(p[7] == '/');
    let after = p.skip(7);
    assert(after =~= seq!['/'] + rel);
    assert(after.drop_first() =~= rel);
    assert(trim_front_components(after) == trim_front_components(rel));
}

/// A path with a plain start followed by an extension that starts with
/// `.` and has a letter after it is a normal path.
proof fn lemma_with_ext_normal(f: Seq<char>, ext: Seq<char>)
    requires
        is_plain_start(f),
        ext.len() >= 2,
        ext[0] == '.',
        ext[1] != '/',
        ext.last() != '/',
        ext.last() != '.',
    ensures
        is_normal_path(f + ext),
{
    let rel = f + ext;
    if f.len() >= 2 {
        assert(rel[0] == f[0]);
        assert(rel[1] == f[1]);
        if f[0] == '.' && f[1] == '/' {
            assert(f.take(2) =~= seq!['.', '/']);
        }
    } else if f.len() == 1 {
        assert(rel[0] == f[0]);
        assert(rel[1] == ext[0]);
    } else {
        assert(rel =~= ext);
    }
    assert(rel.last() == ext.last());
}

/// Store law: the text patch recorded for a file path (one that starts
/// neither at the root nor with `./`, and whose own name does not end in
/// `.patch`) is read back, from its path in the store, as that file's text
/// patch.
pub proof fn lemma_text_patch_entry_roundtrip(file_path: Seq<char>)
    requires
        is_plain_start(file_path),
        !is_suffix(patch_ext(), file_path),
    ensures
        spec_file_path_from_patch(in_patches_dir(file_path + patch_ext())) == Some(file_path),
        spec_entry_for_path(in_patches_dir(file_path + patch_ext())) == Some(
            EntryView::TextPatch(file_path),
        ),
{
    let rel = file_path + patch_ext();
    lemma_with_ext_normal(file_path, patch_ext());
    lemma_below_dir(rel);
    crate::text::lemma_trim_end_all_once(file_path, patch_ext());
    let p = in_patches_dir(rel);
    assert(p.skip(p.len() - 6) =~= patch_ext());
}

/// Store law: the deletion marker recorded for a file path (one that
/// starts neither at the root nor with `./`, and whose own name does not
/// end in `.deleted`) is read back as that file's deletion.
pub proof fn lemma_deleted_entry_roundtrip(file_path: Seq<char>)
    requires
        is_plain_start(file_path),
        !is_suffix(deleted_ext(), file_path),
    ensures
        spec_file_path_from_deleted(in_patches_dir(file_path + deleted_ext())) == Some(file_path),
        spec_entry_for_path(in_patches_dir(file_path + deleted_ext())) == Some(
            EntryView::Deleted(file_path),
        ),
{
    let rel = file_path + deleted_ext();
    lemma_with_ext_normal(file_path, deleted_ext());
    lemma_below_dir(rel);
    crate::text::lemma_trim_end_all_once(file_path, deleted_ext());
    let p = in_patches_dir(rel);
    assert(p.skip(p.len() - 8) =~= deleted_ext());
    assert(p.skip(p.len() - 6)[0] == 'e');
}

/// Store law: the binary copy recorded for a normal file path (see
/// `is_normal_path`) is read back as that file's binary copy, when the
/// file's name ends in neither `.patch` nor `.deleted`.
pub proof fn lemma_binary_entry_roundtrip(file_path: Seq<char>)
    requires
        is_normal_path(file_path),
        !is_suffix(patch_ext(), file_path),
        !is_suffix(deleted_ext(), file_path),
    ensures
        spec_file_path_from_binary(in_patches_dir(file_path)) == Some(file_path),
        spec_entry_for_path(in_patches_dir(file_path)) == Some(EntryView::Binary(file_path)),
{
    lemma_below_dir(file_path);
    lemma_dir_path_suffix(file_path, patch_ext());
    lemma_dir_path_suffix(file_path, deleted_ext());
}

} // verus!
