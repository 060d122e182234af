//! The repository side of a forkme project: file contents as found in git,
//! the branch the work happens on, and the names of the references used.
use vstd::prelude::*;

use crate::text::{chars_of, concat, same_chars};

verus! {

/// Directory holding the upstream checkout with the fork's changes.
pub const SOURCE_DIR: &'static str = "source";

/// Branch on which the fork's changes are committed.
pub const FORKME_BRANCH: &'static str = "forkme";

/// `forkme`
pub open spec fn forkme_branch() -> Seq<char> {
    seq!['f', 'o', 'r', 'k', 'm', 'e']
}

/// Checks `bytes` with `std::str::from_utf8`. Claimed of it, as its
/// documentation states: a string comes back exactly when the bytes are
/// valid UTF-8, and its bytes are the input bytes.
#[verifier::external_body]
fn utf8_str(bytes: &[u8]) -> (res: Option<&str>)
    ensures
        res is Some <==> vstd::utf8::valid_utf8(bytes@),
        res matches Some(s) ==> vstd::utf8::encode_utf8(s@) == bytes@,
{
    std::str::from_utf8(bytes).ok()
}

/// The content of a file: text, or bytes that are not text.
pub enum FileContent {
    Text(String),
    Binary(Vec<u8>),
}

/// A file's content, by its characters or its bytes.
pub enum ContentView {
    Text(Seq<char>),
    Binary(Seq<u8>),
}

impl View for FileContent {
    type V = ContentView;

    open spec fn view(&self) -> ContentView {
        match self {
            FileContent::Text(s) => ContentView::Text(s@),
            FileContent::Binary(b) => ContentView::Binary(b@),
        }
    }
}

/// The bytes of a file's content (text in UTF-8).
pub open spec fn content_bytes(c: ContentView) -> Seq<u8> {
    match c {
        ContentView::Text(s) => vstd::utf8::encode_utf8(s),
        ContentView::Binary(b) => b,
    }
}

/// Whether a zero byte occurs in `b`.
pub open spec fn has_zero_byte(b: Seq<u8>) -> bool {
    exists|i: int| 0 <= i < b.len() && b[i] == 0
}

/// How bytes read from git are taken: text when they are UTF-8 without a
/// zero byte, binary otherwise.
pub open spec fn spec_blob_content(b: Seq<u8>) -> ContentView {
    if vstd::utf8::valid_utf8(b) && !has_zero_byte(b) {
        ContentView::Text(vstd::utf8::decode_utf8(b))
    } else {
        ContentView::Binary(b)
    }
}

impl FileContent {
    /// Whether the content is binary.
    pub fn is_binary(&self) -> (res: bool)
        ensures
            res == (self@ is Binary),
    {
        match self {
            FileContent::Text(_) => false,
            FileContent::Binary(_) => true,
        }
    }

    /// The text, when the content is text.
    pub fn as_text(&self) -> (res: Option<&str>)
        ensures
            match self@ {
                ContentView::Text(s) => res is Some && res->0@ == s,
                ContentView::Binary(_) => res is None,
            },
    {
        match self {
            FileContent::Text(s) => Some(s.as_str()),
            FileContent::Binary(_) => None,
        }
    }

    /// The content's bytes.
    pub fn as_bytes(&self) -> (res: &[u8])
        ensures
            res@ == content_bytes(self@),
    {
        match self {
            FileContent::Text(s) => s.as_str().as_bytes(),
            FileContent::Binary(b) => b.as_slice(),
        }
    }
}

/// A file that differs between upstream and the fork: its path, and its
/// content on each side (absent where the file does not exist).
pub struct FileDiff {
    pub path: String,
    pub old_content: Option<FileContent>,
    pub new_content: Option<FileContent>,
}

/// Whether a zero byte occurs in `bytes`.
fn contains_zero(bytes: &[u8]) -> (res: bool)
    ensures
        res == has_zero_byte(bytes@),
{
    for i in 0..bytes.len()
        invariant
            forall|j: int| 0 <= j < i ==> bytes@[j] != 0,
    {
        if bytes[i] == 0 {
            return true;
        }
    }
    false
}

/// Takes bytes read from git as text when they are UTF-8 without a zero
/// byte, and as binary otherwise. The bytes of the result are the input.
pub fn blob_to_content(bytes: &[u8]) -> (res: FileContent)
    ensures
        res@ == spec_blob_content(bytes@),
        content_bytes(res@) == bytes@,
{
    if !contains_zero(bytes) {
        if let Some(text) = utf8_str(bytes) {
            proof {
                vstd::utf8::encode_utf8_decode_utf8(text@);
            }
            return FileContent::Text(text.to_owned());
        }
    }
    FileContent::Binary(vstd::slice::slice_to_vec(bytes))
}

/// The repository is not on the `forkme` branch.
#[derive(Debug)]
pub struct NotOnForkmeBranch {
    /// The branch it is on (empty when the head has no readable name).
    pub current: String,
}

/// The name of the checked-out branch, an absent one being empty.
pub open spec fn head_name(head_shorthand: Option<&str>) -> Seq<char> {
    match head_shorthand {
        Some(s) => s@,
        None => Seq::empty(),
    }
}

/// Succeeds exactly when the checked-out branch, named by
/// `head_shorthand`, is `forkme`; otherwise reports the branch it is on.
pub fn ensure_on_forkme_branch(head_shorthand: Option<&str>) -> (res: Result<(), NotOnForkmeBranch>)
    ensures
        res is Ok <==> head_name(head_shorthand) == forkme_branch(),
        res matches Err(e) ==> e.current@ == head_name(head_shorthand),
{
    let empty = "";
    proof {
        reveal_strlit("");
        reveal_strlit("forkme");
    }
    assert(empty@ =~= Seq::<char>::empty());
    let name = match head_shorthand {
        Some(s) => s,
        None => empty,
    };
    let name_chars = chars_of(name);
    let forkme = chars_of(FORKME_BRANCH);
    assert(forkme@ =~= forkme_branch());
    if same_chars(&name_chars, &forkme) {
        Ok(())
    } else {
        Err(NotOnForkmeBranch { current: name.to_owned() })
    }
}

/// `origin/<branch>`
pub open spec fn spec_remote_branch_name(branch: Seq<char>) -> Seq<char> {
    seq!['o', 'r', 'i', 'g', 'i', 'n', '/'] + branch
}

/// Name of the upstream branch as the `origin` remote tracks it.
pub fn remote_branch_name(branch: &str) -> (res: String)
    ensures
        res@ == spec_remote_branch_name(branch@),
{
    proof {
        reveal_strlit("origin/");
    }
    concat("origin/", branch)
}

/// `refs/remotes/origin/<branch>`
pub open spec fn spec_upstream_ref_name(branch: Seq<char>) -> Seq<char> {
    seq!['r', 'e', 'f', 's', '/', 'r', 'e', 'm', 'o', 't', 'e', 's', '/']
        + spec_remote_branch_name(branch)
}

/// Reference of the upstream branch as fetched from `origin`.
pub fn upstream_ref_name(branch: &str) -> (res: String)
    ensures
        res@ == spec_upstream_ref_name(branch@),
{
    let remote = remote_branch_name(branch);
    proof {
        reveal_strlit("refs/remotes/");
    }
    let res = concat("refs/remotes/", remote.as_str());
    assert(res@ =~= spec_upstream_ref_name(branch@));
    res
}

/// `refs/heads/<branch>`
pub open spec fn spec_local_branch_ref(branch: Seq<char>) -> Seq<char> {
    seq!['r', 'e', 'f', 's', '/', 'h', 'e', 'a', 'd', 's', '/'] + branch
}

/// Reference of a local branch.
pub fn local_branch_ref(branch: &str) -> (res: String)
    ensures
        res@ == spec_local_branch_ref(branch@),
{
    proof {
        reveal_strlit("refs/heads/");
    }
    concat("refs/heads/", branch)
}

} // verus!
