//! The project configuration (`forkme.toml`) and the lock file that pins
//! an upstream commit.
use vstd::prelude::*;

use crate::text::{chars_of, concat, is_white_space, string_of, trim, trim_chars};

verus! {

/// Name of the configuration file.
pub const CONFIG_FILE: &'static str = "forkme.toml";

/// Name of the lock file.
pub const LOCK_FILE: &'static str = "forkme.lock";

/// The upstream repository a fork follows.
#[derive(Debug)]
pub struct Upstream {
    pub url: String,
    pub branch: String,
}

/// The project configuration.
#[derive(Debug)]
pub struct Config {
    pub upstream: Upstream,
}

/// The commit recorded in a lock file with the given content: the content
/// without surrounding whitespace, or nothing when that is empty.
pub open spec fn spec_parse_lock(content: Seq<char>) -> Option<Seq<char>> {
    if trim(content).len() == 0 {
        None
    } else {
        Some(trim(content))
    }
}

/// The commit recorded in a lock file with the given content.
pub fn parse_lock(content: &str) -> (res: Option<String>)
    ensures
        match res {
            Some(s) => spec_parse_lock(content@) == Some(s@),
            None => spec_parse_lock(content@) is None,
        },
{
    let chars = chars_of(content);
    let sha = trim_chars(&chars);
    if sha.len() == 0 {
        None
    } else {
        Some(string_of(&sha))
    }
}

/// The content written to the lock file for commit `sha`: the commit and
/// a line break.
pub fn lock_file_content(sha: &str) -> (res: String)
    ensures
        res@ == sha@.push('\n'),
{
    proof {
        reveal_strlit("\n");
    }
    let res = concat(sha, "\n");
    assert(res@ =~= sha@.push('\n'));
    res
}

/// Lock law: what is written for a commit id (non-empty, without
/// surrounding whitespace) is read back as that commit id.
pub proof fn lemma_lock_roundtrip(sha: Seq<char>)
    requires
        sha.len() > 0,
        !is_white_space(sha[0]),
        !is_white_space(sha.last()),
    ensures
        spec_parse_lock(sha.push('\n')) == Some(sha),
{
    crate::text::lemma_trim_drops_trailing(sha, '\n');
}

} // verus!
