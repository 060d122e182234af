//! The state of the checkout as the status overview reports it.
use vstd::prelude::*;

use crate::git::{forkme_branch, FORKME_BRANCH};
use crate::text::{chars_of, same_chars};

verus! {

/// How the checkout stands.
#[derive(Debug)]
pub struct SourceReport {
    /// The checked-out branch, `(detached)` when the head has no name.
    pub branch: String,
    /// Whether that branch is `forkme`.
    pub on_forkme_branch: bool,
    /// Whether there are as many patches as files that differ from
    /// upstream.
    pub patches_in_sync: bool,
}

/// `(detached)`
pub open spec fn detached() -> Seq<char> {
    seq!['(', 'd', 'e', 't', 'a', 'c', 'h', 'e', 'd', ')']
}

/// How the checkout stands, from the name of its head (`None` when it has
/// none), the number of files that differ from upstream and the number of
/// text patches in the store.
pub fn source_report(head_shorthand: Option<&str>, changed_files: usize, patches: usize) -> (res:
    SourceReport)
    ensures
        res.branch@ == (match head_shorthand {
            Some(s) => s@,
            None => detached(),
        }),
        res.on_forkme_branch == (res.branch@ == forkme_branch()),
        res.patches_in_sync == (changed_files == patches),
{
    let detached_name = "(detached)";
    proof {
        reveal_strlit("(detached)");
        reveal_strlit("forkme");
    }
    assert(detached_name@ =~= detached());
    let name = match head_shorthand {
        Some(s) => s,
        None => detached_name,
    };
    let forkme = chars_of(FORKME_BRANCH);
    assert(forkme@ =~= forkme_branch());
    let on_forkme = same_chars(&chars_of(name), &forkme);
    SourceReport {
        branch: name.to_owned(),
        on_forkme_branch: on_forkme,
        patches_in_sync: changed_files == patches,
    }
}

} // verus!
