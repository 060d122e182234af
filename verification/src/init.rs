//! Setting up a forkme project: which upstream to follow, and keeping the
//! checkout out of the project's own repository through `.gitignore`.
use vstd::prelude::*;

use crate::text::{
    chars_of, concat, is_white_space, lemma_first_newline, lemma_lines_append, lemma_lines_single,
    lines,
    same_chars, split_lines, strip_cr, trim, trim_chars, trim_end, trim_end_all,
    trim_end_matches, trim_start,
};

verus! {

/// The upstream URL to use: the one given, or else the configured one.
pub fn upstream_url(url_arg: Option<String>, configured: Option<String>) -> (res: Option<String>)
    ensures
        res == (match url_arg {
            Some(u) => Some(u),
            None => configured,
        }),
{
    match url_arg {
        Some(u) => Some(u),
        None => configured,
    }
}

/// `.gitignore` line for a directory entry: the entry and a `/`.
pub open spec fn dir_line(entry: Seq<char>) -> Seq<char> {
    entry.push('/')
}

/// A `.gitignore` line names `entry`: trimmed, it is the entry, the entry
/// with a `/`, or the latter without trailing `/`s.
pub open spec fn names_entry(line: Seq<char>, entry: Seq<char>) -> bool {
    let t = trim(line);
    t == entry || t == trim_end_all(dir_line(entry), seq!['/']) || t == dir_line(entry)
}

/// Some line of `content` names `entry`.
pub open spec fn gitignore_lists(content: Seq<char>, entry: Seq<char>) -> bool {
    exists|i: int| 0 <= i < lines(content).len() && names_entry(#[trigger] lines(content)[i], entry)
}

/// What to append to a `.gitignore` with `content` so that it lists
/// `entry`: nothing when it already does; otherwise the entry's line,
/// after a line break when the content does not end with one.
pub open spec fn spec_gitignore_addition(content: Seq<char>, entry: Seq<char>) -> Option<Seq<char>> {
    if gitignore_lists(content, entry) {
        None
    } else if content.len() > 0 && content.last() != '\n' {
        Some(seq!['\n'] + dir_line(entry).push('\n'))
    } else {
        Some(dir_line(entry).push('\n'))
    }
}

/// What to append to a `.gitignore` with `existing` content (empty when
/// there is no such file) so that it lists `entry`; `None` when it already
/// does.
pub fn gitignore_addition(existing: &str, entry: &str) -> (res: Option<String>)
    ensures
        match res {
            Some(s) => spec_gitignore_addition(existing@, entry@) == Some(s@),
            None => spec_gitignore_addition(existing@, entry@) is None,
        },
{
    proof {
        reveal_strlit("/");
        reveal_strlit("\n");
    }
    let line = concat(entry, "/");
    let line_chars = chars_of(line.as_str());
    let entry_chars = chars_of(entry);
    let slash = chars_of("/");
    assert(slash@ =~= seq!['/']);
    assert(line_chars@ =~= dir_line(entry@));
    let bare = trim_end_matches(&line_chars, &slash);
    let content = chars_of(existing);
    let ls = split_lines(&content);
    let ghost all = lines(existing@);
    for i in 0..ls.len()
        invariant
            all == lines(existing@),
            ls.len() == all.len(),
            forall|k: int| 0 <= k < ls.len() ==> #[trigger] ls[k]@ == all[k],
            entry_chars@ == entry@,
            line_chars@ == dir_line(entry@),
            bare@ == trim_end_all(dir_line(entry@), seq!['/']),
            forall|k: int| 0 <= k < i ==> !names_entry(#[trigger] all[k], entry@),
    {
        let t = trim_chars(&ls[i]);
        assert(ls[i as int]@ == all[i as int]);
        if same_chars(&t, &entry_chars) || same_chars(&t, &bare) || same_chars(&t, &line_chars) {
            assert(names_entry(all[i as int], entry@));
            return None;
        }
    }
    let n = content.len();
    if n > 0 && content[n - 1] != '\n' {
        let with_break = concat("\n", line.as_str());
        let res = concat(with_break.as_str(), "\n");
        assert(res@ =~= seq!['\n'] + dir_line(entry@).push('\n'));
        Some(res)
    } else {
        let res = concat(line.as_str(), "\n");
        assert(res@ =~= dir_line(entry@).push('\n'));
        Some(res)
    }
}

/// `.gitignore` law: after the addition is appended, the file lists the
/// entry, so a second addition is nothing (for an entry on one line that
/// does not start with whitespace).
pub proof fn lemma_gitignore_addition_lists(content: Seq<char>, entry: Seq<char>)
    requires
        forall|j: int| 0 <= j < entry.len() ==> entry[j] != '\n',
        entry.len() == 0 || !is_white_space(entry[0]),
        spec_gitignore_addition(content, entry) is Some,
    ensures
        gitignore_lists(content + spec_gitignore_addition(content, entry)->0, entry),
        spec_gitignore_addition(content + spec_gitignore_addition(content, entry)->0, entry) is None,
{
    let add = spec_gitignore_addition(content, entry)->0;
    let line = dir_line(entry);
    let tail = line.push('\n');
    let head = if content.len() > 0 && content.last() != '\n' {
        content.push('\n')
    } else {
        content
    };
    assert(content + add =~= head + tail);
    lemma_lines_append(head, tail);
    assert forall|j: int| 0 <= j < line.len() implies tail[j] != '\n' by {
        if j < entry.len() {
            assert(tail[j] == entry[j]);
        }
    }
    lemma_first_newline(tail, line.len() as int);
    assert(tail.take(line.len() as int) =~= line);
    assert(tail.skip(line.len() + 1int) =~= Seq::<char>::empty());
    let rest = tail.skip(line.len() + 1int);
    assert(lines(rest) =~= Seq::<Seq<char>>::empty());
    assert(lines(tail) == seq![strip_cr(tail.take(line.len() as int))] + lines(rest));
    assert(lines(tail) =~= seq![strip_cr(line)]);
    assert(strip_cr(line) == line);
    assert(trim_start(line) == line) by {
        if entry.len() > 0 {
            assert(line[0] == entry[0]);
        }
        assert(line.len() > 0);
    }
    assert(trim_end(line) == line);
    assert(trim(line) == line);
    let all = lines(content + add);
    assert(all =~= lines(head) + lines(tail));
    assert(all[lines(head).len() as int] == line);
    assert(names_entry(all[lines(head).len() as int], entry));
}

/// `.gitignore` law: when a line of the file, trimmed, is the entry or
/// the entry with `/`, nothing is added, whichever line it is (the last
/// one included, with or without a final line break).
pub proof fn lemma_listed_entry_adds_nothing(content: Seq<char>, entry: Seq<char>, i: int)
    requires
        0 <= i < lines(content).len(),
        trim(lines(content)[i]) == entry || trim(lines(content)[i]) == entry.push('/'),
    ensures
        spec_gitignore_addition(content, entry) is None,
{
    assert(names_entry(lines(content)[i], entry));
}

/// `.gitignore` law: a file whose last line, without a final line break,
/// is the entry with `/` gets nothing added, whatever comes before (for an
/// entry on one line that does not start with whitespace).
pub proof fn lemma_last_line_entry_adds_nothing(c: Seq<char>, entry: Seq<char>)
    requires
        forall|j: int| 0 <= j < entry.len() ==> entry[j] != '\n',
        entry.len() == 0 || !is_white_space(entry[0]),
    ensures
        spec_gitignore_addition(c + seq!['\n'] + entry.push('/'), entry) is None,
{
    let head = c.push('\n');
    let line = entry.push('/');
    assert(c + seq!['\n'] + line =~= head + line);
    lemma_lines_append(head, line);
    assert forall|j: int| 0 <= j < line.len() implies line[j] != '\n' by {
        if j < entry.len() {
            assert(line[j] == entry[j]);
        }
    }
    lemma_lines_single(line);
    let all = lines(head + line);
    assert(all[lines(head).len() as int] == line);
    assert(trim_start(line) == line) by {
        if entry.len() > 0 {
            assert(line[0] == entry[0]);
        }
    }
    assert(trim_end(line) == line);
    lemma_listed_entry_adds_nothing(head + line, entry, lines(head).len() as int);
}

/// `.gitignore` law: when no line of the file, trimmed, is the entry,
/// the entry with `/`, or that without trailing `/`s, the entry's line is
/// appended: on a line of its own, after a line break when the file does
/// not end with one.
pub proof fn lemma_unlisted_entry_is_added(content: Seq<char>, entry: Seq<char>)
    requires
        forall|i: int|
            0 <= i < lines(content).len() ==> {
                let t = trim(#[trigger] lines(content)[i]);
                t != entry && t != entry.push('/') && t != trim_end_all(entry.push('/'), seq!['/'])
            },
    ensures
        (content.len() == 0 || content.last() == '\n') ==> spec_gitignore_addition(content, entry)
            == Some(entry.push('/').push('\n')),
        (content.len() > 0 && content.last() != '\n') ==> spec_gitignore_addition(content, entry)
            == Some(seq!['\n'] + entry.push('/').push('\n')),
{
    assert forall|i: int| 0 <= i < lines(content).len() implies !names_entry(
        #[trigger] lines(content)[i],
        entry,
    ) by {
        let t = trim(lines(content)[i]);
        assert(t != entry && t != entry.push('/') && t != trim_end_all(entry.push('/'), seq!['/']));
    }
}

} // verus!
