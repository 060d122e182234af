use std::path::{Path, PathBuf};

use forkme::apply::{apply_record, apply_text_patch, FileOutcome, TextApplied};
use forkme::cleanup::removal_order;
use forkme::config::{lock_file_content, parse_lock, Config, Upstream};
use forkme::git::{
    blob_to_content, ensure_on_forkme_branch, local_branch_ref, remote_branch_name,
    upstream_ref_name, FileContent, FileDiff,
};
use forkme::init::{gitignore_addition, upstream_url};
use forkme::patch::{
    apply_patch, binary_path_for_file, deleted_path_for_file, entry_for_path,
    file_path_from_binary, file_path_from_deleted, file_path_from_patch, generate_patch,
    hunk_ranges_fit,
    is_new_file_patch, list_patches, patch_path_for_file, PatchEntry, PatchError,
};
use forkme::stats::{classify_entry, classify_text_patch, tally, EntryClass, TextPatchType};
use forkme::status::source_report;
use forkme::sync::{plan_sync, processed_paths, stale_entries, SyncWrite};
use forkme::update::{next_update_action, UpdateAction, UpdateEvent, UpdateOutcome};

#[test]
fn store_paths_lead_back_to_their_file() {
    for f in ["src/main.rs", "a", "", "dir/nested/file.txt"] {
        assert_eq!(
            entry_for_path(&patch_path_for_file(f)),
            Some(PatchEntry::TextPatch(f.to_string()))
        );
        assert_eq!(
            entry_for_path(&deleted_path_for_file(f)),
            Some(PatchEntry::Deleted(f.to_string()))
        );
        assert_eq!(
            entry_for_path(&binary_path_for_file(f)),
            Some(PatchEntry::Binary(f.to_string()))
        );
    }
}

#[test]
fn absolute_file_path_replaces_the_store_directory() {
    assert_eq!(patch_path_for_file("/etc/hosts"), "/etc/hosts.patch");
    assert_eq!(binary_path_for_file(""), "patches/");
}

#[test]
fn repeated_extension_is_trimmed_entirely() {
    assert_eq!(
        file_path_from_patch("patches/notes.patch.patch"),
        Some("notes".to_string())
    );
    assert_eq!(
        file_path_from_deleted("patches/x.deleted.deleted"),
        Some("x".to_string())
    );
}

#[test]
fn paths_outside_the_store_have_no_file() {
    assert_eq!(file_path_from_patch("other/a.rs.patch"), None);
    assert_eq!(file_path_from_binary("patchesx/a"), None);
    assert_eq!(file_path_from_deleted("patches"), Some(String::new()));
    assert_eq!(entry_for_path("elsewhere/a.rs.patch"), None);
}

#[test]
fn list_patches_keeps_text_patches_in_order() {
    let entries = vec![
        PatchEntry::Binary("logo.png".to_string()),
        PatchEntry::TextPatch("b.rs".to_string()),
        PatchEntry::Deleted("old.rs".to_string()),
        PatchEntry::TextPatch("a.rs".to_string()),
    ];
    assert_eq!(list_patches(&entries), vec!["b.rs".to_string(), "a.rs".to_string()]);
}

#[test]
fn patch_round_trip_on_several_texts() {
    let cases = [
        ("", ""),
        ("", "x"),
        ("a\nb\n", ""),
        ("no newline", "no newline either"),
        ("one\ntwo\nthree\n", "one\n2\nthree\nfour"),
        ("same\n", "same\n"),
        ("crlf\r\nline\r\n", "crlf\r\nchanged\r\n"),
    ];
    for (old, new) in cases {
        let p = generate_patch(Some(old), Some(new));
        assert_eq!(apply_patch(old, &p), Ok(new.to_string()));
    }
}

#[test]
fn generated_patch_is_not_its_input() {
    let p = generate_patch(Some("a\n"), Some("b\n"));
    assert_ne!(p, "b\n");
    assert!(p.starts_with("--- original\n+++ modified\n"));
}

#[test]
fn invalid_patch_text_is_refused() {
    assert_eq!(
        apply_patch("x\n", "--- a\n+++ b\n@@ garbage @@\n"),
        Err(PatchError::InvalidPatch)
    );
}

#[test]
fn misfitting_hunk_is_rejected() {
    let p = generate_patch(Some("alpha\nbeta\n"), Some("alpha\ngamma\n"));
    assert_eq!(apply_patch("completely\ndifferent\n", &p), Err(PatchError::HunkRejected));
}

#[test]
fn new_file_patches_are_recognised() {
    assert!(is_new_file_patch(&generate_patch(None, Some("x\n"))));
    assert!(!is_new_file_patch(&generate_patch(Some("x\n"), Some("y\n"))));
    assert!(is_new_file_patch("junk\n@@ -0,0 +1 @@\r\n+a\n"));
}

#[test]
fn apply_text_patch_creates_or_patches() {
    let create = generate_patch(None, Some("new\n"));
    match apply_text_patch(&create, None) {
        Ok(TextApplied::Created(s)) => assert_eq!(s, "new\n"),
        _ => panic!("expected a created file"),
    }
    let change = generate_patch(Some("a\nb\n"), Some("a\nc\n"));
    match apply_text_patch(&change, Some("a\nb\n")) {
        Ok(TextApplied::Patched(s)) => assert_eq!(s, "a\nc\n"),
        _ => panic!("expected a patched file"),
    }
    assert!(matches!(
        apply_text_patch(&change, Some("zzz\n")),
        Err(PatchError::HunkRejected)
    ));
}

#[test]
fn text_patches_are_classified_by_first_hunk() {
    assert_eq!(
        classify_text_patch(&generate_patch(None, Some("hello\n"))),
        TextPatchType::Added
    );
    assert_eq!(
        classify_text_patch(&generate_patch(Some("a\n"), Some("b\n"))),
        TextPatchType::Modified
    );
    assert_eq!(classify_text_patch("no hunks here\n"), TextPatchType::Modified);
    assert_eq!(
        classify_text_patch("@@ -1,2 +1,2 @@\n@@ -0,0 +1 @@\n"),
        TextPatchType::Modified
    );
}

#[test]
fn stats_count_every_entry_once() {
    let added = generate_patch(None, Some("x\n"));
    let modified = generate_patch(Some("x\n"), Some("y\n"));
    let entries = vec![
        (PatchEntry::TextPatch("a".to_string()), Some(added.as_str())),
        (PatchEntry::TextPatch("b".to_string()), Some(modified.as_str())),
        (PatchEntry::Binary("c".to_string()), None),
        (PatchEntry::Binary("d".to_string()), None),
        (PatchEntry::Deleted("e".to_string()), None),
    ];
    let classes: Vec<EntryClass> =
        entries.iter().map(|(e, c)| classify_entry(e, *c)).collect();
    assert_eq!(
        classes,
        vec![
            EntryClass::TextAdded,
            EntryClass::TextModified,
            EntryClass::Binary,
            EntryClass::Binary,
            EntryClass::Deleted
        ]
    );
    let s = tally(&classes);
    assert_eq!(s.text_added, 1);
    assert_eq!(s.binary_added, 2);
    assert_eq!(s.total_added, 3);
    assert_eq!(s.total_modified, 1);
    assert_eq!(s.deleted, 1);
    assert_eq!(s.total, 5);
    assert_eq!(s.total, s.total_added + s.total_modified + s.deleted);
}

#[test]
fn lock_file_round_trip() {
    let sha = "0123abcd";
    assert_eq!(lock_file_content(sha), "0123abcd\n");
    assert_eq!(parse_lock(&lock_file_content(sha)), Some(sha.to_string()));
    assert_eq!(parse_lock("  \n\t"), None);
    assert_eq!(parse_lock("\u{a0} abc \r\n"), Some("abc".to_string()));
}

#[test]
fn gitignore_gets_the_entry_once() {
    assert_eq!(gitignore_addition("", "source"), Some("source/\n".to_string()));
    assert_eq!(
        gitignore_addition("target", "source"),
        Some("\nsource/\n".to_string())
    );
    let first = "target/\n".to_string();
    let add = gitignore_addition(&first, "source").unwrap();
    assert_eq!(add, "source/\n");
    let after = first + &add;
    assert_eq!(gitignore_addition(&after, "source"), None);
    assert_eq!(gitignore_addition("  source  \n", "source"), None);
    assert_eq!(gitignore_addition("a\nsource/\r\n", "source"), None);
    assert_eq!(gitignore_addition("sources\n", "source"), Some("source/\n".to_string()));
}

#[test]
fn upstream_url_prefers_the_argument() {
    assert_eq!(
        upstream_url(Some("a".to_string()), Some("b".to_string())),
        Some("a".to_string())
    );
    assert_eq!(upstream_url(None, Some("b".to_string())), Some("b".to_string()));
    assert_eq!(upstream_url(None, None), None);
    let config = Config {
        upstream: Upstream { url: "u".to_string(), branch: "main".to_string() },
    };
    assert_eq!(upstream_url(None, Some(config.upstream.url)), Some("u".to_string()));
}

#[test]
fn blob_bytes_become_text_or_binary() {
    match blob_to_content("héllo\n".as_bytes()) {
        FileContent::Text(s) => assert_eq!(s, "héllo\n"),
        FileContent::Binary(_) => panic!("expected text"),
    }
    assert!(blob_to_content(&[0x66, 0x00, 0x67]).is_binary());
    assert!(blob_to_content(&[0xff, 0xfe]).is_binary());
    let c = blob_to_content(&[0xe2, 0x82, 0xac]);
    assert_eq!(c.as_text(), Some("€"));
    assert_eq!(c.as_bytes(), &[0xe2, 0x82, 0xac]);
}

#[test]
fn branch_check_and_reference_names() {
    assert!(ensure_on_forkme_branch(Some("forkme")).is_ok());
    assert_eq!(ensure_on_forkme_branch(Some("main")).unwrap_err().current, "main");
    assert_eq!(ensure_on_forkme_branch(None).unwrap_err().current, "");
    assert_eq!(remote_branch_name("main"), "origin/main");
    assert_eq!(upstream_ref_name("dev"), "refs/remotes/origin/dev");
    assert_eq!(local_branch_ref("forkme"), "refs/heads/forkme");
}

#[test]
fn source_report_reads_the_checkout() {
    let r = source_report(Some("forkme"), 2, 2);
    assert_eq!(r.branch, "forkme");
    assert!(r.on_forkme_branch);
    assert!(r.patches_in_sync);
    let r = source_report(None, 1, 2);
    assert_eq!(r.branch, "(detached)");
    assert!(!r.on_forkme_branch);
    assert!(!r.patches_in_sync);
}

#[test]
fn sync_plan_records_each_change() {
    let changes = vec![
        FileDiff {
            path: "gone.rs".to_string(),
            old_content: Some(FileContent::Text("x\n".to_string())),
            new_content: None,
        },
        FileDiff {
            path: "logo.png".to_string(),
            old_content: None,
            new_content: Some(FileContent::Binary(vec![1, 0, 2])),
        },
        FileDiff {
            path: "lib.rs".to_string(),
            old_content: Some(FileContent::Text("a\n".to_string())),
            new_content: Some(FileContent::Text("b\n".to_string())),
        },
        FileDiff {
            path: "same.rs".to_string(),
            old_content: Some(FileContent::Text("s\n".to_string())),
            new_content: Some(FileContent::Text("s\n".to_string())),
        },
        FileDiff { path: "nothing".to_string(), old_content: None, new_content: None },
    ];
    let steps = plan_sync(&changes);
    assert_eq!(steps.len(), 5);
    assert!(matches!(steps[0].write, Some(SyncWrite::DeletedMarker)));
    assert!(!steps[0].is_new);
    match &steps[1].write {
        Some(SyncWrite::Binary(b)) => assert_eq!(b, &vec![1, 0, 2]),
        _ => panic!("expected a binary copy"),
    }
    assert!(steps[1].is_new);
    match &steps[2].write {
        Some(SyncWrite::Text(p)) => assert_eq!(apply_patch("a\n", p), Ok("b\n".to_string())),
        _ => panic!("expected a text patch"),
    }
    assert!(steps[3].write.is_none());
    assert!(steps[4].write.is_none());

    let processed = processed_paths(&steps);
    assert_eq!(
        processed,
        vec!["gone.rs".to_string(), "logo.png".to_string(), "lib.rs".to_string()]
    );

    let existing = vec![
        PatchEntry::TextPatch("lib.rs".to_string()),
        PatchEntry::TextPatch("stale.rs".to_string()),
        PatchEntry::Binary("logo.png".to_string()),
        PatchEntry::Deleted("old.rs".to_string()),
    ];
    assert_eq!(
        stale_entries(&existing, &processed),
        vec![
            PatchEntry::TextPatch("stale.rs".to_string()),
            PatchEntry::Deleted("old.rs".to_string())
        ]
    );
}

#[test]
fn processed_paths_are_distinct() {
    let changes = vec![
        FileDiff {
            path: "a".to_string(),
            old_content: None,
            new_content: Some(FileContent::Binary(vec![0])),
        },
        FileDiff {
            path: "a".to_string(),
            old_content: None,
            new_content: Some(FileContent::Binary(vec![1])),
        },
    ];
    let steps = plan_sync(&changes);
    assert_eq!(processed_paths(&steps), vec!["a".to_string()]);
}

#[test]
fn hunk_ranges_are_checked_for_size() {
    assert!(hunk_ranges_fit(&generate_patch(Some("a\n"), Some("b\n"))));
    assert!(hunk_ranges_fit("+12345678901234567890\n"));
    assert!(!hunk_ranges_fit("--- a\n+++ b\n@@ -18446744073709551615,1 +1 @@\n-x\n+y\n"));
    assert!(hunk_ranges_fit("@@ -123456789,1 +1 @@\n"));
    // Only the two ranges count, and only their ends.
    assert!(hunk_ranges_fit("@@ -1 +1 @@ 12345678901234567890\n"));
    assert!(hunk_ranges_fit("@@ -12345678901234,2 +1 @@\n"));
    assert!(!hunk_ranges_fit("@@ -1 +18446744073709551615 @@\n"));
    assert!(hunk_ranges_fit("@@ -18446744073709551614,1 +1 @@\n"));
    assert!(!hunk_ranges_fit("@@ -+18446744073709551615,+1 +1 @@\n"));
    // A range that does not parse is refused by diffy with an error.
    assert!(hunk_ranges_fit("@@ -18446744073709551616,1 +1 @@\n"));
    assert_eq!(
        apply_patch("a\n", "@@ -1 +1 @@ 12345678901234567890\n-a\n+b\n"),
        Ok("b\n".to_string())
    );
}

#[test]
fn store_paths_split_like_std_paths() {
    let paths = [
        "patches",
        "patches/",
        "patches/a.rs",
        "patches//a.rs",
        "patches/./x/",
        "patches/x/.",
        "patches/../y",
        "patches/a/./b//c",
        "./patches/a",
        "/patches/a",
        "patchesx/a",
        "patch",
        "",
    ];
    for p in paths {
        let expected = Path::new(p)
            .strip_prefix("patches")
            .ok()
            .and_then(|r| r.to_str())
            .map(|s| s.to_string());
        assert_eq!(file_path_from_binary(p), expected, "path {:?}", p);
    }
    for f in ["a", "src/lib.rs", "/abs", "", "x//y"] {
        assert_eq!(
            PathBuf::from(binary_path_for_file(f)),
            PathBuf::from("patches").join(f),
            "file {:?}",
            f
        );
    }
    assert_eq!(
        file_path_from_patch("patches//a.rs.patch"),
        Some("a.rs".to_string())
    );
    assert_eq!(entry_for_path("./patches/a.rs.patch"), None);
}

#[test]
fn directories_are_removed_deepest_first() {
    let dirs: Vec<String> = [
        "patches",
        "patches/a",
        "patches/a/b",
        "patches/c",
        "patches/a/b/d",
        "patches/e/./f",
        "patches/c/g",
    ]
    .iter()
    .map(|s| s.to_string())
    .collect();
    let order: Vec<String> = removal_order(&dirs).into_iter().map(|i| dirs[i].clone()).collect();
    let mut expected: Vec<PathBuf> = dirs.iter().map(PathBuf::from).collect();
    expected.sort_by_key(|b| std::cmp::Reverse(b.components().count()));
    let expected: Vec<String> = expected
        .into_iter()
        .filter(|d| d != Path::new("patches"))
        .map(|d| d.to_str().unwrap().to_string())
        .collect();
    assert_eq!(order, expected);
    assert_eq!(order[0], "patches/a/b/d");
    assert!(!order.contains(&"patches".to_string()));
}

#[test]
fn trimming_agrees_with_std_whitespace() {
    for code in 0u32..0x3100 {
        if let Some(c) = char::from_u32(code) {
            let s = format!("{}x{}", c, c);
            assert_eq!(parse_lock(&s), Some(s.trim().to_string()), "char {:#x}", code);
            let alone = c.to_string();
            assert_eq!(parse_lock(&alone).is_none(), c.is_whitespace(), "char {:#x}", code);
        }
    }
}

#[test]
fn synced_text_patches_apply_back_to_the_fork() {
    let changes = vec![
        FileDiff {
            path: "src/new.rs".to_string(),
            old_content: None,
            new_content: Some(FileContent::Text("pub fn fork_only() {}\n".to_string())),
        },
        FileDiff {
            path: "README.md".to_string(),
            old_content: Some(FileContent::Text("# Original\nline\n".to_string())),
            new_content: Some(FileContent::Text("# Modified\nline\nmore\n".to_string())),
        },
    ];
    let steps = plan_sync(&changes);
    match &steps[0].write {
        Some(SyncWrite::Text(p)) => {
            assert!(is_new_file_patch(p));
            match apply_text_patch(p, None) {
                Ok(TextApplied::Created(s)) => assert_eq!(s, "pub fn fork_only() {}\n"),
                _ => panic!("expected a created file"),
            }
        }
        _ => panic!("expected a text patch"),
    }
    match &steps[1].write {
        Some(SyncWrite::Text(p)) => {
            assert!(!is_new_file_patch(p));
            match apply_text_patch(p, Some("# Original\nline\n")) {
                Ok(TextApplied::Patched(s)) => assert_eq!(s, "# Modified\nline\nmore\n"),
                _ => panic!("expected a patched file"),
            }
        }
        _ => panic!("expected a text patch"),
    }
}

#[test]
fn update_steps_follow_each_outcome() {
    assert_eq!(next_update_action(None), UpdateAction::Fetch);
    assert_eq!(
        next_update_action(Some(UpdateEvent::Fetched(false))),
        UpdateAction::Finish(UpdateOutcome::FetchFailed)
    );
    assert_eq!(next_update_action(Some(UpdateEvent::Fetched(true))), UpdateAction::Rebase);
    assert_eq!(
        next_update_action(Some(UpdateEvent::Rebased(false))),
        UpdateAction::Finish(UpdateOutcome::Conflicts)
    );
    assert_eq!(next_update_action(Some(UpdateEvent::Rebased(true))), UpdateAction::CompareHead);
    assert_eq!(
        next_update_action(Some(UpdateEvent::HeadCompared { changed: false })),
        UpdateAction::Finish(UpdateOutcome::UpToDate)
    );
    assert_eq!(
        next_update_action(Some(UpdateEvent::HeadCompared { changed: true })),
        UpdateAction::Finish(UpdateOutcome::Rebased)
    );
}

#[test]
fn applying_synced_records_gives_the_fork_back() {
    let changes = vec![
        FileDiff {
            path: "gone.rs".to_string(),
            old_content: Some(FileContent::Text("x\n".to_string())),
            new_content: None,
        },
        FileDiff {
            path: "logo.png".to_string(),
            old_content: Some(FileContent::Binary(vec![0, 1])),
            new_content: Some(FileContent::Binary(vec![0, 1, 2])),
        },
        FileDiff {
            path: "lib.rs".to_string(),
            old_content: Some(FileContent::Text("a\nb\nc\n".to_string())),
            new_content: Some(FileContent::Text("a\nB\nc\nd\n".to_string())),
        },
        FileDiff {
            path: "was_binary.txt".to_string(),
            old_content: Some(FileContent::Binary(vec![0xff, 0])),
            new_content: Some(FileContent::Text("now text\n".to_string())),
        },
    ];
    let steps = plan_sync(&changes);
    let upstream_text = [None, None, Some("a\nb\nc\n"), None];
    for (step, current) in steps.iter().zip(upstream_text) {
        let record = step.write.as_ref().expect("every change is recorded");
        let outcome = apply_record(record, current);
        match (step.path.as_str(), outcome) {
            ("gone.rs", Ok(FileOutcome::Removed)) => {}
            ("logo.png", Ok(FileOutcome::Copied(b))) => assert_eq!(b, vec![0, 1, 2]),
            ("lib.rs", Ok(FileOutcome::Patched(s))) => assert_eq!(s, "a\nB\nc\nd\n"),
            ("was_binary.txt", Ok(FileOutcome::Created(s))) => assert_eq!(s, "now text\n"),
            (path, _) => panic!("unexpected outcome for {}", path),
        }
    }
    assert!(matches!(
        apply_record(&SyncWrite::Text("--- a\n+++ b\n@@ garbage @@\n".to_string()), Some("x\n")),
        Err(PatchError::InvalidPatch)
    ));
}

#[test]
fn generated_patches_have_the_stated_shape() {
    // From a non-empty text, even when everything is replaced or prepended.
    for (old, new) in [("a\n", ""), ("a\n", "x\na\n"), ("a\nb\nc\nd\n", "z\n"), ("a", "a\n")] {
        let p = generate_patch(Some(old), Some(new));
        assert!(!is_new_file_patch(&p), "{:?} -> {:?}", old, new);
        assert!(p.lines().count() > 2);
        assert!(hunk_ranges_fit(&p));
        assert_eq!(apply_patch(old, &p), Ok(new.to_string()));
    }
    assert_eq!(generate_patch(Some("same\n"), Some("same\n")).lines().count(), 2);
    // A new empty file records nothing, so applying the store does not create it.
    let steps = plan_sync(&vec![FileDiff {
        path: "empty.txt".to_string(),
        old_content: None,
        new_content: Some(FileContent::Text(String::new())),
    }]);
    assert!(steps[0].write.is_none());
}
