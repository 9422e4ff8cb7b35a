use pocket_repo::git::{
    build_file_diff, build_view, civil_from_days, format_time, history, order_refs, sort_tree_entries,
    status_char, trim_end_string, DeltaStatus, GitError, RawCommit, RawFileDelta, RawHunk, RawLine, RefInfo,
    TreeEntry,
};

#[test]
fn dates_from_timestamps() {
    assert_eq!(format_time(0), "1970-01-01");
    assert_eq!(format_time(86_399), "1970-01-01");
    assert_eq!(format_time(86_400), "1970-01-02");
    assert_eq!(format_time(-1), "1969-12-31");
    assert_eq!(format_time(951_782_400), "2000-02-29");
    assert_eq!(format_time(1_709_251_199), "2024-02-29");
    assert_eq!(format_time(4_102_444_800), "2100-01-01");
    assert_eq!(format_time(-62_135_596_800), "0001-01-01");
    assert_eq!(format_time(-62_167_219_200), "0000-01-01");
    assert_eq!(format_time(-62_198_755_200), "-001-01-01");
}

#[test]
fn civil_dates_of_day_numbers() {
    assert_eq!(civil_from_days(0), (1970, 1, 1));
    assert_eq!(civil_from_days(59), (1970, 3, 1));
    assert_eq!(civil_from_days(11_016), (2000, 2, 29));
    assert_eq!(civil_from_days(-719_468), (0, 3, 1));
}

#[test]
fn tree_entries_dirs_first_case_insensitive() {
    let entries = vec![
        TreeEntry { name: "b.txt".to_string(), is_dir: false },
        TreeEntry { name: "Src".to_string(), is_dir: true },
        TreeEntry { name: "A.md".to_string(), is_dir: false },
        TreeEntry { name: "docs".to_string(), is_dir: true },
    ];
    let sorted = sort_tree_entries(entries);
    let names: Vec<&str> = sorted.iter().map(|e| e.name.as_str()).collect();
    assert_eq!(names, vec!["docs", "Src", "A.md", "b.txt"]);
}

#[test]
fn refs_current_branch_first_then_tags() {
    let branches = vec![
        RefInfo { name: "zeta".to_string(), is_tag: false, is_head: false },
        RefInfo { name: "Alpha".to_string(), is_tag: false, is_head: false },
        RefInfo { name: "main".to_string(), is_tag: false, is_head: true },
    ];
    let tags = vec!["v2".to_string(), "V1".to_string()];
    let refs = order_refs(branches, tags);
    let names: Vec<&str> = refs.iter().map(|r| r.name.as_str()).collect();
    assert_eq!(names, vec!["main", "Alpha", "zeta", "V1", "v2"]);
    assert!(refs[3].is_tag && !refs[3].is_head);
    assert!(refs[0].is_head);
}

fn commit(oid: &str, secs: i64) -> RawCommit {
    RawCommit { oid: oid.to_string(), summary: "Fix bug".to_string(), author: "Ann".to_string(), seconds: secs }
}

#[test]
fn history_entries_and_limit() {
    let chain = vec![commit("0123456789abcdef", 0), commit("abc", 86_400), commit("fedcba9876", 0)];
    let revs = history(&chain, 2);
    assert_eq!(revs.len(), 2);
    assert_eq!(revs[0].short, "0123456");
    assert_eq!(revs[0].oid, "0123456789abcdef");
    assert_eq!(revs[0].when, "1970-01-01");
    assert_eq!(revs[1].short, "abc");
    assert_eq!(revs[1].when, "1970-01-02");
    assert_eq!(revs[1].author, "Ann");
    assert_eq!(history(&chain, 10).len(), 3);
}

fn line(origin: char, text: &[u8], old: Option<u32>, new: Option<u32>) -> RawLine {
    RawLine { origin, content: text.to_vec(), old_lineno: old, new_lineno: new }
}

#[test]
fn file_diff_counts_and_cleans_lines() {
    let raw = RawFileDelta {
        old_path: Some("a.txt".to_string()),
        new_path: Some("b.txt".to_string()),
        status: DeltaStatus::Renamed,
        is_binary: false,
        hunks: vec![
            RawHunk {
                header: b"@@ -1,2 +1,2 @@  \n".to_vec(),
                lines: vec![
                    line(' ', b"same\r\n", Some(1), Some(1)),
                    line('-', b"old\n", Some(2), None),
                    line('+', b"new", None, Some(2)),
                ],
            },
            RawHunk { header: b"@@ -9 +9 @@\n".to_vec(), lines: vec![line('+', b"bad \xff\n", None, Some(9))] },
        ],
    };
    let f = build_file_diff(&raw);
    assert_eq!(f.status, 'R');
    assert_eq!(f.additions, 2);
    assert_eq!(f.deletions, 1);
    assert_eq!(f.hunks.len(), 2);
    assert_eq!(f.hunks[0].header, "@@ -1,2 +1,2 @@");
    assert_eq!(f.hunks[0].lines[0].content, "same");
    assert_eq!(f.hunks[0].lines[1].content, "old");
    assert_eq!(f.hunks[0].lines[2].content, "new");
    assert_eq!(f.hunks[0].lines[1].old_lineno, Some(2));
    assert_eq!(f.hunks[1].lines[0].content, "bad \u{FFFD}");
    assert_eq!(f.old_path.as_deref(), Some("a.txt"));
    let view = build_view(&vec![raw]);
    assert_eq!(view.files.len(), 1);
}

#[test]
fn status_letters() {
    assert_eq!(status_char(DeltaStatus::Added), 'A');
    assert_eq!(status_char(DeltaStatus::Deleted), 'D');
    assert_eq!(status_char(DeltaStatus::Modified), 'M');
    assert_eq!(status_char(DeltaStatus::Renamed), 'R');
    assert_eq!(status_char(DeltaStatus::Copied), 'C');
    assert_eq!(status_char(DeltaStatus::Typechange), 'T');
    assert_eq!(status_char(DeltaStatus::Untracked), '?');
}

#[test]
fn trailing_whitespace_trimmed() {
    assert_eq!(trim_end_string("abc \t\u{3000}\n"), "abc");
    assert_eq!(trim_end_string("  "), "");
}

#[test]
fn error_messages() {
    assert_eq!(GitError::RepoNotFound("x".to_string()).message(), "repository not found: x");
    assert_eq!(GitError::RefNotFound("v9".to_string()).message(), "ref not found: v9");
    assert_eq!(GitError::PathNotFound("a/b".to_string()).message(), "path not found: a/b");
    assert_eq!(GitError::Git("boom".to_string()).message(), "git error: boom");
}

#[test]
fn consecutive_days_are_consecutive_dates() {
    assert_eq!(civil_from_days(-1), (1969, 12, 31));
    assert_eq!(civil_from_days(0), (1970, 1, 1));
    assert_eq!(civil_from_days(19_781), (2024, 2, 28));
    assert_eq!(civil_from_days(19_782), (2024, 2, 29));
    assert_eq!(civil_from_days(19_783), (2024, 3, 1));
    assert_eq!(civil_from_days(10_956), (1999, 12, 31));
    assert_eq!(civil_from_days(10_957), (2000, 1, 1));
}
