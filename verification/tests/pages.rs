use pocket_repo::context::PageContext;
use pocket_repo::framework::{patch_entries, Update};
use pocket_repo::git::{DiffLineRow, FileDiff, RevInfo, TreeEntry};
use pocket_repo::html_diff::Patch;
use pocket_repo::pages::blob::{file_content, file_name_of_path, syntax_extension, BlobPage, FileContent};
use pocket_repo::git::Blob;
use pocket_repo::highlight::{html_escape_string, to_html};
use pocket_repo::pages::diff::{diff_nav, diff_url, file_label, line_class, lineno, sign, DiffPage};
use pocket_repo::pages::refs::{ref_badge, ref_link, RefBadge, RefsPage};
use pocket_repo::pages::repos::repo_link;
use pocket_repo::pages::search::{rank_matches, search_results, search_summary, trimmed_query, SearchPage, SearchSummary};
use pocket_repo::pages::tree::{entry_link, parent_url, TreePage};
use pocket_repo::pages::{
    breadcrumb_crumbs, breadcrumb_root_url, content_type_for, is_image_path, join_path, ref_query, split_path,
};

fn ctx(params: &[(&str, &str)], query: Option<&str>) -> PageContext {
    PageContext::new(params.iter().map(|(k, v)| (k.to_string(), v.to_string())).collect(), query)
}

#[test]
fn ref_query_suffix() {
    assert_eq!(ref_query(Some("dev")), "?ref=dev");
    assert_eq!(ref_query(Some("")), "");
    assert_eq!(ref_query(None), "");
}

#[test]
fn content_types_by_extension() {
    assert_eq!(content_type_for("logo.PNG"), "image/png");
    assert_eq!(content_type_for("a/b/photo.jpeg"), "image/jpeg");
    assert_eq!(content_type_for("x.Jpg"), "image/jpeg");
    assert_eq!(content_type_for("icon.svg"), "image/svg+xml");
    assert_eq!(content_type_for("favicon.ico"), "image/x-icon");
    assert_eq!(content_type_for("notes.txt"), "application/octet-stream");
    assert_eq!(content_type_for("png"), "application/octet-stream");
    assert_eq!(content_type_for("dir.d/file"), "application/octet-stream");
    assert_eq!(content_type_for("a.b/c.gif"), "image/gif");
    assert!(is_image_path("a.webp"));
    assert!(!is_image_path("main.rs"));
}

#[test]
fn split_and_join_paths() {
    assert_eq!(split_path("src/pages/mod.rs"), ("src/pages/".to_string(), "mod.rs".to_string()));
    assert_eq!(split_path("README.md"), ("".to_string(), "README.md".to_string()));
    assert_eq!(join_path("", "a"), "a");
    assert_eq!(join_path("/src/pages/", "mod.rs"), "src/pages/mod.rs");
    assert_eq!(join_path("//", "x"), "x");
}

#[test]
fn breadcrumb_segments() {
    let crumbs = breadcrumb_crumbs("demo", "/src//pages/mod.rs", Some("dev"), true);
    assert_eq!(crumbs.len(), 3);
    assert_eq!(crumbs[0].label, "src");
    assert_eq!(crumbs[0].href.as_deref(), Some("/repo/demo/tree/src?ref=dev"));
    assert_eq!(crumbs[1].href.as_deref(), Some("/repo/demo/tree/src/pages?ref=dev"));
    assert_eq!(crumbs[2].label, "mod.rs");
    assert_eq!(crumbs[2].href, None);
    let dir = breadcrumb_crumbs("demo", "src", None, false);
    assert_eq!(dir[0].href.as_deref(), Some("/repo/demo/tree/src"));
    assert!(breadcrumb_crumbs("demo", "", None, false).is_empty());
    assert_eq!(breadcrumb_root_url("demo", Some("v1")), "/repo/demo/tree?ref=v1");
}

#[test]
fn tree_page_links() {
    assert_eq!(parent_url("demo", "src/pages"), "/repo/demo/tree/src");
    assert_eq!(parent_url("demo", "src"), "/repo/demo/tree");
    let dir = TreeEntry { name: "pages".to_string(), is_dir: true };
    let file = TreeEntry { name: "lib.rs".to_string(), is_dir: false };
    assert_eq!(entry_link("demo", "src", &dir), ("src/pages".to_string(), "/repo/demo/tree/src/pages".to_string()));
    assert_eq!(entry_link("demo", "", &file), ("lib.rs".to_string(), "/repo/demo/blob/lib.rs".to_string()));
    assert_eq!(TreePage::route_patterns(), vec!["/repo/{repo}/tree", "/repo/{repo}/tree/{*path}"]);
}

#[test]
fn page_models_from_context() {
    let c = ctx(&[("repo", "demo"), ("path", "/src/lib.rs/")], Some("q=%20main%20&rev="));
    let t = TreePage::init(&c);
    assert_eq!(t.repo, "demo");
    assert_eq!(t.path, "src/lib.rs");
    let b = BlobPage::init(&c);
    assert_eq!(b.path, "src/lib.rs");
    let d = DiffPage::init(&c);
    assert_eq!(d.rev, None);
    let d2 = DiffPage::init(&ctx(&[("repo", "demo")], Some("rev=abc")));
    assert_eq!(d2.rev.as_deref(), Some("abc"));
    let s = SearchPage::init(&c);
    assert_eq!(s.query, " main ");
    assert_eq!(trimmed_query(&s.query), "main");
    assert_eq!(RefsPage::init(&c).repo, "demo");
    match TreePage::update(t) {
        Update::Render(m) => assert_eq!(m.path, "src/lib.rs"),
        Update::Redirect(_) => panic!("unexpected redirect"),
    }
}

#[test]
fn blob_file_names() {
    assert_eq!(file_name_of_path("src/main.rs"), "main.rs");
    assert_eq!(syntax_extension("main.rs"), "rs");
    assert_eq!(syntax_extension("Makefile"), "Makefile");
}

fn rev(oid: &str, short: &str) -> RevInfo {
    RevInfo {
        oid: oid.to_string(),
        short: short.to_string(),
        summary: "Msg".to_string(),
        author: "Ann".to_string(),
        when: "2024-01-02".to_string(),
    }
}

#[test]
fn diff_timeline_navigation() {
    let history = vec![rev("aaaa1111", "aaaa111"), rev("bbbb2222", "bbbb222")];
    let wt = diff_nav("demo", None, &history);
    assert_eq!(wt.newer_url, None);
    assert_eq!(wt.older_url.as_deref(), Some("/repo/demo/diff?rev=aaaa1111"));
    assert_eq!(wt.title, "Working tree");
    assert_eq!(wt.subtitle, "Uncommitted changes");

    let first = diff_nav("demo", Some("aaaa"), &history);
    assert_eq!(first.newer_url.as_deref(), Some("/repo/demo/diff"));
    assert_eq!(first.older_url.as_deref(), Some("/repo/demo/diff?rev=bbbb2222"));
    assert_eq!(first.title, "aaaa111  Msg");
    assert_eq!(first.subtitle, "Ann · 2024-01-02");

    let last = diff_nav("demo", Some("bbbb2222"), &history);
    assert_eq!(last.newer_url.as_deref(), Some("/repo/demo/diff?rev=aaaa1111"));
    assert_eq!(last.older_url, None);

    let outside = diff_nav("demo", Some("ffff"), &history);
    assert_eq!(outside.newer_url, None);
    assert_eq!(outside.older_url, None);
    assert_eq!(outside.title, "ffff");
    assert_eq!(outside.subtitle, "commit outside recent history");
    assert_eq!(diff_url("demo", None), "/repo/demo/diff");
}

#[test]
fn diff_timeline_older_then_newer_returns() {
    let history = vec![rev("aaaa1111", "aaaa111"), rev("bbbb2222", "bbbb222"), rev("cccc3333", "cccc333")];
    let here = diff_nav("demo", Some("bbbb2222"), &history);
    assert_eq!(here.older_url.as_deref(), Some("/repo/demo/diff?rev=cccc3333"));
    let older = diff_nav("demo", Some("cccc3333"), &history);
    assert_eq!(older.newer_url.as_deref(), Some("/repo/demo/diff?rev=bbbb2222"));
    assert_eq!(here.newer_url.as_deref(), Some("/repo/demo/diff?rev=aaaa1111"));
    let newer = diff_nav("demo", Some("aaaa1111"), &history);
    assert_eq!(newer.older_url.as_deref(), Some("/repo/demo/diff?rev=bbbb2222"));
}

#[test]
fn diff_rows() {
    let f = FileDiff {
        old_path: Some("a.rs".to_string()),
        new_path: Some("b.rs".to_string()),
        status: 'R',
        is_binary: false,
        additions: 0,
        deletions: 0,
        hunks: vec![],
    };
    assert_eq!(file_label(&f), "a.rs → b.rs");
    let g = FileDiff { old_path: None, new_path: None, ..f.clone() };
    assert_eq!(file_label(&g), "?");
    let h = FileDiff { old_path: Some("x".to_string()), new_path: None, ..f };
    assert_eq!(file_label(&h), "x");
    assert_eq!(line_class('+'), "dl add");
    assert_eq!(line_class('-'), "dl del");
    assert_eq!(line_class(' '), "dl ctx");
    assert_eq!(sign('-'), "−");
    assert_eq!(sign(' '), " ");
    let row = DiffLineRow { origin: '-', content: String::new(), old_lineno: Some(12), new_lineno: None };
    assert_eq!(lineno(&row), "12");
    let both = DiffLineRow { origin: ' ', content: String::new(), old_lineno: Some(3), new_lineno: Some(40) };
    assert_eq!(lineno(&both), "40");
    let none = DiffLineRow { origin: '>', content: String::new(), old_lineno: None, new_lineno: None };
    assert_eq!(lineno(&none), "");
}

#[test]
fn search_matches_and_summary() {
    let all = vec!["src/main.rs".to_string(), "README.md".to_string(), "src/pages/mod.rs".to_string()];
    let found = search_results("main", &all);
    assert_eq!(found.total, 1);
    assert_eq!(found.shown, vec!["src/main.rs".to_string()]);
    let none = search_results("zzzz", &all);
    assert_eq!(none.total, 0);
    assert!(none.shown.is_empty());
    assert_eq!(search_summary(0), SearchSummary::NoMatches);
    assert_eq!(search_summary(1), SearchSummary::All { total: 1 });
    assert_eq!(search_summary(200), SearchSummary::All { total: 200 });
    assert_eq!(search_summary(201), SearchSummary::Truncated { total: 201 });
}

#[test]
fn search_results_are_capped() {
    let all: Vec<String> = (0..250).map(|i| format!("dir/file{i}.rs")).collect();
    let found = search_results("file", &all);
    assert_eq!(found.total, 250);
    assert_eq!(found.shown.len(), 200);
}

#[test]
fn refs_and_repo_links() {
    assert_eq!(ref_link("demo", "v1.0"), "/repo/demo/tree?ref=v1.0");
    assert_eq!(repo_link("demo"), "/repo/demo/tree");
    let head = pocket_repo::git::RefInfo { name: "main".to_string(), is_tag: false, is_head: true };
    let tag = pocket_repo::git::RefInfo { name: "v1".to_string(), is_tag: true, is_head: false };
    let plain = pocket_repo::git::RefInfo { name: "dev".to_string(), is_tag: false, is_head: false };
    assert_eq!(ref_badge(&head), RefBadge::Current);
    assert_eq!(ref_badge(&tag), RefBadge::Tag);
    assert_eq!(ref_badge(&plain), RefBadge::NoBadge);
}

#[test]
fn patch_entries_keep_order() {
    let patches = vec![
        Patch { id: "a".to_string(), html: "<p id=\"a\">1</p>".to_string() },
        Patch { id: "b".to_string(), html: "<p id=\"b\">2</p>".to_string() },
    ];
    let entries = patch_entries(patches);
    assert_eq!(entries.len(), 2);
    assert_eq!(entries[1].id, "b");
    assert_eq!(entries[0].html, "<p id=\"a\">1</p>");
}

#[test]
fn models_keep_the_chosen_ref() {
    let c = ctx(&[("repo", "demo"), ("path", "/src/")], Some("ref=dev&q=main"));
    let t = TreePage::init(&c);
    assert_eq!(t.git_ref.as_deref(), Some("dev"));
    assert_eq!(t.path, "src");
    assert_eq!(BlobPage::init(&c).git_ref.as_deref(), Some("dev"));
    let s = SearchPage::init(&c);
    assert_eq!(s.git_ref.as_deref(), Some("dev"));
    assert_eq!(s.query, "main");
    let empty = ctx(&[("repo", "demo")], Some("ref="));
    assert_eq!(TreePage::init(&empty).git_ref, None);
    assert_eq!(TreePage::init(&ctx(&[("repo", "demo")], None)).git_ref, None);
}

#[test]
fn highlighting_and_fallbacks() {
    let html = to_html("fn main() {}\n", "main.rs");
    assert!(html.starts_with("<pre"));
    assert!(html.contains("<span"));
    assert_ne!(html, "fn main() {}\n");
    let plain = to_html("a < b\n", "notes.unknownext");
    assert!(plain.starts_with("<pre"));
    assert!(plain.contains("&lt;"));
    assert_eq!(html_escape_string("<a href=\"x\">&</a>"), "&lt;a href=&quot;x&quot;&gt;&amp;&lt;/a&gt;");
}

#[test]
fn file_content_by_kind() {
    let bin = Blob { content: vec![0, 1, 2], is_binary: true };
    assert_eq!(file_content(bin, "a.bin"), FileContent::Binary(3));
    let bad = Blob { content: vec![0xff, 0xfe], is_binary: false };
    assert_eq!(file_content(bad, "a.txt"), FileContent::NotUtf8);
    let text = Blob { content: b"x = 1\n".to_vec(), is_binary: false };
    match file_content(text, "a.py") {
        FileContent::Highlighted(h) => assert!(h.starts_with("<pre")),
        other => panic!("unexpected {:?}", other),
    }
}

#[test]
fn ranking_caps_the_shown_matches() {
    let matches: Vec<(String, u32)> = (0..250u32).map(|i| (format!("f{i}"), 1000 - i)).collect();
    let r = rank_matches(&matches);
    assert_eq!(r.total, 250);
    assert_eq!(r.shown.len(), 200);
    assert_eq!(r.shown[0], "f0");
    assert_eq!(r.shown[199], "f199");
    let few = rank_matches(&vec![("b".to_string(), 5), ("a".to_string(), 3)]);
    assert_eq!(few.total, 2);
    assert_eq!(few.shown, vec!["b".to_string(), "a".to_string()]);
}
