use pocket_repo::config::{
    basename, build_map, collect_candidates, default_config_path, expand_tilde, load, repo_path, repos,
    sort_paths, CheckedCandidate, CliOptions, FileConfig, RepoEntry, Sources,
};
use pocket_repo::config::{descend_into, scan_step, ScanAction};

#[test]
fn load_prefers_cli_then_file_then_defaults() {
    let cli = CliOptions { bind: Some("127.0.0.1".to_string()), ..Default::default() };
    let file = FileConfig { bind: Some("10.0.0.1".to_string()), port: Some(7376), ..Default::default() };
    let (settings, _) = load(cli, file);
    assert_eq!(settings.bind, "127.0.0.1");
    assert_eq!(settings.port, 7376);

    let (defaults, sources) = load(CliOptions::default(), FileConfig::default());
    assert_eq!(defaults.bind, "0.0.0.0");
    assert_eq!(defaults.port, 3000);
    assert!(sources.repos.is_empty());
}

#[test]
fn load_captures_sources() {
    let cli = CliOptions { paths: vec!["/tmp/a".to_string()], ..Default::default() };
    let file = FileConfig {
        repos: vec![RepoEntry { path: "~/work".to_string(), name: Some("work".to_string()) }],
        scan_roots: vec!["~/ghq".to_string()],
        ..Default::default()
    };
    let (_, sources) = load(cli, file);
    assert_eq!(sources.cli_paths, vec!["/tmp/a".to_string()]);
    assert_eq!(sources.scan_roots, vec!["~/ghq".to_string()]);
    assert_eq!(sources.repos[0].name.as_deref(), Some("work"));
}

#[test]
fn tilde_expansion() {
    assert_eq!(expand_tilde("~", Some("/home/u")), "/home/u");
    assert_eq!(expand_tilde("~/ghq", Some("/home/u")), "/home/u/ghq");
    assert_eq!(expand_tilde("~/ghq", Some("/home/u/")), "/home/u/ghq");
    assert_eq!(expand_tilde("~/ghq", None), "~/ghq");
    assert_eq!(expand_tilde("~", None), "~");
    assert_eq!(expand_tilde("/abs/path", Some("/home/u")), "/abs/path");
    assert_eq!(expand_tilde("~user/x", Some("/home/u")), "~user/x");
}

#[test]
fn default_config_location() {
    assert_eq!(
        default_config_path(Some("/xdg"), Some("/home/u")).as_deref(),
        Some("/xdg/pocket-repo/config.toml")
    );
    assert_eq!(
        default_config_path(None, Some("/home/u")).as_deref(),
        Some("/home/u/.config/pocket-repo/config.toml")
    );
    assert_eq!(default_config_path(None, None), None);
}

#[test]
fn basename_of_paths() {
    assert_eq!(basename("/home/u/ghq/github.com/me/app"), "app");
    assert_eq!(basename("/"), "repo");
}

fn usable(name: Option<&str>, path: &str) -> CheckedCandidate {
    CheckedCandidate { name: name.map(String::from), canonical: path.to_string(), usable: true }
}

#[test]
fn registry_names_are_unique_and_sorted() {
    let reg = build_map(vec![
        usable(None, "/src/owner1/app"),
        usable(None, "/src/owner2/app"),
        usable(None, "/src/owner2/app"),
        usable(None, "/other/owner2/app"),
        usable(Some("zeta"), "/src/z"),
        CheckedCandidate { name: None, canonical: "/src/broken".to_string(), usable: false },
        usable(None, "/src/beta"),
    ]);
    let list = repos(&reg);
    let names: Vec<&str> = list.iter().map(|r| r.name.as_str()).collect();
    assert_eq!(names, vec!["app", "app-2", "beta", "owner2-app", "zeta"]);
    assert_eq!(repo_path(&reg, "owner2-app").as_deref(), Some("/src/owner2/app"));
    assert_eq!(repo_path(&reg, "app-2").as_deref(), Some("/other/owner2/app"));
    assert_eq!(repo_path(&reg, "broken"), None);
}

#[test]
fn registry_numeric_suffixes_count_up() {
    let reg = build_map(vec![
        usable(Some("x"), "/a"),
        usable(Some("x"), "/b"),
        usable(Some("x"), "/c"),
        usable(Some("x"), "/d"),
    ]);
    let names: Vec<String> = repos(&reg).into_iter().map(|r| r.name).collect();
    assert_eq!(names, vec!["x", "x-2", "x-3", "x-4"]);
}

#[test]
fn paths_sort_by_component() {
    let sorted = sort_paths(vec!["/r/a-c".to_string(), "/r/a/b".to_string(), "/r/B".to_string()]);
    assert_eq!(sorted, vec!["/r/B".to_string(), "/r/a/b".to_string(), "/r/a-c".to_string()]);
}

#[test]
fn candidates_in_priority_order() {
    let sources = Sources {
        repos: vec![RepoEntry { path: "~/work".to_string(), name: Some("w".to_string()) }],
        scan_roots: vec!["~/ghq".to_string()],
        cli_paths: vec!["/cli".to_string()],
    };
    let scanned = vec![vec!["/home/u/ghq/b".to_string(), "/home/u/ghq/a".to_string()]];
    let cands = collect_candidates(&sources, Some("/home/u"), &scanned);
    let paths: Vec<&str> = cands.iter().map(|c| c.path.as_str()).collect();
    assert_eq!(paths, vec!["/home/u/work", "/home/u/ghq/a", "/home/u/ghq/b", "/cli"]);
    assert_eq!(cands[0].name.as_deref(), Some("w"));
    assert_eq!(cands[1].name, None);
}

#[test]
fn no_sources_means_current_directory() {
    let sources = Sources { repos: vec![], scan_roots: vec![], cli_paths: vec![] };
    let cands = collect_candidates(&sources, None, &Vec::new());
    assert_eq!(cands.len(), 1);
    assert_eq!(cands[0].path, ".");
    assert_eq!(cands[0].name, None);
}

#[test]
fn registry_names_are_url_safe() {
    let reg = build_map(vec![
        usable(Some("my repo"), "/a/x"),
        usable(Some("a?b#c%d/e"), "/b/y"),
        usable(Some("my-repo"), "/c/my dir/z"),
    ]);
    let names: Vec<String> = repos(&reg).into_iter().map(|r| r.name).collect();
    assert_eq!(names, vec!["a-b-c-d-e", "my-dir-my-repo", "my-repo"]);
}

#[test]
fn scan_decisions() {
    assert_eq!(scan_step(0, true, true), ScanAction::Skip);
    assert_eq!(scan_step(3, false, true), ScanAction::Skip);
    assert_eq!(scan_step(3, true, true), ScanAction::Found);
    assert_eq!(scan_step(1, true, false), ScanAction::Descend);
    assert!(descend_into("src"));
    assert!(!descend_into(".cache"));
    assert!(descend_into(""));
}
