use pocket_repo::context::PageContext;

fn params(pairs: &[(&str, &str)]) -> Vec<(String, String)> {
    pairs.iter().map(|(k, v)| (k.to_string(), v.to_string())).collect()
}

#[test]
fn context_params_and_query() {
    let ctx = PageContext::new(params(&[("repo", "demo"), ("path", "src/lib.rs")]), Some("q=main&rev=abc123"));
    assert_eq!(ctx.param("repo"), Some("demo"));
    assert_eq!(ctx.param("path"), Some("src/lib.rs"));
    assert_eq!(ctx.param("other"), None);
    assert_eq!(ctx.query("q"), Some("main"));
    assert_eq!(ctx.query("rev"), Some("abc123"));
    assert_eq!(ctx.query("missing"), None);
}

#[test]
fn context_param_or_empty() {
    let ctx = PageContext::new(params(&[("repo", "demo")]), None);
    assert_eq!(ctx.param_or_empty("repo"), "demo");
    assert_eq!(ctx.param_or_empty("path"), "");
}

#[test]
fn context_query_is_decoded() {
    let ctx = PageContext::new(Vec::new(), Some("q=hello%20world&x=a+b"));
    assert_eq!(ctx.query("q"), Some("hello world"));
    assert_eq!(ctx.query("x"), Some("a b"));
}

#[test]
fn context_later_value_wins() {
    let ctx = PageContext::new(params(&[("repo", "first"), ("repo", "second")]), Some("q=a&q=b"));
    assert_eq!(ctx.param("repo"), Some("second"));
    assert_eq!(ctx.query("q"), Some("b"));
}

#[test]
fn context_default_is_empty() {
    let ctx = PageContext::default();
    assert_eq!(ctx.param("repo"), None);
    assert_eq!(ctx.query("q"), None);
}
