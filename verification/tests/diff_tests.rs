use domain_router::catalog::parse_diff_args;
use domain_router::versions::{changed_pairs, check_diff_args, diff_pairs, AppVersions, ChangedPair};

/// Reads the (id, prod version, dev version) of each app of a catalog text.
fn parse(text: &str) -> Result<Vec<AppVersions>, String> {
    let doc: serde_yaml::Value = serde_yaml::from_str(text).map_err(|e| e.to_string())?;
    let apps = match doc.get("apps") {
        Some(a) => a.as_sequence().ok_or("apps: expected a sequence")?.clone(),
        None => Vec::new(),
    };
    let mut out = Vec::new();
    for app in apps {
        let field = |v: Option<&serde_yaml::Value>, name: &str| -> Result<String, String> {
            v.and_then(|x| x.as_str())
                .map(|s| s.to_string())
                .ok_or(format!("missing field `{name}`"))
        };
        let id = field(app.get("id"), "id")?;
        let env = app.get("env").ok_or("missing field `env`")?;
        let prod = field(env.get("prod").and_then(|p| p.get("version")), "version")?;
        let dev = field(env.get("dev").and_then(|p| p.get("version")), "version")?;
        out.push(AppVersions { id, prod, dev });
    }
    Ok(out)
}

fn diff_texts(old: &str, new: &str) -> Result<Vec<ChangedPair>, String> {
    diff_pairs(&parse(old), &parse(new))
}

fn yaml_with(blog_prod: &str, blog_dev: &str, ast_prod: &str, ast_dev: &str) -> String {
    format!(
        "apps:
  - id: aimloul-blog
    image: ghcr.io/imloul-com/aimloul-blog-static
    route: /
    env:
      prod:
        version: {blog_prod}
        pages: portfolio
      dev:
        version: {blog_dev}
        pages: portfolio-dev
  - id: ast-viz
    image: ghcr.io/imloul-com/ast-viz-static
    route: /tools/ast-viz
    env:
      prod:
        version: {ast_prod}
        pages: ast-viz
      dev:
        version: {ast_dev}
        pages: ast-viz-dev
"
    )
}

fn pair(app_id: &str, environment: &str) -> ChangedPair {
    ChangedPair { app_id: app_id.to_string(), environment: environment.to_string() }
}

#[test]
fn no_changes() {
    let same = yaml_with("sha-1", "sha-2", "sha-3", "sha-4");
    let pairs = diff_texts(&same, &same).unwrap();
    assert!(pairs.is_empty());
}

#[test]
fn single_prod_bump() {
    let old = yaml_with("sha-1", "sha-2", "sha-3", "sha-4");
    let new = yaml_with("sha-1", "sha-2", "sha-99", "sha-4");
    let pairs = diff_texts(&old, &new).unwrap();
    assert_eq!(pairs, vec![pair("ast-viz", "prod")]);
}

#[test]
fn single_dev_bump() {
    let old = yaml_with("sha-1", "sha-2", "sha-3", "sha-4");
    let new = yaml_with("sha-1", "sha-99", "sha-3", "sha-4");
    let pairs = diff_texts(&old, &new).unwrap();
    assert_eq!(pairs, vec![pair("aimloul-blog", "dev")]);
}

#[test]
fn multiple_changes_same_app() {
    let old = yaml_with("sha-1", "sha-2", "sha-3", "sha-4");
    let new = yaml_with("sha-1", "sha-2", "sha-99", "sha-100");
    let pairs = diff_texts(&old, &new).unwrap();
    assert_eq!(pairs, vec![pair("ast-viz", "prod"), pair("ast-viz", "dev")]);
}

#[test]
fn cross_app_changes_preserve_yaml_order() {
    let old = yaml_with("sha-1", "sha-2", "sha-3", "sha-4");
    let new = yaml_with("sha-99", "sha-2", "sha-3", "sha-100");
    let pairs = diff_texts(&old, &new).unwrap();
    assert_eq!(pairs, vec![pair("aimloul-blog", "prod"), pair("ast-viz", "dev")]);
}

#[test]
fn newly_added_app_counts_as_changed() {
    let old = "apps: []\n".to_string();
    let new = yaml_with("sha-1", "sha-2", "sha-3", "sha-4");
    let pairs = diff_texts(&old, &new).unwrap();
    assert_eq!(pairs.len(), 4);
}

#[test]
fn removed_app_does_not_appear_in_output() {
    let old = yaml_with("sha-1", "sha-2", "sha-3", "sha-4");
    let new = "apps: []\n".to_string();
    let pairs = diff_texts(&old, &new).unwrap();
    assert!(pairs.is_empty());
}

#[test]
fn new_app_is_reported_in_both_environments() {
    let old = vec![AppVersions { id: "a".into(), prod: "1".into(), dev: "2".into() }];
    let new = vec![
        AppVersions { id: "a".into(), prod: "1".into(), dev: "2".into() },
        AppVersions { id: "b".into(), prod: "1".into(), dev: "2".into() },
    ];
    assert_eq!(changed_pairs(&old, &new), vec![pair("b", "prod"), pair("b", "dev")]);
}

#[test]
fn duplicate_ids_compare_against_the_first_old_app() {
    let old = vec![
        AppVersions { id: "a".into(), prod: "1".into(), dev: "2".into() },
        AppVersions { id: "a".into(), prod: "9".into(), dev: "9".into() },
    ];
    let new = vec![AppVersions { id: "a".into(), prod: "9".into(), dev: "2".into() }];
    assert_eq!(changed_pairs(&old, &new), vec![pair("a", "prod")]);
}

#[test]
fn parse_errors_name_the_snapshot() {
    let good = yaml_with("sha-1", "sha-2", "sha-3", "sha-4");
    let bad = "not: [valid: yaml";
    let e = diff_texts(bad, &good).unwrap_err();
    assert!(e.starts_with("parse old: "));
    let e = diff_texts(&good, bad).unwrap_err();
    assert!(e.starts_with("parse new: "));
    let e = diff_texts(bad, bad).unwrap_err();
    assert!(e.starts_with("parse old: "));
}

#[test]
fn diff_arguments_are_required() {
    assert_eq!(check_diff_args("", "b"), Err("missing --old <path>".to_string()));
    assert_eq!(check_diff_args("a", ""), Err("missing --new <path>".to_string()));
    assert_eq!(check_diff_args("a", "b"), Ok(()));
}

#[test]
fn diff_flags_are_read_in_any_order() {
    let args: Vec<String> = ["prog", "--new", "n.yaml", "--old", "o.yaml"]
        .iter()
        .map(|s| s.to_string())
        .collect();
    assert_eq!(parse_diff_args(args), ("o.yaml".to_string(), "n.yaml".to_string()));
    let args: Vec<String> = ["prog", "--old"].iter().map(|s| s.to_string()).collect();
    assert_eq!(parse_diff_args(args), (String::new(), String::new()));
}
