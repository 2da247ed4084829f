use domain_router::bump::{
    check_bump_args, confirm_bump, edit_version_line, plan_bump, BumpOutcome, BumpPlan,
};
use domain_router::versions::AppVersions;

const SAMPLE: &str = "\
apps:
  - id: aimloul-blog
    image: ghcr.io/imloul-com/aimloul-blog-static
    route: /
    env:
      prod:
        version: prod-latest
        pages: portfolio
      dev:
        version: dev-latest
        pages: portfolio-dev

  - id: ast-viz
    image: ghcr.io/imloul-com/ast-viz-static
    route: /tools/ast-viz
    env:
      prod:
        version: prod-latest
        pages: ast-viz
      dev:
        version: dev-latest
        pages: ast-viz-dev

  - id: bloom-filter
    image: ghcr.io/imloul-com/bloom-filter-static
    route: /tools/bloom-filter
    env:
      prod:
        version: prod-latest
        pages: bloom-filter
      dev:
        version: dev-latest
        pages: bloom-filter-dev
";

/// Reads the (id, prod version, dev version) of each app; `apps` is required.
fn parse(text: &str) -> Result<Vec<AppVersions>, String> {
    let doc: serde_yaml::Value = serde_yaml::from_str(text).map_err(|e| e.to_string())?;
    let apps = doc
        .get("apps")
        .and_then(|a| a.as_sequence())
        .ok_or("missing field `apps`")?
        .clone();
    let mut out = Vec::new();
    for app in apps {
        let field = |v: Option<&serde_yaml::Value>| -> Result<String, String> {
            v.and_then(|x| x.as_str()).map(|s| s.to_string()).ok_or("missing field".to_string())
        };
        let id = field(app.get("id"))?;
        let env = app.get("env").ok_or("missing field `env`")?;
        let prod = field(env.get("prod").and_then(|p| p.get("version")))?;
        let dev = field(env.get("dev").and_then(|p| p.get("version")))?;
        out.push(AppVersions { id, prod, dev });
    }
    Ok(out)
}

/// Plans the bump, then checks the edited text by parsing it again.
fn bump_in_text(
    text: &str,
    app_id: &str,
    env_key: &str,
    new_version: &str,
) -> Result<BumpOutcome, String> {
    match plan_bump(text, &parse(text), app_id, env_key, new_version)? {
        BumpPlan::NoChange => Ok(BumpOutcome::NoChange),
        BumpPlan::Edit { new_text, old_version } => {
            let reparsed = parse(&new_text);
            confirm_bump(&reparsed, app_id, env_key, new_version, new_text, old_version)
        }
    }
}

fn assert_changed(result: BumpOutcome) -> (String, String) {
    match result {
        BumpOutcome::Changed { new_text, old_version } => (new_text, old_version),
        BumpOutcome::NoChange => panic!("expected Changed, got NoChange"),
    }
}

#[test]
fn bumps_blog_prod_first_app() {
    let (new, old) =
        assert_changed(bump_in_text(SAMPLE, "aimloul-blog", "prod", "sha-abc123def456").unwrap());
    assert_eq!(old, "prod-latest");
    assert!(new.contains("        version: sha-abc123def456\n        pages: portfolio\n"));
    assert!(new.contains("        version: dev-latest\n        pages: portfolio-dev\n"));
    assert!(new.contains("        version: prod-latest\n        pages: ast-viz\n"));
}

#[test]
fn bumps_middle_app_dev() {
    let (new, _) =
        assert_changed(bump_in_text(SAMPLE, "ast-viz", "dev", "sha-aaaaaaaaaaaa").unwrap());
    assert!(new.contains("        version: sha-aaaaaaaaaaaa\n        pages: ast-viz-dev\n"));
    assert!(new.contains("        version: prod-latest\n        pages: portfolio\n"));
    assert!(new.contains("        version: prod-latest\n        pages: bloom-filter\n"));
}

#[test]
fn bumps_last_app_prod() {
    let (new, _) =
        assert_changed(bump_in_text(SAMPLE, "bloom-filter", "prod", "sha-bbbbbbbbbbbb").unwrap());
    assert!(new.contains("        version: sha-bbbbbbbbbbbb\n        pages: bloom-filter\n"));
    assert!(new.contains("        version: dev-latest\n        pages: bloom-filter-dev\n"));
}

#[test]
fn idempotent_when_already_pinned() {
    let once =
        assert_changed(bump_in_text(SAMPLE, "ast-viz", "prod", "sha-cccccccccccc").unwrap()).0;
    let twice = bump_in_text(&once, "ast-viz", "prod", "sha-cccccccccccc").unwrap();
    assert_eq!(twice, BumpOutcome::NoChange);
}

#[test]
fn preserves_blank_lines_between_apps() {
    let (new, _) =
        assert_changed(bump_in_text(SAMPLE, "aimloul-blog", "prod", "sha-dddddddddddd").unwrap());
    assert!(new.contains("        pages: portfolio-dev\n\n  - id: ast-viz\n"));
}

#[test]
fn preserves_comments() {
    let with_comment =
        SAMPLE.replace("  - id: ast-viz", "  # the AST visualizer tool\n  - id: ast-viz");
    let (new, _) =
        assert_changed(bump_in_text(&with_comment, "ast-viz", "prod", "sha-eeeeeeeeeeee").unwrap());
    assert!(new.contains("# the AST visualizer tool"));
}

#[test]
fn preserves_diff_minimality() {
    let (new, _) =
        assert_changed(bump_in_text(SAMPLE, "ast-viz", "dev", "sha-ffffffffffff").unwrap());
    let mut differing_lines = 0;
    for (a, b) in SAMPLE.lines().zip(new.lines()) {
        if a != b {
            differing_lines += 1;
        }
    }
    assert_eq!(differing_lines, 1, "exactly one line should differ; got {differing_lines}");
    assert_eq!(SAMPLE.lines().count(), new.lines().count());
}

#[test]
fn errors_on_unknown_app() {
    let err = bump_in_text(SAMPLE, "nope", "prod", "sha-x").unwrap_err();
    assert!(err.contains("'nope'"));
}

#[test]
fn errors_on_invalid_yaml() {
    let err = bump_in_text("not: [valid: yaml", "x", "prod", "sha-x").unwrap_err();
    assert!(err.contains("parse apps.yaml"));
}

#[test]
fn edit_keeps_crlf_line_breaks_and_indentation() {
    let text = "apps:\r\n  - id: a\r\n    env:\r\n      prod:\r\n        version: 1\r\n";
    let out = edit_version_line(text, "a", "prod", "2").unwrap();
    assert_eq!(out, "apps:\r\n  - id: a\r\n    env:\r\n      prod:\r\n        version: 2\r\n");
}

#[test]
fn edit_reports_walking_off_the_app() {
    let text = "apps:\n  - id: a\n    env:\n  - id: b\n    env:\n      prod:\n        version: 1\n";
    let e = edit_version_line(text, "a", "prod", "2").unwrap_err();
    assert_eq!(e, "internal: walked off app 'a' before finding env 'prod' version line");
}

#[test]
fn edit_reports_walking_off_the_env() {
    let text = "apps:\n  - id: a\n    env:\n      prod:\n      dev:\n        version: 1\n";
    let e = edit_version_line(text, "a", "prod", "2").unwrap_err();
    assert_eq!(e, "internal: walked off env 'prod' before finding version line");
}

#[test]
fn edit_reports_a_missing_version_line() {
    let text = "apps:\n  - id: a\n    env:\n      prod:\n        pages: p\n";
    let e = edit_version_line(text, "a", "prod", "2").unwrap_err();
    assert_eq!(e, "internal: never found version line for app 'a' env 'prod'");
}

#[test]
fn confirm_reports_what_the_reparse_found() {
    let apps = vec![AppVersions { id: "a".into(), prod: "1".into(), dev: "2".into() }];
    let e = confirm_bump(&Ok(apps.clone()), "a", "prod", "3", String::new(), "1".into());
    assert_eq!(e, Err("post-edit verification: expected '3', got '1'".to_string()));
    let e = confirm_bump(&Ok(apps.clone()), "b", "prod", "3", String::new(), "1".into());
    assert_eq!(e, Err("post-edit verification: app not found in result".to_string()));
    let e = confirm_bump(&Err("boom".into()), "a", "prod", "3", String::new(), "1".into());
    assert_eq!(e, Err("post-edit parse failed (likely a line-edit bug): boom".to_string()));
    let ok = confirm_bump(&Ok(apps), "a", "dev", "2", "t".into(), "0".into());
    assert_eq!(ok, Ok(BumpOutcome::Changed { new_text: "t".into(), old_version: "0".into() }));
}

#[test]
fn bump_arguments_are_checked_in_order() {
    assert_eq!(check_bump_args("", "", ""), Err("missing --app <id>".to_string()));
    assert_eq!(check_bump_args("a", "", ""), Err("missing --env <prod|dev>".to_string()));
    assert_eq!(
        check_bump_args("a", "stage", ""),
        Err("--env must be 'prod' or 'dev', got 'stage'".to_string())
    );
    assert_eq!(check_bump_args("a", "dev", ""), Err("missing --version <tag>".to_string()));
    assert_eq!(check_bump_args("a", "prod", "v"), Ok(()));
}
