//! The app catalog's route shape and the command-line flag parsing of the host tools
//! (`assemble_routes`, `validate_catalog`, `uptime_monitor`, `bump_version`, `diff_versions`).
use vstd::prelude::*;

use crate::text::chars_of;
use crate::text::chars_eq;

verus! {

/// A route as the catalog writes it: either a bare prefix, or a `match` / `rewrite` pair.
#[derive(Debug, Clone)]
pub enum RouteConfig {
    Prefix(String),
    Expanded(ExpandedRoute),
}

/// The expanded form of a catalog route.
#[derive(Debug, Clone)]
pub struct ExpandedRoute {
    pub path_match: String,
    pub rewrite: String,
}

/// A route with both its prefix and its rewrite target spelled out.
#[derive(Debug, Clone)]
pub struct NormalizedRoute {
    pub path_match: String,
    pub rewrite: String,
}

/// The rewrite target a bare prefix gets: `/`.
pub open spec fn spec_default_rewrite() -> Seq<char> {
    seq!['/']
}

impl RouteConfig {
    /// `(match, rewrite)` of this route once normalized.
    pub open spec fn spec_normalize(self) -> (Seq<char>, Seq<char>) {
        match self {
            RouteConfig::Prefix(p) => (p@, spec_default_rewrite()),
            RouteConfig::Expanded(e) => (e.path_match@, e.rewrite@),
        }
    }

    /// Spells out the rewrite target: a bare prefix rewrites to `/`.
    pub fn normalize(&self) -> (r: NormalizedRoute)
        ensures
            (r.path_match@, r.rewrite@) == self.spec_normalize(),
    {
        match self {
            RouteConfig::Prefix(prefix) => NormalizedRoute {
                path_match: prefix.clone(),
                rewrite: default_route_rewrite(),
            },
            RouteConfig::Expanded(route) => NormalizedRoute {
                path_match: route.path_match.clone(),
                rewrite: route.rewrite.clone(),
            },
        }
    }
}

/// The default rewrite target of a route, `/`.
pub fn default_route_rewrite() -> (r: String)
    ensures
        r@ == spec_default_rewrite(),
{
    let mut s = String::new();
    crate::text::push_char(&mut s, '/');
    s
}

/// The route an environment uses: its own override when it has one, else the app default.
pub fn resolve_route(app_default: &RouteConfig, env_override: Option<&RouteConfig>) -> (r:
    NormalizedRoute)
    ensures
        (r.path_match@, r.rewrite@) == match env_override {
            Some(o) => o.spec_normalize(),
            None => app_default.spec_normalize(),
        },
{
    match env_override {
        Some(r) => r.normalize(),
        None => app_default.normalize(),
    }
}

/// The index in `flags` of the first flag equal to `a`, searching from `k`; `-1` when none is.
pub open spec fn flag_index_from(flags: Seq<Seq<char>>, a: Seq<char>, k: int) -> int
    decreases flags.len() - k,
{
    if k < 0 || k >= flags.len() {
        -1
    } else if flags[k] == a {
        k
    } else {
        flag_index_from(flags, a, k + 1)
    }
}

/// The flag values after reading `args` from index `i` on, starting from `vals`.
///
/// At each position, an argument equal to one of `flags` that is followed by another
/// argument sets that flag's value to the next argument, and both are consumed; any other
/// argument (a flag in last position among them) is skipped.
pub open spec fn scan_flags(args: Seq<Seq<char>>, flags: Seq<Seq<char>>, i: int, vals: Seq<
    Seq<char>,
>) -> Seq<Seq<char>>
    decreases args.len() - i,
{
    if i < 0 || i >= args.len() {
        vals
    } else {
        let k = flag_index_from(flags, args[i], 0);
        if k >= 0 && i + 1 < args.len() {
            scan_flags(args, flags, i + 2, vals.update(k, args[i + 1]))
        } else {
            scan_flags(args, flags, i + 1, vals)
        }
    }
}

/// The flag values of a command line: `args[0]` is the program name and is not read.
pub open spec fn parsed_flags(args: Seq<Seq<char>>, flags: Seq<Seq<char>>, defaults: Seq<
    Seq<char>,
>) -> Seq<Seq<char>> {
    scan_flags(args, flags, 1, defaults)
}

proof fn lemma_flag_index_bounds(flags: Seq<Seq<char>>, a: Seq<char>, k: int)
    requires
        0 <= k,
    ensures
        flag_index_from(flags, a, k) == -1 || (k <= flag_index_from(flags, a, k) < flags.len()
            && flags[flag_index_from(flags, a, k)] == a),
    decreases flags.len() - k,
{
    if k < flags.len() && flags[k] != a {
        lemma_flag_index_bounds(flags, a, k + 1);
    }
}

proof fn lemma_scan_len(args: Seq<Seq<char>>, flags: Seq<Seq<char>>, i: int, vals: Seq<Seq<char>>)
    requires
        vals.len() == flags.len(),
    ensures
        scan_flags(args, flags, i, vals).len() == flags.len(),
    decreases args.len() - i,
{
    if 0 <= i < args.len() {
        let k = flag_index_from(flags, args[i], 0);
        lemma_flag_index_bounds(flags, args[i], 0);
        if k >= 0 && i + 1 < args.len() {
            lemma_scan_len(args, flags, i + 2, vals.update(k, args[i + 1]));
        } else {
            lemma_scan_len(args, flags, i + 1, vals);
        }
    }
}

/// The index of the first flag equal to `a`, if any.
fn find_flag(flags: &Vec<String>, a: &[char]) -> (r: Option<usize>)
    ensures
        match r {
            Some(k) => flag_index_from(flags.deep_view(), a@, 0) == k as int,
            None => flag_index_from(flags.deep_view(), a@, 0) == -1,
        },
{
    let ghost fl = flags.deep_view();
    let mut k: usize = 0;
    while k < flags.len()
        invariant
            k <= flags.len(),
            fl == flags.deep_view(),
            fl.len() == flags.len(),
            flag_index_from(fl, a@, k as int) == flag_index_from(fl, a@, 0),
        decreases flags.len() - k,
    {
        assert(fl[k as int] == flags[k as int]@);
        let f = chars_of(flags[k].as_str());
        if chars_eq(f.as_slice(), a) {
            return Some(k);
        }
        k = k + 1;
    }
    None
}

/// Reads a command line against `flags`, starting from `defaults`.
fn scan_args(args: &Vec<String>, flags: &Vec<String>, defaults: Vec<String>) -> (r: Vec<String>)
    requires
        defaults.len() == flags.len(),
    ensures
        r.deep_view() == parsed_flags(args.deep_view(), flags.deep_view(), defaults.deep_view()),
        r.len() == flags.len(),
{
    let ghost av = args.deep_view();
    let ghost fl = flags.deep_view();
    let mut vals = defaults;
    let mut i: usize = 1;
    if args.len() == 0 {
        return vals;
    }
    while i < args.len()
        invariant
            1 <= i,
            av == args.deep_view(),
            fl == flags.deep_view(),
            av.len() == args.len(),
            vals.len() == flags.len(),
            scan_flags(av, fl, i as int, vals.deep_view()) == parsed_flags(
                av,
                fl,
                defaults.deep_view(),
            ),
        decreases args.len() - i,
    {
        let a = chars_of(args[i].as_str());
        assert(av[i as int] == args[i as int]@);
        let found = find_flag(flags, a.as_slice());
        proof {
            lemma_flag_index_bounds(fl, av[i as int], 0);
        }
        match found {
            Some(k) => {
                if i + 1 < args.len() {
                    let ghost before = vals.deep_view();
                    vals.set(k, args[i + 1].clone());
                    assert(vals.deep_view() =~= before.update(k as int, av[i + 1]));
                    i = i + 2;
                } else {
                    i = i + 1;
                }
            },
            None => {
                i = i + 1;
            },
        }
    }
    proof {
        if i > args.len() {
            assert(scan_flags(av, fl, i as int, vals.deep_view()) == vals.deep_view());
        }
    }
    vals
}

/// Owned copies of the given strings.
fn string_list(items: &[&str]) -> (r: Vec<String>)
    ensures
        r.len() == items@.len(),
        forall|k: int| 0 <= k < items@.len() ==> #[trigger] r.deep_view()[k] == items@[k]@,
{
    let mut r: Vec<String> = Vec::new();
    let mut i: usize = 0;
    while i < items.len()
        invariant
            i <= items@.len(),
            r.len() == i,
            forall|k: int| 0 <= k < i ==> #[trigger] r.deep_view()[k] == items@[k]@,
        decreases items.len() - i,
    {
        let ghost before = r.deep_view();
        r.push(String::from_str(items[i]));
        assert(r.deep_view() =~= before.push(items@[i as int]@));
        i = i + 1;
    }
    r
}

/// Reads a command line against `flags` with the given defaults.
fn scan_with(args: &Vec<String>, flags: &[&str], defaults: &[&str]) -> (r: Vec<String>)
    requires
        flags@.len() == defaults@.len(),
    ensures
        r.len() == flags@.len(),
        r.deep_view() == parsed_flags(
            args.deep_view(),
            flags@.map_values(|f: &str| f@),
            defaults@.map_values(|d: &str| d@),
        ),
{
    let fl = string_list(flags);
    let df = string_list(defaults);
    assert(fl.deep_view() =~= flags@.map_values(|f: &str| f@));
    assert(df.deep_view() =~= defaults@.map_values(|d: &str| d@));
    scan_args(args, &fl, df)
}

/// `--app-sources-path <path>`; the path defaults to `apps.yaml`.
pub fn parse_app_sources_path(args: Vec<String>) -> (r: String)
    ensures
        r@ == parsed_flags(args.deep_view(), seq!["--app-sources-path"@], seq!["apps.yaml"@])[0],
{
    let flags = ["--app-sources-path"];
    let defaults = ["apps.yaml"];
    let mut vals = scan_with(&args, &flags, &defaults);
    assert(flags@.map_values(|f: &str| f@) =~= seq!["--app-sources-path"@]);
    assert(defaults@.map_values(|d: &str| d@) =~= seq!["apps.yaml"@]);
    vals.swap_remove(0)
}

/// `--app-sources-path`, `--output-path` and `--environment`; they default to `apps.yaml`,
/// `src/route-definitions.json` and `prod`.
pub fn parse_assemble_args(args: Vec<String>) -> (r: (String, String, String))
    ensures
        ({
            let v = parsed_flags(
                args.deep_view(),
                seq!["--app-sources-path"@, "--output-path"@, "--environment"@],
                seq!["apps.yaml"@, "src/route-definitions.json"@, "prod"@],
            );
            r.0@ == v[0] && r.1@ == v[1] && r.2@ == v[2]
        }),
{
    let flags = ["--app-sources-path", "--output-path", "--environment"];
    let defaults = ["apps.yaml", "src/route-definitions.json", "prod"];
    let vals = scan_with(&args, &flags, &defaults);
    assert(flags@.map_values(|f: &str| f@) =~= seq![
        "--app-sources-path"@,
        "--output-path"@,
        "--environment"@,
    ]);
    assert(defaults@.map_values(|d: &str| d@) =~= seq![
        "apps.yaml"@,
        "src/route-definitions.json"@,
        "prod"@,
    ]);
    assert(vals.deep_view()[0] == vals[0]@ && vals.deep_view()[1] == vals[1]@
        && vals.deep_view()[2] == vals[2]@);
    (vals[0].clone(), vals[1].clone(), vals[2].clone())
}

/// `--app-sources-path` and `--environment`; they default to `apps.yaml` and `prod`.
pub fn parse_uptime_args(args: Vec<String>) -> (r: (String, String))
    ensures
        ({
            let v = parsed_flags(
                args.deep_view(),
                seq!["--app-sources-path"@, "--environment"@],
                seq!["apps.yaml"@, "prod"@],
            );
            r.0@ == v[0] && r.1@ == v[1]
        }),
{
    let flags = ["--app-sources-path", "--environment"];
    let defaults = ["apps.yaml", "prod"];
    let vals = scan_with(&args, &flags, &defaults);
    assert(flags@.map_values(|f: &str| f@) =~= seq!["--app-sources-path"@, "--environment"@]);
    assert(defaults@.map_values(|d: &str| d@) =~= seq!["apps.yaml"@, "prod"@]);
    assert(vals.deep_view()[0] == vals[0]@ && vals.deep_view()[1] == vals[1]@);
    (vals[0].clone(), vals[1].clone())
}

/// `--app`, `--env`, `--version` and `--apps-yaml`, returned as
/// `(app_id, environment, version, apps_yaml_path)`. The first three default to the empty
/// string (the caller reports them missing); the path defaults to `worker/apps.yaml`.
pub fn parse_bump_args(args: Vec<String>) -> (r: (String, String, String, String))
    ensures
        ({
            let v = parsed_flags(
                args.deep_view(),
                seq!["--app"@, "--env"@, "--version"@, "--apps-yaml"@],
                seq![""@, ""@, ""@, "worker/apps.yaml"@],
            );
            r.0@ == v[0] && r.1@ == v[1] && r.2@ == v[2] && r.3@ == v[3]
        }),
{
    let flags = ["--app", "--env", "--version", "--apps-yaml"];
    let defaults = ["", "", "", "worker/apps.yaml"];
    let vals = scan_with(&args, &flags, &defaults);
    assert(flags@.map_values(|f: &str| f@) =~= seq![
        "--app"@,
        "--env"@,
        "--version"@,
        "--apps-yaml"@,
    ]);
    assert(defaults@.map_values(|d: &str| d@) =~= seq![""@, ""@, ""@, "worker/apps.yaml"@]);
    assert(vals.deep_view()[0] == vals[0]@ && vals.deep_view()[1] == vals[1]@
        && vals.deep_view()[2] == vals[2]@ && vals.deep_view()[3] == vals[3]@);
    (vals[0].clone(), vals[1].clone(), vals[2].clone(), vals[3].clone())
}

/// `--old` and `--new`, returned as `(old_path, new_path)`; both default to the empty string.
pub fn parse_diff_args(args: Vec<String>) -> (r: (String, String))
    ensures
        ({
            let v = parsed_flags(args.deep_view(), seq!["--old"@, "--new"@], seq![""@, ""@]);
            r.0@ == v[0] && r.1@ == v[1]
        }),
{
    let flags = ["--old", "--new"];
    let defaults = ["", ""];
    let vals = scan_with(&args, &flags, &defaults);
    assert(flags@.map_values(|f: &str| f@) =~= seq!["--old"@, "--new"@]);
    assert(defaults@.map_values(|d: &str| d@) =~= seq![""@, ""@]);
    assert(vals.deep_view()[0] == vals[0]@ && vals.deep_view()[1] == vals[1]@);
    (vals[0].clone(), vals[1].clone())
}

/// `--route-definitions-path`; the path defaults to `src/route-definitions.json`.
pub fn parse_route_definitions_path(args: Vec<String>) -> (r: String)
    ensures
        r@ == parsed_flags(
            args.deep_view(),
            seq!["--route-definitions-path"@],
            seq!["src/route-definitions.json"@],
        )[0],
{
    let flags = ["--route-definitions-path"];
    let defaults = ["src/route-definitions.json"];
    let mut vals = scan_with(&args, &flags, &defaults);
    assert(flags@.map_values(|f: &str| f@) =~= seq!["--route-definitions-path"@]);
    assert(defaults@.map_values(|d: &str| d@) =~= seq!["src/route-definitions.json"@]);
    vals.swap_remove(0)
}

} // verus!
