//! The pinned artifact versions of the app catalog: which (app, environment) pairs changed
//! between two snapshots.
use vstd::prelude::*;

use crate::text::chars_eq;
use crate::text::chars_of;

verus! {

/// The versions one app pins, as read from the catalog.
#[derive(Debug, Clone)]
pub struct AppVersions {
    pub id: String,
    pub prod: String,
    pub dev: String,
}

/// An (app, environment) pair whose version changed.
#[derive(Debug, Clone, PartialEq, Eq)]
pub struct ChangedPair {
    pub app_id: String,
    pub environment: String,
}

/// The two environments, in the order they are reported.
pub open spec fn env_name(prod: bool) -> Seq<char> {
    if prod {
        "prod"@
    } else {
        "dev"@
    }
}

/// The version an app pins for an environment.
pub open spec fn pinned(a: AppVersions, prod: bool) -> Seq<char> {
    if prod {
        a.prod@
    } else {
        a.dev@
    }
}

/// The index of the first app of `apps`, from `i` on, with id `id`.
pub open spec fn first_app_from(apps: Seq<AppVersions>, id: Seq<char>, i: int) -> Option<int>
    decreases apps.len() - i,
{
    if i < 0 || i >= apps.len() {
        None
    } else if apps[i].id@ == id {
        Some(i)
    } else {
        first_app_from(apps, id, i + 1)
    }
}

/// An app found by [`first_app_from`] lies within the list and has the id.
pub proof fn lemma_first_app(apps: Seq<AppVersions>, id: Seq<char>, i: int)
    requires
        0 <= i,
    ensures
        first_app_from(apps, id, i) matches Some(j) ==> i <= j < apps.len() && apps[j].id@ == id,
        first_app_from(apps, id, i) is None ==> forall|k: int| i <= k < apps.len() ==> apps[k].id@
            != id,
    decreases apps.len() - i,
{
    if i < apps.len() && apps[i].id@ != id {
        lemma_first_app(apps, id, i + 1);
    }
}

/// Whether the version `a` pins for an environment differs from the old snapshot's: the
/// app is new, or the first old app with its id pins another version.
pub open spec fn version_changed(old: Seq<AppVersions>, a: AppVersions, prod: bool) -> bool {
    match first_app_from(old, a.id@, 0) {
        None => true,
        Some(j) => pinned(old[j], prod) != pinned(a, prod),
    }
}

/// The changed pairs of one app: `prod` first, then `dev`.
pub open spec fn app_changes(old: Seq<AppVersions>, a: AppVersions) -> Seq<(Seq<char>, Seq<char>)> {
    (if version_changed(old, a, true) {
        seq![(a.id@, env_name(true))]
    } else {
        Seq::empty()
    }) + (if version_changed(old, a, false) {
        seq![(a.id@, env_name(false))]
    } else {
        Seq::empty()
    })
}

/// The changed pairs, app by app in the order of the new snapshot.
pub open spec fn spec_diff(old: Seq<AppVersions>, new: Seq<AppVersions>) -> Seq<
    (Seq<char>, Seq<char>),
>
    decreases new.len(),
{
    if new.len() == 0 {
        Seq::empty()
    } else {
        spec_diff(old, new.drop_last()) + app_changes(old, new.last())
    }
}

/// The view of a list of changed pairs.
pub open spec fn pairs_view(p: Seq<ChangedPair>) -> Seq<(Seq<char>, Seq<char>)> {
    p.map_values(|c: ChangedPair| (c.app_id@, c.environment@))
}

/// An app whose id is in the list is found.
proof fn lemma_first_app_found(apps: Seq<AppVersions>, id: Seq<char>, i: int, k: int)
    requires
        0 <= i <= k < apps.len(),
        apps[k].id@ == id,
    ensures
        first_app_from(apps, id, i) is Some,
    decreases k - i,
{
    if i < k && apps[i].id@ != id {
        lemma_first_app_found(apps, id, i + 1, k);
    }
}

/// The pairs the diff reports are exactly those of apps of the new snapshot whose version
/// changed: each names an app of the new snapshot, an environment `prod` or `dev`, and a
/// change of that app's version there.
pub proof fn lemma_diff_reports_changes_of_new_apps(old: Seq<AppVersions>, new: Seq<AppVersions>)
    ensures
        forall|k: int|
            0 <= k < spec_diff(old, new).len() ==> exists|i: int|
                0 <= i < new.len() && (#[trigger] new[i]).id@ == (#[trigger] spec_diff(old, new)[k]).0 && (
                spec_diff(old, new)[k].1 == "prod"@ || spec_diff(old, new)[k].1 == "dev"@)
                    && version_changed(old, new[i], spec_diff(old, new)[k].1 == "prod"@),
    decreases new.len(),
{
    reveal_strlit("prod");
    reveal_strlit("dev");
    if new.len() > 0 {
        let prev = new.drop_last();
        lemma_diff_reports_changes_of_new_apps(old, prev);
        let d = spec_diff(old, new);
        let dp = spec_diff(old, prev);
        let last = new.last();
        assert forall|k: int| 0 <= k < d.len() implies exists|i: int|
            0 <= i < new.len() && (#[trigger] new[i]).id@ == (#[trigger] d[k]).0 && (d[k].1 == "prod"@
                || d[k].1 == "dev"@) && version_changed(old, new[i], d[k].1 == "prod"@) by {
            if k < dp.len() {
                assert(d[k] == dp[k]);
                let i = choose|i: int|
                    0 <= i < prev.len() && (#[trigger] prev[i]).id@ == dp[k].0 && (dp[k].1
                        == "prod"@ || dp[k].1 == "dev"@) && version_changed(
                        old,
                        prev[i],
                        dp[k].1 == "prod"@,
                    );
                assert(new[i] == prev[i]);
            } else {
                let c = app_changes(old, last);
                assert(d[k] == c[k - dp.len()]);
                assert(new[new.len() - 1] == last);
                assert("prod"@.len() != "dev"@.len());
            }
        }
    }
}

/// An app of the new snapshot that no app of the old one has the id of is reported as
/// changed in both environments.
pub proof fn lemma_new_app_changes_both(old: Seq<AppVersions>, new: Seq<AppVersions>, i: int)
    requires
        0 <= i < new.len(),
        forall|j: int| 0 <= j < old.len() ==> (#[trigger] old[j]).id@ != new[i].id@,
    ensures
        spec_diff(old, new).contains((new[i].id@, "prod"@)),
        spec_diff(old, new).contains((new[i].id@, "dev"@)),
    decreases new.len(),
{
    lemma_first_app(old, new[i].id@, 0);
    let d = spec_diff(old, new);
    let prev = new.drop_last();
    let dp = spec_diff(old, prev);
    if i == new.len() - 1 {
        let c = app_changes(old, new[i]);
        assert(c == seq![(new[i].id@, "prod"@), (new[i].id@, "dev"@)]);
        assert(d[dp.len() as int] == (new[i].id@, "prod"@));
        assert(d[dp.len() + 1int] == (new[i].id@, "dev"@));
    } else {
        assert(prev[i] == new[i]);
        lemma_new_app_changes_both(old, prev, i);
        let a = choose|a: int| 0 <= a < dp.len() && dp[a] == (new[i].id@, "prod"@);
        let b = choose|b: int| 0 <= b < dp.len() && dp[b] == (new[i].id@, "dev"@);
        assert(d[a] == dp[a]);
        assert(d[b] == dp[b]);
    }
}

/// Comparing a snapshot with itself reports nothing, provided apps that share an id pin the
/// same versions (with duplicate ids, only the first such app is compared against).
pub proof fn lemma_diff_of_unchanged_snapshot(apps: Seq<AppVersions>)
    requires
        forall|i: int, j: int|
            0 <= i < apps.len() && 0 <= j < apps.len() && (#[trigger] apps[i]).id@
                == (#[trigger] apps[j]).id@ ==> apps[i].prod@ == apps[j].prod@ && apps[i].dev@
                == apps[j].dev@,
    ensures
        spec_diff(apps, apps) == Seq::<(Seq<char>, Seq<char>)>::empty(),
{
    lemma_diff_empty_prefix(apps, apps.len() as int);
    assert(apps.subrange(0, apps.len() as int) =~= apps);
}

proof fn lemma_diff_empty_prefix(apps: Seq<AppVersions>, n: int)
    requires
        0 <= n <= apps.len(),
        forall|i: int, j: int|
            0 <= i < apps.len() && 0 <= j < apps.len() && (#[trigger] apps[i]).id@
                == (#[trigger] apps[j]).id@ ==> apps[i].prod@ == apps[j].prod@ && apps[i].dev@
                == apps[j].dev@,
    ensures
        spec_diff(apps, apps.subrange(0, n)) == Seq::<(Seq<char>, Seq<char>)>::empty(),
    decreases n,
{
    if n > 0 {
        let pre = apps.subrange(0, n);
        lemma_diff_empty_prefix(apps, n - 1);
        assert(pre.drop_last() =~= apps.subrange(0, n - 1));
        let a = pre.last();
        assert(a == apps[n - 1]);
        lemma_first_app(apps, a.id@, 0);
        lemma_first_app_found(apps, a.id@, 0, n - 1);
        let j = first_app_from(apps, a.id@, 0)->0;
        assert(apps[j].id@ == apps[n - 1].id@);
        assert(!version_changed(apps, a, true));
        assert(!version_changed(apps, a, false));
        assert(app_changes(apps, a) =~= Seq::<(Seq<char>, Seq<char>)>::empty());
        assert(spec_diff(apps, pre) =~= Seq::<(Seq<char>, Seq<char>)>::empty());
    }
}

/// Every pair an app of the new snapshot contributes is reported.
proof fn lemma_app_changes_reported(old: Seq<AppVersions>, new: Seq<AppVersions>, i: int, p: (
    Seq<char>,
    Seq<char>,
))
    requires
        0 <= i < new.len(),
        app_changes(old, new[i]).contains(p),
    ensures
        spec_diff(old, new).contains(p),
    decreases new.len(),
{
    let prev = new.drop_last();
    let dp = spec_diff(old, prev);
    let d = spec_diff(old, new);
    if i == new.len() - 1 {
        let c = app_changes(old, new[i]);
        let k = choose|k: int| 0 <= k < c.len() && c[k] == p;
        assert(d[dp.len() + k] == p);
    } else {
        assert(prev[i] == new[i]);
        lemma_app_changes_reported(old, prev, i, p);
        let k = choose|k: int| 0 <= k < dp.len() && dp[k] == p;
        assert(d[k] == p);
    }
}

/// For an app of the new snapshot whose id no other new app has, and which the old snapshot
/// has (its first app with that id at `j`), each environment is reported exactly when the
/// versions pinned for that same environment differ.
pub proof fn lemma_diff_compares_same_environment(
    old: Seq<AppVersions>,
    new: Seq<AppVersions>,
    i: int,
    j: int,
)
    requires
        0 <= i < new.len(),
        forall|k: int| 0 <= k < new.len() && k != i ==> (#[trigger] new[k]).id@ != new[i].id@,
        first_app_from(old, new[i].id@, 0) == Some(j),
    ensures
        spec_diff(old, new).contains((new[i].id@, "prod"@)) <==> old[j].prod@ != new[i].prod@,
        spec_diff(old, new).contains((new[i].id@, "dev"@)) <==> old[j].dev@ != new[i].dev@,
{
    reveal_strlit("prod");
    reveal_strlit("dev");
    assert("prod"@.len() != "dev"@.len());
    let a = new[i];
    let c = app_changes(old, a);
    lemma_diff_reports_changes_of_new_apps(old, new);
    let d = spec_diff(old, new);
    if old[j].prod@ != a.prod@ {
        assert(c[0] == (a.id@, "prod"@));
        lemma_app_changes_reported(old, new, i, (a.id@, "prod"@));
    }
    if old[j].dev@ != a.dev@ {
        assert(c[c.len() - 1] == (a.id@, "dev"@));
        lemma_app_changes_reported(old, new, i, (a.id@, "dev"@));
    }
    if d.contains((a.id@, "prod"@)) {
        let k = choose|k: int| 0 <= k < d.len() && d[k] == (a.id@, "prod"@);
        assert(d[k].0 == a.id@);
        let i2 = choose|i2: int|
            0 <= i2 < new.len() && (#[trigger] new[i2]).id@ == (#[trigger] d[k]).0 && (d[k].1
                == "prod"@ || d[k].1 == "dev"@) && version_changed(old, new[i2], d[k].1 == "prod"@);
        assert(i2 == i);
    }
    if d.contains((a.id@, "dev"@)) {
        let k = choose|k: int| 0 <= k < d.len() && d[k] == (a.id@, "dev"@);
        assert(d[k].0 == a.id@);
        let i2 = choose|i2: int|
            0 <= i2 < new.len() && (#[trigger] new[i2]).id@ == (#[trigger] d[k]).0 && (d[k].1
                == "prod"@ || d[k].1 == "dev"@) && version_changed(old, new[i2], d[k].1 == "prod"@);
        assert(i2 == i);
    }
}

/// The index of the first app with the given id.
fn find_app(apps: &Vec<AppVersions>, id: &[char]) -> (r: Option<usize>)
    ensures
        match first_app_from(apps@, id@, 0) {
            None => r is None,
            Some(j) => r matches Some(k) && k as int == j,
        },
{
    let mut i: usize = 0;
    while i < apps.len()
        invariant
            i <= apps@.len(),
            first_app_from(apps@, id@, i as int) == first_app_from(apps@, id@, 0),
        decreases apps.len() - i,
    {
        let a = chars_of(apps[i].id.as_str());
        if chars_eq(a.as_slice(), id) {
            return Some(i);
        }
        i = i + 1;
    }
    None
}

/// Whether an app's version for an environment differs from the old snapshot's.
fn changed(old: &Vec<AppVersions>, a: &AppVersions, prod: bool) -> (r: bool)
    ensures
        r == version_changed(old@, *a, prod),
{
    let id = chars_of(a.id.as_str());
    proof {
        lemma_first_app(old@, a.id@, 0);
    }
    match find_app(old, id.as_slice()) {
        None => true,
        Some(j) => {
            assert(first_app_from(old@, a.id@, 0) == Some(j as int));
            if prod {
                let x = chars_of(old[j].prod.as_str());
                let y = chars_of(a.prod.as_str());
                !chars_eq(x.as_slice(), y.as_slice())
            } else {
                let x = chars_of(old[j].dev.as_str());
                let y = chars_of(a.dev.as_str());
                !chars_eq(x.as_slice(), y.as_slice())
            }
        },
    }
}

/// The (app, environment) pairs whose pinned version differs between two catalog snapshots,
/// in the order of the new snapshot's apps, `prod` before `dev`.
///
/// Only the version is compared. An app that is new counts as changed in both environments;
/// an app that was removed does not appear.
pub fn changed_pairs(old: &Vec<AppVersions>, new: &Vec<AppVersions>) -> (r: Vec<ChangedPair>)
    ensures
        pairs_view(r@) == spec_diff(old@, new@),
{
    let mut out: Vec<ChangedPair> = Vec::new();
    let mut i: usize = 0;
    while i < new.len()
        invariant
            i <= new@.len(),
            pairs_view(out@) == spec_diff(old@, new@.subrange(0, i as int)),
        decreases new.len() - i,
    {
        let a = &new[i];
        let ghost before = out@;
        if changed(old, a, true) {
            out.push(ChangedPair { app_id: a.id.clone(), environment: String::from_str("prod") });
        }
        let ghost mid = out@;
        if changed(old, a, false) {
            out.push(ChangedPair { app_id: a.id.clone(), environment: String::from_str("dev") });
        }
        proof {
            let next = new@.subrange(0, i + 1);
            assert(next.drop_last() =~= new@.subrange(0, i as int));
            assert(next.last() == new@[i as int]);
            assert(pairs_view(out@) =~= pairs_view(before) + app_changes(old@, new@[i as int]));
        }
        i = i + 1;
    }
    assert(new@.subrange(0, new@.len() as int) =~= new@);
    out
}

/// The changed pairs between two parsed catalog snapshots (see [`changed_pairs`]); a
/// snapshot that failed to parse gives `parse old: {message}` or `parse new: {message}`,
/// the old one checked first.
pub fn diff_pairs(
    old: &Result<Vec<AppVersions>, String>,
    new: &Result<Vec<AppVersions>, String>,
) -> (r: Result<Vec<ChangedPair>, String>)
    ensures
        match (old, new) {
            (Err(e), _) => r matches Err(m) && m@ == "parse old: "@ + e@,
            (Ok(_), Err(e)) => r matches Err(m) && m@ == "parse new: "@ + e@,
            (Ok(o), Ok(n)) => r matches Ok(p) && pairs_view(p@) == spec_diff(o@, n@),
        },
{
    let o = match old {
        Err(e) => {
            let mut m = String::from_str("parse old: ");
            m.append(e.as_str());
            return Err(m);
        },
        Ok(o) => o,
    };
    let n = match new {
        Err(e) => {
            let mut m = String::from_str("parse new: ");
            m.append(e.as_str());
            return Err(m);
        },
        Ok(n) => n,
    };
    Ok(changed_pairs(o, n))
}

/// The command-line checks of the version diff: both snapshot paths are required.
pub fn check_diff_args(old_path: &str, new_path: &str) -> (r: Result<(), String>)
    ensures
        old_path@.len() == 0 ==> (r matches Err(m) && m@ == "missing --old <path>"@),
        old_path@.len() > 0 && new_path@.len() == 0 ==> (r matches Err(m) && m@
            == "missing --new <path>"@),
        old_path@.len() > 0 && new_path@.len() > 0 ==> r is Ok,
{
    if chars_of(old_path).len() == 0 {
        return Err(String::from_str("missing --old <path>"));
    }
    if chars_of(new_path).len() == 0 {
        return Err(String::from_str("missing --new <path>"));
    }
    Ok(())
}

} // verus!
