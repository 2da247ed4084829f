//! Pinning a new version for one (app, environment) pair of the catalog text by editing the
//! one `version:` line, so that comments, blank lines, indentation and field order stay as
//! they were.
use vstd::prelude::*;
use vstd::utf8::encode_utf8;

use crate::text::byte_count;
use crate::text::chars_ends_with;
use crate::text::chars_eq;
use crate::text::chars_find_from;
use crate::text::chars_of;
use crate::text::chars_starts_with;
use crate::text::chars_starts_with_char;
use crate::text::chars_sub;
use crate::text::ends_with;
use crate::text::extend_chars;
use crate::text::find_from;
use crate::text::lemma_find_from_some;
use crate::text::starts_with;
use crate::text::string_of;
use crate::text::trim_ws_bounds;
use crate::text::trim_ws_start;
use crate::versions::first_app_from;
use crate::versions::lemma_first_app;
use crate::versions::AppVersions;

verus! {

/// Where the line walk stands: whether the app's `- id:` line and then the environment's
/// `{env}:` line have been seen, and at which indentation (in bytes).
pub struct WalkState {
    pub found_app: bool,
    pub app_indent: int,
    pub in_env: bool,
    pub env_indent: int,
}

/// Why the line walk found no `version:` line to replace.
pub enum WalkError {
    /// A line outside the app's block came before the environment's version line.
    WalkedOffApp,
    /// A line outside the environment's block came before its version line.
    WalkedOffEnv,
    /// The text ended first.
    NeverFound,
}

/// `s` without its trailing `\n` and `\r` characters.
pub open spec fn trim_end_newlines(s: Seq<char>) -> Seq<char>
    decreases s.len(),
{
    if s.len() > 0 && (s.last() == '\n' || s.last() == '\r') {
        trim_end_newlines(s.drop_last())
    } else {
        s
    }
}

/// The end (exclusive) of the line that starts at `pos`: just after its `\n`, or the end of
/// the text.
pub open spec fn line_end(text: Seq<char>, pos: int) -> int {
    match find_from(text, seq!['\n'], pos) {
        Some(i) => i + 1,
        None => text.len() as int,
    }
}

/// The line break a line ends with: `\r\n`, `\n`, or none.
pub open spec fn line_break(line: Seq<char>) -> Seq<char> {
    if ends_with(line, seq!['\r', '\n']) {
        seq!['\r', '\n']
    } else if ends_with(line, seq!['\n']) {
        seq!['\n']
    } else {
        Seq::empty()
    }
}

/// The leading white space of a line (its line break removed).
pub open spec fn leading_space(stripped: Seq<char>) -> Seq<char> {
    stripped.subrange(0, stripped.len() - trim_ws_start(stripped).len())
}

/// A line starting inside the text ends after it starts and within the text.
pub proof fn lemma_line_end(text: Seq<char>, pos: int)
    requires
        0 <= pos < text.len(),
    ensures
        pos < line_end(text, pos) <= text.len(),
{
    lemma_find_from_some(text, seq!['\n'], pos);
}

/// The walk from the line at `pos` on, given the state and the output so far: the text with
/// the environment's first `version:` line replaced, or why there is none.
///
/// Blank and comment lines pass unchanged. Before the app is found, a line equal to
/// `app_marker` (once trimmed) starts its block. Inside the block, a line at a lower
/// indentation, or at the same indentation starting with `- `, leaves it. Then a line equal
/// to `env_marker` starts the environment's block, which any line not indented deeper leaves.
/// The first `version:` line inside it is replaced by `version: {new_version}`, keeping its
/// indentation and line break; the rest of the text follows unchanged.
pub open spec fn walk(
    text: Seq<char>,
    pos: int,
    st: WalkState,
    out: Seq<char>,
    app_marker: Seq<char>,
    env_marker: Seq<char>,
    new_version: Seq<char>,
) -> Result<Seq<char>, WalkError>
    decreases text.len() - pos,
{
    if pos < 0 || pos >= text.len() {
        Err(WalkError::NeverFound)
    } else {
        proof {
            lemma_line_end(text, pos);
        }
        let end = line_end(text, pos);
        let line = text.subrange(pos, end);
        let stripped = trim_end_newlines(line);
        let trimmed = trim_ws_start(stripped);
        let lead = leading_space(stripped);
        let indent = encode_utf8(lead).len() as int;
        if trimmed.len() == 0 || trimmed[0] == '#' {
            walk(text, end, st, out + line, app_marker, env_marker, new_version)
        } else if !st.found_app {
            if trimmed == app_marker {
                walk(
                    text,
                    end,
                    WalkState { found_app: true, app_indent: indent, ..st },
                    out + line,
                    app_marker,
                    env_marker,
                    new_version,
                )
            } else {
                walk(text, end, st, out + line, app_marker, env_marker, new_version)
            }
        } else if !(indent > st.app_indent || (indent == st.app_indent && !starts_with(
            trimmed,
            "- "@,
        ))) {
            Err(WalkError::WalkedOffApp)
        } else if !st.in_env {
            if trimmed == env_marker {
                walk(
                    text,
                    end,
                    WalkState { in_env: true, env_indent: indent, ..st },
                    out + line,
                    app_marker,
                    env_marker,
                    new_version,
                )
            } else {
                walk(text, end, st, out + line, app_marker, env_marker, new_version)
            }
        } else if !(indent > st.env_indent) {
            Err(WalkError::WalkedOffEnv)
        } else if starts_with(trimmed, "version:"@) {
            Ok(
                out + lead + "version: "@ + new_version + line_break(line) + text.subrange(
                    end,
                    text.len() as int,
                ),
            )
        } else {
            walk(text, end, st, out + line, app_marker, env_marker, new_version)
        }
    }
}

/// The walk from the start of the text.
pub open spec fn spec_edit_version_line(
    text: Seq<char>,
    app_id: Seq<char>,
    env_key: Seq<char>,
    new_version: Seq<char>,
) -> Result<Seq<char>, WalkError> {
    walk(
        text,
        0,
        WalkState { found_app: false, app_indent: 0, in_env: false, env_indent: 0 },
        Seq::empty(),
        "- id: "@ + app_id,
        env_key + seq![':'],
        new_version,
    )
}

/// `s` is the start of a line of `text`.
pub open spec fn is_line_start(text: Seq<char>, s: int) -> bool {
    s == 0 || (0 < s <= text.len() && text[s - 1] == '\n')
}

/// A `version:` line with its value replaced by `new_version`, keeping its indentation and
/// its line break.
pub open spec fn edited_line(line: Seq<char>, new_version: Seq<char>) -> Seq<char> {
    leading_space(trim_end_newlines(line)) + "version: "@ + new_version + line_break(line)
}

/// `edited` is `text` with the `version:` line that starts at `s` replaced, and nothing
/// else changed.
pub open spec fn replaces_version_line(
    text: Seq<char>,
    s: int,
    new_version: Seq<char>,
    edited: Seq<char>,
) -> bool {
    let e = line_end(text, s);
    let line = text.subrange(s, e);
    &&& 0 <= s < text.len()
    &&& is_line_start(text, s)
    &&& starts_with(trim_ws_start(trim_end_newlines(line)), "version:"@)
    &&& edited == text.subrange(0, s) + edited_line(line, new_version) + text.subrange(
        e,
        text.len() as int,
    )
}

/// The line after a line starts where the line ends.
proof fn lemma_next_line_start(text: Seq<char>, pos: int)
    requires
        0 <= pos < text.len(),
    ensures
        is_line_start(text, line_end(text, pos)) || line_end(text, pos) == text.len(),
{
    lemma_find_from_some(text, seq!['\n'], pos);
    if let Some(i) = find_from(text, seq!['\n'], pos) {
        assert(text.subrange(i, i + 1)[0] == text[i]);
    }
}

proof fn lemma_walk_replaces_one_line(
    text: Seq<char>,
    pos: int,
    st: WalkState,
    out: Seq<char>,
    app_marker: Seq<char>,
    env_marker: Seq<char>,
    new_version: Seq<char>,
)
    requires
        0 <= pos <= text.len(),
        is_line_start(text, pos) || pos == text.len(),
        out == text.subrange(0, pos),
    ensures
        walk(text, pos, st, out, app_marker, env_marker, new_version) matches Ok(t) ==> exists|
            s: int,
        | pos <= s && replaces_version_line(text, s, new_version, t),
    decreases text.len() - pos,
{
    if pos < text.len() {
        lemma_line_end(text, pos);
        lemma_next_line_start(text, pos);
        let end = line_end(text, pos);
        let line = text.subrange(pos, end);
        let stripped = trim_end_newlines(line);
        let lead = leading_space(stripped);
        let indent = encode_utf8(lead).len() as int;
        assert(out + line =~= text.subrange(0, end));
        lemma_walk_replaces_one_line(
            text,
            end,
            st,
            out + line,
            app_marker,
            env_marker,
            new_version,
        );
        lemma_walk_replaces_one_line(
            text,
            end,
            WalkState { found_app: true, app_indent: indent, ..st },
            out + line,
            app_marker,
            env_marker,
            new_version,
        );
        lemma_walk_replaces_one_line(
            text,
            end,
            WalkState { in_env: true, env_indent: indent, ..st },
            out + line,
            app_marker,
            env_marker,
            new_version,
        );
        let r = walk(text, pos, st, out, app_marker, env_marker, new_version);
        if r is Ok && starts_with(trim_ws_start(stripped), "version:"@) {
            let t = r->Ok_0;
            if t == out + lead + "version: "@ + new_version + line_break(line) + text.subrange(
                end,
                text.len() as int,
            ) {
                assert(t =~= text.subrange(0, pos) + edited_line(line, new_version)
                    + text.subrange(end, text.len() as int));
                assert(replaces_version_line(text, pos, new_version, t));
            }
        }
    }
}

/// A successful edit changes exactly one line of the text: a `version:` line, which gets
/// the new value with its indentation and line break kept; every other character of the
/// text (comments, blank lines, other fields) is kept in place.
pub proof fn lemma_edit_replaces_one_line(
    text: Seq<char>,
    app_id: Seq<char>,
    env_key: Seq<char>,
    new_version: Seq<char>,
)
    ensures
        spec_edit_version_line(text, app_id, env_key, new_version) matches Ok(t) ==> exists|
            s: int,
        | replaces_version_line(text, s, new_version, t),
{
    assert(text.subrange(0, 0) =~= Seq::<char>::empty());
    lemma_walk_replaces_one_line(
        text,
        0,
        WalkState { found_app: false, app_indent: 0, in_env: false, env_indent: 0 },
        Seq::empty(),
        "- id: "@ + app_id,
        env_key + seq![':'],
        new_version,
    );
}

/// The message of a walk error.
pub open spec fn walk_error_message(e: WalkError, app_id: Seq<char>, env_key: Seq<char>) -> Seq<
    char,
> {
    match e {
        WalkError::WalkedOffApp => "internal: walked off app '"@ + app_id
            + "' before finding env '"@ + env_key + "' version line"@,
        WalkError::WalkedOffEnv => "internal: walked off env '"@ + env_key
            + "' before finding version line"@,
        WalkError::NeverFound => "internal: never found version line for app '"@ + app_id
            + "' env '"@ + env_key + "'"@,
    }
}

/// The message of a walk error.
fn walk_message(e: WalkError, app_id: &str, env_key: &str) -> (m: String)
    ensures
        m@ == walk_error_message(e, app_id@, env_key@),
{
    match e {
        WalkError::WalkedOffApp => {
            let mut m = String::from_str("internal: walked off app '");
            m.append(app_id);
            m.append("' before finding env '");
            m.append(env_key);
            m.append("' version line");
            m
        },
        WalkError::WalkedOffEnv => {
            let mut m = String::from_str("internal: walked off env '");
            m.append(env_key);
            m.append("' before finding version line");
            m
        },
        WalkError::NeverFound => {
            let mut m = String::from_str("internal: never found version line for app '");
            m.append(app_id);
            m.append("' env '");
            m.append(env_key);
            m.append("'");
            m
        },
    }
}

/// One line of the text and its parts.
struct Line {
    end: usize,
    line: Vec<char>,
    trimmed: Vec<char>,
    lead: Vec<char>,
    indent: usize,
}

/// The line of `t` that starts at `pos`, split as the walk reads it.
fn read_line(t: &Vec<char>, pos: usize) -> (l: Line)
    requires
        pos < t@.len(),
    ensures
        l.end as int == line_end(t@, pos as int),
        l.line@ == t@.subrange(pos as int, l.end as int),
        l.trimmed@ == trim_ws_start(trim_end_newlines(l.line@)),
        l.lead@ == leading_space(trim_end_newlines(l.line@)),
        l.indent as int == encode_utf8(l.lead@).len(),
        pos < l.end <= t@.len(),
{
    proof {
        lemma_line_end(t@, pos as int);
    }
    let mut nl: Vec<char> = Vec::new();
    nl.push('\n');
    assert(nl@ =~= seq!['\n']);
    proof {
        lemma_find_from_some(t@, nl@, pos as int);
    }
    let len = t.len();
    let end = match chars_find_from(t.as_slice(), nl.as_slice(), pos) {
        Some(i) => {
            assert(i < len);
            i + 1
        },
        None => len,
    };
    let line = chars_sub(t.as_slice(), pos, end);
    let mut se = line.len();
    assert(line@.subrange(0, se as int) =~= line@);
    while se > 0 && (line[se - 1] == '\n' || line[se - 1] == '\r')
        invariant
            se <= line@.len(),
            trim_end_newlines(line@.subrange(0, se as int)) == trim_end_newlines(line@),
        decreases se,
    {
        assert(line@.subrange(0, se as int).drop_last() =~= line@.subrange(0, se - 1));
        se = se - 1;
    }
    let stripped = chars_sub(line.as_slice(), 0, se);
    let (ts, _) = trim_ws_bounds(stripped.as_slice());
    let trimmed = chars_sub(stripped.as_slice(), ts, stripped.len());
    let lead = chars_sub(stripped.as_slice(), 0, ts);
    assert(lead@ =~= leading_space(stripped@));
    let indent = byte_count(string_of(lead.as_slice()).as_str());
    Line { end, line, trimmed, lead, indent }
}

/// The line-based part of a version bump: the text with the first `version:` line of the
/// environment's block inside the app's block replaced (see [`walk`]).
pub fn edit_version_line(text: &str, app_id: &str, env_key: &str, new_version: &str) -> (r: Result<
    String,
    String,
>)
    ensures
        match spec_edit_version_line(text@, app_id@, env_key@, new_version@) {
            Ok(t) => r matches Ok(s) && s@ == t,
            Err(e) => r matches Err(m) && m@ == walk_error_message(e, app_id@, env_key@),
        },
{
    let t = chars_of(text);
    let mut app_marker = chars_of("- id: ");
    extend_chars(&mut app_marker, chars_of(app_id).as_slice());
    let mut env_marker = chars_of(env_key);
    env_marker.push(':');
    let dash = chars_of("- ");
    let version_key = chars_of("version:");
    let mut nl: Vec<char> = Vec::new();
    nl.push('\n');
    let mut crlf: Vec<char> = Vec::new();
    crlf.push('\r');
    crlf.push('\n');
    assert(nl@ =~= seq!['\n']);
    assert(crlf@ =~= seq!['\r', '\n']);
    let ghost am = app_marker@;
    let ghost em = env_marker@;
    assert(am =~= "- id: "@ + app_id@);
    assert(em =~= env_key@ + seq![':']);
    let ghost target = walk(
        t@,
        0,
        WalkState { found_app: false, app_indent: 0, in_env: false, env_indent: 0 },
        Seq::empty(),
        am,
        em,
        new_version@,
    );
    let mut found_app = false;
    let mut app_indent: usize = 0;
    let mut in_env = false;
    let mut env_indent: usize = 0;
    let mut out: Vec<char> = Vec::new();
    let mut pos: usize = 0;
    while pos < t.len()
        invariant
            t@ == text@,
            target == spec_edit_version_line(text@, app_id@, env_key@, new_version@),
            am == app_marker@,
            em == env_marker@,
            dash@ == "- "@,
            version_key@ == "version:"@,
            nl@ == seq!['\n'],
            crlf@ == seq!['\r', '\n'],
            pos <= t@.len(),
            walk(
                t@,
                pos as int,
                WalkState {
                    found_app,
                    app_indent: app_indent as int,
                    in_env,
                    env_indent: env_indent as int,
                },
                out@,
                am,
                em,
                new_version@,
            ) == target,
        decreases t.len() - pos,
    {
        let l = read_line(&t, pos);
        let end = l.end;
        let line = l.line;
        let trimmed = l.trimmed;
        let lead = l.lead;
        let indent = l.indent;
        if trimmed.len() == 0 || trimmed[0] == '#' {
            extend_chars(&mut out, line.as_slice());
        } else if !found_app {
            if chars_eq(trimmed.as_slice(), app_marker.as_slice()) {
                found_app = true;
                app_indent = indent;
            }
            extend_chars(&mut out, line.as_slice());
        } else if !(indent > app_indent || (indent == app_indent && !chars_starts_with(
            trimmed.as_slice(),
            dash.as_slice(),
        ))) {
            return Err(walk_message(WalkError::WalkedOffApp, app_id, env_key));
        } else if !in_env {
            if chars_eq(trimmed.as_slice(), env_marker.as_slice()) {
                in_env = true;
                env_indent = indent;
            }
            extend_chars(&mut out, line.as_slice());
        } else if !(indent > env_indent) {
            return Err(walk_message(WalkError::WalkedOffEnv, app_id, env_key));
        } else if chars_starts_with(trimmed.as_slice(), version_key.as_slice()) {
            extend_chars(&mut out, lead.as_slice());
            extend_chars(&mut out, chars_of("version: ").as_slice());
            extend_chars(&mut out, chars_of(new_version).as_slice());
            if chars_ends_with(line.as_slice(), crlf.as_slice()) {
                extend_chars(&mut out, crlf.as_slice());
            } else if chars_ends_with(line.as_slice(), nl.as_slice()) {
                extend_chars(&mut out, nl.as_slice());
            }
            let rest = chars_sub(t.as_slice(), end, t.len());
            extend_chars(&mut out, rest.as_slice());
            return Ok(string_of(out.as_slice()));
        } else {
            extend_chars(&mut out, line.as_slice());
        }
        pos = end;
    }
    Err(walk_message(WalkError::NeverFound, app_id, env_key))
}

/// The first step of a bump: what the parsed catalog says and the text edit it calls for.
#[derive(Debug)]
pub enum BumpPlan {
    /// The version is already pinned.
    NoChange,
    /// The edited text, still to be checked by parsing it again, and the version it replaces.
    Edit { new_text: String, old_version: String },
}

/// The result of a bump.
#[derive(Debug, PartialEq, Eq)]
pub enum BumpOutcome {
    /// The version was already pinned; nothing to write.
    NoChange,
    /// The new catalog text and the version it replaced.
    Changed { new_text: String, old_version: String },
}

/// `env_key` names the production environment (else the development one).
pub open spec fn is_prod(env_key: Seq<char>) -> bool {
    env_key == "prod"@
}

/// A catalog parse, or the parser's message, as values.
pub open spec fn parse_view(p: Result<Vec<AppVersions>, String>) -> Result<
    Seq<AppVersions>,
    Seq<char>,
> {
    match p {
        Ok(apps) => Ok(apps@),
        Err(e) => Err(e@),
    }
}

/// The version the first app with id `app_id` pins for `env_key`, if there is such an app.
pub open spec fn bump_pinned(apps: Seq<AppVersions>, app_id: Seq<char>, env_key: Seq<char>) -> Option<
    Seq<char>,
> {
    match first_app_from(apps, app_id, 0) {
        None => None,
        Some(j) => Some(crate::versions::pinned(apps[j], is_prod(env_key))),
    }
}

/// The plan of a bump, as values: nothing to do, or the edited text and the replaced version.
pub enum PlanModel {
    NoChange,
    Edit(Seq<char>, Seq<char>),
}

/// The plan of a bump of the version `app_id` pins for `env_key` to `new_version`, given the
/// catalog text and its parse.
pub open spec fn spec_plan_bump(
    text: Seq<char>,
    parsed: Result<Seq<AppVersions>, Seq<char>>,
    app_id: Seq<char>,
    env_key: Seq<char>,
    new_version: Seq<char>,
) -> Result<PlanModel, Seq<char>> {
    match parsed {
        Err(e) => Err("parse apps.yaml: "@ + e),
        Ok(apps) => match bump_pinned(apps, app_id, env_key) {
            None => Err("app id '"@ + app_id + "' not found in apps.yaml"@),
            Some(old) => if old == new_version {
                Ok(PlanModel::NoChange)
            } else {
                match spec_edit_version_line(text, app_id, env_key, new_version) {
                    Err(e) => Err(walk_error_message(e, app_id, env_key)),
                    Ok(t) => Ok(PlanModel::Edit(t, old)),
                }
            },
        },
    }
}

/// Whether the parse of the edited text confirms the bump, or the message it fails with.
pub open spec fn spec_confirm_bump(
    reparsed: Result<Seq<AppVersions>, Seq<char>>,
    app_id: Seq<char>,
    env_key: Seq<char>,
    new_version: Seq<char>,
) -> Result<(), Seq<char>> {
    match reparsed {
        Err(e) => Err("post-edit parse failed (likely a line-edit bug): "@ + e),
        Ok(apps) => match bump_pinned(apps, app_id, env_key) {
            None => Err("post-edit verification: app not found in result"@),
            Some(actual) => if actual != new_version {
                Err(
                    "post-edit verification: expected '"@ + new_version + "', got '"@ + actual
                        + "'"@,
                )
            } else {
                Ok(())
            },
        },
    }
}

/// A bump looks at the requested environment only: given the parse, it has nothing to do
/// exactly when the first app with the id already pins `new_version` in that environment
/// (`prod` its production version, `dev` its development one); otherwise a successful edit
/// reports that environment's current version as the one replaced. An unknown app is an
/// error.
pub proof fn lemma_bump_uses_requested_environment(
    text: Seq<char>,
    apps: Seq<AppVersions>,
    app_id: Seq<char>,
    env_key: Seq<char>,
    new_version: Seq<char>,
)
    requires
        env_key == "prod"@ || env_key == "dev"@,
    ensures
        first_app_from(apps, app_id, 0) is None ==> spec_plan_bump(
            text,
            Ok(apps),
            app_id,
            env_key,
            new_version,
        ) is Err,
        first_app_from(apps, app_id, 0) matches Some(j) ==> {
            let current = if env_key == "prod"@ {
                apps[j].prod@
            } else {
                apps[j].dev@
            };
            &&& (spec_plan_bump(text, Ok(apps), app_id, env_key, new_version) == Ok::<
                PlanModel,
                Seq<char>,
            >(PlanModel::NoChange)) <==> current == new_version
            &&& current != new_version ==> match spec_edit_version_line(
                text,
                app_id,
                env_key,
                new_version,
            ) {
                Ok(t) => spec_plan_bump(text, Ok(apps), app_id, env_key, new_version) == Ok::<
                    PlanModel,
                    Seq<char>,
                >(PlanModel::Edit(t, current)),
                Err(_) => spec_plan_bump(text, Ok(apps), app_id, env_key, new_version) is Err,
            }
        },
{
}

/// Bumping is idempotent: once the parse of a text confirms a bump, planning the same bump
/// on that text (with that parse) has nothing to do.
pub proof fn lemma_confirmed_bump_is_idempotent(
    text: Seq<char>,
    reparsed: Result<Seq<AppVersions>, Seq<char>>,
    app_id: Seq<char>,
    env_key: Seq<char>,
    new_version: Seq<char>,
)
    requires
        spec_confirm_bump(reparsed, app_id, env_key, new_version) is Ok,
    ensures
        spec_plan_bump(text, reparsed, app_id, env_key, new_version) == Ok::<
            PlanModel,
            Seq<char>,
        >(PlanModel::NoChange),
{
}

/// The version the app with `id` pins for the environment, from the first app with that id.
fn pinned_version(apps: &Vec<AppVersions>, app_id: &str, prod: bool) -> (r: Option<String>)
    ensures
        match first_app_from(apps@, app_id@, 0) {
            None => r is None,
            Some(j) => r matches Some(v) && v@ == crate::versions::pinned(apps@[j], prod),
        },
{
    proof {
        lemma_first_app(apps@, app_id@, 0);
    }
    let id = chars_of(app_id);
    let mut i: usize = 0;
    while i < apps.len()
        invariant
            i <= apps@.len(),
            id@ == app_id@,
            first_app_from(apps@, app_id@, i as int) == first_app_from(apps@, app_id@, 0),
        decreases apps.len() - i,
    {
        let a = chars_of(apps[i].id.as_str());
        if chars_eq(a.as_slice(), id.as_slice()) {
            return Some(if prod { apps[i].prod.clone() } else { apps[i].dev.clone() });
        }
        i = i + 1;
    }
    None
}

/// Plans a bump of the version `app_id` pins for `env_key` (`prod` or `dev`) to
/// `new_version`, given the catalog text and its parse (or the parser's message):
///
/// - a parse error gives `parse apps.yaml: {message}`;
/// - an unknown app gives `app id '{app_id}' not found in apps.yaml`;
/// - an already pinned version gives [`BumpPlan::NoChange`];
/// - otherwise the text with the version line edited ([`edit_version_line`]), or its error.
pub fn plan_bump(
    text: &str,
    parsed: &Result<Vec<AppVersions>, String>,
    app_id: &str,
    env_key: &str,
    new_version: &str,
) -> (r: Result<BumpPlan, String>)
    requires
        env_key@ == "prod"@ || env_key@ == "dev"@,
    ensures
        match spec_plan_bump(text@, parse_view(*parsed), app_id@, env_key@, new_version@) {
            Err(e) => r matches Err(m) && m@ == e,
            Ok(PlanModel::NoChange) => r matches Ok(BumpPlan::NoChange),
            Ok(PlanModel::Edit(t, o)) => r matches Ok(BumpPlan::Edit { new_text, old_version })
                && new_text@ == t && old_version@ == o,
        },
{
    let apps = match parsed {
        Err(e) => {
            let mut m = String::from_str("parse apps.yaml: ");
            m.append(e.as_str());
            return Err(m);
        },
        Ok(apps) => apps,
    };
    let prod = str_is(env_key, "prod");
    let old_version = match pinned_version(apps, app_id, prod) {
        None => {
            let mut m = String::from_str("app id '");
            m.append(app_id);
            m.append("' not found in apps.yaml");
            return Err(m);
        },
        Some(v) => v,
    };
    let o = chars_of(old_version.as_str());
    let n = chars_of(new_version);
    if chars_eq(o.as_slice(), n.as_slice()) {
        return Ok(BumpPlan::NoChange);
    }
    match edit_version_line(text, app_id, env_key, new_version) {
        Err(m) => Err(m),
        Ok(new_text) => Ok(BumpPlan::Edit { new_text, old_version }),
    }
}

/// Whether `s` is `lit`.
fn str_is(s: &str, lit: &str) -> (r: bool)
    ensures
        r == (s@ == lit@),
{
    crate::text::str_eq(s, lit)
}

/// The second step of a bump: the edited text, parsed again, must pin `new_version` for the
/// app and environment; then the bump is done.
///
/// - a parse error gives `post-edit parse failed (likely a line-edit bug): {message}`;
/// - a missing app gives `post-edit verification: app not found in result`;
/// - another version gives `post-edit verification: expected '{new}', got '{actual}'`.
pub fn confirm_bump(
    reparsed: &Result<Vec<AppVersions>, String>,
    app_id: &str,
    env_key: &str,
    new_version: &str,
    new_text: String,
    old_version: String,
) -> (r: Result<BumpOutcome, String>)
    ensures
        match spec_confirm_bump(parse_view(*reparsed), app_id@, env_key@, new_version@) {
            Err(e) => r matches Err(m) && m@ == e,
            Ok(()) => r matches Ok(BumpOutcome::Changed { new_text: t, old_version: o })
                && t == new_text && o == old_version,
        },
{
    let apps = match reparsed {
        Err(e) => {
            let mut m = String::from_str("post-edit parse failed (likely a line-edit bug): ");
            m.append(e.as_str());
            return Err(m);
        },
        Ok(apps) => apps,
    };
    let prod = str_is(env_key, "prod");
    let actual = match pinned_version(apps, app_id, prod) {
        None => {
            return Err(String::from_str("post-edit verification: app not found in result"));
        },
        Some(v) => v,
    };
    let a = chars_of(actual.as_str());
    let n = chars_of(new_version);
    if !chars_eq(a.as_slice(), n.as_slice()) {
        let mut m = String::from_str("post-edit verification: expected '");
        m.append(new_version);
        m.append("', got '");
        m.append(actual.as_str());
        m.append("'");
        return Err(m);
    }
    Ok(BumpOutcome::Changed { new_text, old_version })
}

/// The command-line checks of a bump, in order: an app id, an environment that is `prod`
/// or `dev`, and a version are required.
pub fn check_bump_args(app_id: &str, env_key: &str, version: &str) -> (r: Result<(), String>)
    ensures
        app_id@.len() == 0 ==> (r matches Err(m) && m@ == "missing --app <id>"@),
        app_id@.len() > 0 && env_key@.len() == 0 ==> (r matches Err(m) && m@
            == "missing --env <prod|dev>"@),
        app_id@.len() > 0 && env_key@.len() > 0 && env_key@ != "prod"@ && env_key@ != "dev"@ ==> (
        r matches Err(m) && m@ == "--env must be 'prod' or 'dev', got '"@ + env_key@ + "'"@),
        app_id@.len() > 0 && (env_key@ == "prod"@ || env_key@ == "dev"@) && version@.len() == 0
            ==> (r matches Err(m) && m@ == "missing --version <tag>"@),
        r is Ok <==> (app_id@.len() > 0 && (env_key@ == "prod"@ || env_key@ == "dev"@)
            && version@.len() > 0),
{
    proof {
        reveal_strlit("prod");
        reveal_strlit("dev");
    }
    if chars_of(app_id).len() == 0 {
        return Err(String::from_str("missing --app <id>"));
    }
    if chars_of(env_key).len() == 0 {
        return Err(String::from_str("missing --env <prod|dev>"));
    }
    if !str_is(env_key, "prod") && !str_is(env_key, "dev") {
        let mut m = String::from_str("--env must be 'prod' or 'dev', got '");
        m.append(env_key);
        m.append("'");
        return Err(m);
    }
    if chars_of(version).len() == 0 {
        return Err(String::from_str("missing --version <tag>"));
    }
    Ok(())
}

} // verus!
