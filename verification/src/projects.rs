//! The firmware-update dashboard: projects, their versions, and the small
//! rules of its pages.
use vstd::prelude::*;

use crate::number::{decimal, decimal_chars, parse_i32, parse_i32_chars};
use crate::text::{
    chars_of, contains_chars, contains_sub, eq_chars, extend_chars, last_index, last_index_of,
    lit, lowercase, replace_all, replace_chars, slice_chars, split_chars, split_on, starts_with,
    starts_with_chars, string_of, to_lower,
};

verus! {

/// A project of the signed-in user.
pub struct Project {
    pub id: i64,
    pub user_id: i64,
    pub project_id: String,
    pub name: String,
    pub created_at: String,
    pub version: Option<String>,
    pub is_starred: bool,
}

/// Who is signed in, as the server answers.
pub struct UserProfile {
    pub id: Option<String>,
    pub name: Option<String>,
    pub picture: Option<String>,
    pub error: Option<String>,
}

impl UserProfile {
    /// Someone is signed in: the answer has a name and no error.
    pub fn is_signed_in(&self) -> (r: bool)
        ensures
            r == (self.error is None && self.name is Some),
    {
        self.error.is_none() && self.name.is_some()
    }
}

/// The projects the list shows: the starred ones when the filter is
/// `starred`, all of them otherwise.
pub open spec fn starred_only(projects: Seq<Project>) -> Seq<Project>
    decreases projects.len(),
{
    if projects.len() == 0 {
        Seq::empty()
    } else if projects.last().is_starred {
        starred_only(projects.drop_last()).push(projects.last())
    } else {
        starred_only(projects.drop_last())
    }
}

pub open spec fn spec_visible_projects(projects: Seq<Project>, filter: Seq<char>) -> Seq<Project> {
    if filter == "starred"@ {
        starred_only(projects)
    } else {
        projects
    }
}

pub fn visible_projects(projects: Vec<Project>, filter: &str) -> (r: Vec<Project>)
    ensures
        r@ == spec_visible_projects(projects@, filter@),
{
    if !eq_chars(&chars_of(filter), &lit("starred")) {
        return projects;
    }
    let ghost all = projects@;
    let mut rest = projects;
    let mut out: Vec<Project> = Vec::new();
    let mut k: usize = 0;
    let n = rest.len();
    assert(all.take(0) =~= Seq::<Project>::empty());
    while k < n
        invariant
            0 <= k <= n,
            n == all.len(),
            rest@ == all.skip(k as int),
            out@ == starred_only(all.take(k as int)),
        decreases n - k,
    {
        assert(rest@.len() > 0);
        let p = rest.remove(0);
        assert(p == all[k as int]);
        assert(all.take(k + 1).drop_last() =~= all.take(k as int));
        assert(all.take(k + 1).last() == all[k as int]);
        if p.is_starred {
            out.push(p);
        }
        assert(rest@ =~= all.skip(k + 1));
        k = k + 1;
    }
    assert(all.take(n as int) =~= all);
    out
}

/// The count line under the list.
pub open spec fn spec_count_text(count: usize) -> Seq<char> {
    "1 – "@ + decimal(count as nat) + " trên "@ + decimal(count as nat)
}

pub fn count_text(count: usize) -> (r: String)
    ensures
        r@ == spec_count_text(count),
{
    let mut out = lit("1 – ");
    extend_chars(&mut out, &decimal_chars(count as u64));
    extend_chars(&mut out, &lit(" trên "));
    extend_chars(&mut out, &decimal_chars(count as u64));
    string_of(&out)
}

/// The project id proposed for a name: lower-cased, spaces made dashes.
pub open spec fn spec_project_id_for(name: Seq<char>) -> Seq<char> {
    replace_all(lowercase(name), " "@, "-"@)
}

pub fn project_id_for(name: &str) -> (r: String)
    ensures
        r@ == spec_project_id_for(name@),
{
    let lower = to_lower(&chars_of(name));
    let space = lit(" ");
    proof {
        reveal_strlit(" ");
    }
    assert(space@.len() == 1);
    string_of(&replace_chars(&lower, &space, &lit("-")))
}

/// The new-project form is sent only with both fields filled.
pub fn new_project_ready(name: &str, project_id: &str) -> (r: bool)
    ensures
        r == (name@.len() > 0 && project_id@.len() > 0),
{
    !name.is_empty() && !project_id.is_empty()
}

/// The id a device asks for: the owner's id and the project's, joined by `-`.
pub open spec fn spec_full_project_id(user_suid: Seq<char>, project_id: Seq<char>) -> Seq<char> {
    user_suid + "-"@ + project_id
}

pub fn full_project_id(user_suid: &str, project_id: &str) -> (r: String)
    ensures
        r@ == spec_full_project_id(user_suid@, project_id@),
{
    let mut out = chars_of(user_suid);
    extend_chars(&mut out, &lit("-"));
    extend_chars(&mut out, &chars_of(project_id));
    string_of(&out)
}

/// The address devices fetch their firmware from.
pub fn firmware_link(user_suid: &str, project_id: &str) -> (r: String)
    ensures
        r@ == "http://localhost:7424/api/firmware/"@ + spec_full_project_id(user_suid@, project_id@),
{
    let mut out = lit("http://localhost:7424/api/firmware/");
    extend_chars(&mut out, &chars_of(full_project_id(user_suid, project_id).as_str()));
    string_of(&out)
}

/// The class of a tab of the side bar.
pub fn tab_class(active_tab: &str, tab: &str) -> (r: String)
    ensures
        r@ == (if active_tab@ == tab@ {
            "sidebar-item active"@
        } else {
            "sidebar-item"@
        }),
{
    if eq_chars(&chars_of(active_tab), &chars_of(tab)) {
        "sidebar-item active".to_string()
    } else {
        "sidebar-item".to_string()
    }
}

// ---------------------------------------------------------------------------
// Firmware versions
// ---------------------------------------------------------------------------

#[derive(Clone, Copy, Debug, PartialEq, Eq, Structural)]
pub enum UpdateType {
    Major,
    Minor,
    Patch,
}

/// Where the numbers of a version start: after its last `V`, or, with no
/// `V`, after its last `v`.
pub open spec fn version_mark(version: Seq<char>) -> Option<int> {
    match last_index_of(version, 'V') {
        Some(i) => Some(i),
        None => last_index_of(version, 'v'),
    }
}

/// The major, minor and patch numbers of a version such as `Name_V1.2.3`:
/// three `.`-separated `i32` after the mark, each 0 when it does not parse;
/// all 0 without a mark or without exactly three parts.
pub open spec fn spec_version_numbers(version: Seq<char>) -> (i32, i32, i32) {
    match version_mark(version) {
        Some(i) => {
            let parts = split_on(version.skip(i + 1), '.');
            if parts.len() == 3 {
                (
                    match parse_i32(parts[0]) {
                        Some(x) => x,
                        None => 0,
                    },
                    match parse_i32(parts[1]) {
                        Some(x) => x,
                        None => 0,
                    },
                    match parse_i32(parts[2]) {
                        Some(x) => x,
                        None => 0,
                    },
                )
            } else {
                (0, 0, 0)
            }
        },
        None => (0, 0, 0),
    }
}

fn parsed_or_zero(s: &Vec<char>) -> (r: i32)
    ensures
        r == match parse_i32(s@) {
            Some(x) => x,
            None => 0,
        },
{
    match parse_i32_chars(s) {
        Some(x) => x,
        None => 0,
    }
}

pub fn version_numbers(version: &str) -> (r: (i32, i32, i32))
    ensures
        r == spec_version_numbers(version@),
{
    let v = chars_of(version);
    let mark = match last_index(&v, 'V') {
        Some(i) => Some(i),
        None => last_index(&v, 'v'),
    };
    match mark {
        Some(i) => {
            proof {
                crate::text::lemma_last_index_of(v@, 'V');
                crate::text::lemma_last_index_of(v@, 'v');
            }
            assert(i < v.len());
            let rest = slice_chars(&v, i + 1, v.len());
            assert(rest@ =~= v@.skip(i + 1));
            let parts = split_chars(&rest, '.');
            if parts.len() == 3 {
                (parsed_or_zero(&parts[0]), parsed_or_zero(&parts[1]), parsed_or_zero(&parts[2]))
            } else {
                (0, 0, 0)
            }
        },
        None => (0, 0, 0),
    }
}

/// The numbers after an update of the given kind.
pub open spec fn bumped(n: (i32, i32, i32), kind: UpdateType) -> (int, int, int) {
    match kind {
        UpdateType::Major => (n.0 + 1, 0, 0),
        UpdateType::Minor => (n.0 as int, n.1 + 1, 0),
        UpdateType::Patch => (n.0 as int, n.1 as int, n.2 + 1),
    }
}

/// An update of that kind keeps every number within `i32`.
pub open spec fn bump_fits(n: (i32, i32, i32), kind: UpdateType) -> bool {
    match kind {
        UpdateType::Major => n.0 < i32::MAX,
        UpdateType::Minor => n.1 < i32::MAX,
        UpdateType::Patch => n.2 < i32::MAX,
    }
}

/// An integer as `{}` writes it.
pub open spec fn signed_decimal(x: int) -> Seq<char> {
    if x < 0 {
        "-"@ + decimal((-x) as nat)
    } else {
        decimal(x as nat)
    }
}

fn signed_decimal_chars(x: i32) -> (r: Vec<char>)
    ensures
        r@ == signed_decimal(x as int),
{
    if x < 0 {
        let mut out = lit("-");
        let m: i64 = -(x as i64);
        extend_chars(&mut out, &decimal_chars(m as u64));
        out
    } else {
        decimal_chars(x as u64)
    }
}

/// The name of the next firmware of a project: the project's name, `_V`
/// and the numbers of the latest firmware (`None` when it has none) after
/// the update.
pub open spec fn spec_next_version(base: Seq<char>, latest: Option<Seq<char>>, kind: UpdateType) -> Seq<
    char,
> {
    let n = match latest {
        Some(v) => spec_version_numbers(v),
        None => (0i32, 0i32, 0i32),
    };
    let b = bumped(n, kind);
    base + "_V"@ + signed_decimal(b.0) + "."@ + signed_decimal(b.1) + "."@ + signed_decimal(b.2)
}

pub fn next_version(base: &str, latest: Option<&str>, kind: UpdateType) -> (r: String)
    requires
        bump_fits(
            match latest {
                Some(v) => spec_version_numbers(v@),
                None => (0i32, 0i32, 0i32),
            },
            kind,
        ),
    ensures
        r@ == spec_next_version(
            base@,
            match latest {
                Some(v) => Some(v@),
                None => None,
            },
            kind,
        ),
{
    let n = match latest {
        Some(v) => version_numbers(v),
        None => (0, 0, 0),
    };
    let (a, b, c) = match kind {
        UpdateType::Major => (n.0 + 1, 0, 0),
        UpdateType::Minor => (n.0, n.1 + 1, 0),
        UpdateType::Patch => (n.0, n.1, n.2 + 1),
    };
    let mut out = chars_of(base);
    extend_chars(&mut out, &lit("_V"));
    extend_chars(&mut out, &signed_decimal_chars(a));
    extend_chars(&mut out, &lit("."));
    extend_chars(&mut out, &signed_decimal_chars(b));
    extend_chars(&mut out, &lit("."));
    extend_chars(&mut out, &signed_decimal_chars(c));
    string_of(&out)
}

/// The same, or `None` where the update would take a number past `i32`.
pub fn next_version_checked(base: &str, latest: Option<&str>, kind: UpdateType) -> (r: Option<String>)
    ensures
        ({
            let n = match latest {
                Some(v) => spec_version_numbers(v@),
                None => (0i32, 0i32, 0i32),
            };
            match r {
                Some(s) => bump_fits(n, kind) && s@ == spec_next_version(
                    base@,
                    match latest {
                        Some(v) => Some(v@),
                        None => None,
                    },
                    kind,
                ),
                None => !bump_fits(n, kind),
            }
        }),
{
    let n = match latest {
        Some(v) => version_numbers(v),
        None => (0, 0, 0),
    };
    let fits = match kind {
        UpdateType::Major => n.0 < i32::MAX,
        UpdateType::Minor => n.1 < i32::MAX,
        UpdateType::Patch => n.2 < i32::MAX,
    };
    if fits {
        Some(next_version(base, latest, kind))
    } else {
        None
    }
}

/// A firmware of a project.
pub struct Firmware {
    pub id: i64,
    pub version: String,
    pub file_path: String,
    pub notes: Option<String>,
    pub created_at: String,
    pub devices_count: i64,
}

/// A project with its firmwares, the latest first.
pub struct ProjectDetail {
    pub id: i64,
    pub project_id: String,
    pub user_suid: String,
    pub name: String,
    pub active_devices: i64,
    pub latest_version: String,
    pub token: String,
    pub firmwares: Vec<Firmware>,
}

/// The version of the latest firmware (the first of the list), if any.
pub open spec fn latest_version_of(d: ProjectDetail) -> Option<Seq<char>> {
    if d.firmwares@.len() > 0 {
        Some(d.firmwares@[0].version@)
    } else {
        None
    }
}

/// The version that a new firmware is counted from is that of the first
/// firmware of the list the server sends (the latest one), and there is none
/// for a project without firmware.
pub proof fn lemma_latest_is_first(d: ProjectDetail)
    ensures
        d.firmwares@.len() > 0 ==> latest_version_of(d) == Some(d.firmwares@[0].version@),
        d.firmwares@.len() == 0 ==> latest_version_of(d) is None,
{
}

impl ProjectDetail {
    /// The name proposed for the next firmware of the project, or `None`
    /// where the update would take a number past `i32`.
    pub fn next_firmware_version(&self, kind: UpdateType) -> (r: Option<String>)
        ensures
            ({
                let n = match latest_version_of(*self) {
                    Some(v) => spec_version_numbers(v),
                    None => (0i32, 0i32, 0i32),
                };
                match r {
                    Some(s) => bump_fits(n, kind) && s@ == spec_next_version(
                        self.name@,
                        latest_version_of(*self),
                        kind,
                    ),
                    None => !bump_fits(n, kind),
                }
            }),
            self.firmwares@.len() > 0 ==> match r {
                Some(s) => s@ == spec_next_version(
                    self.name@,
                    Some(self.firmwares@[0].version@),
                    kind,
                ),
                None => !bump_fits(spec_version_numbers(self.firmwares@[0].version@), kind),
            },
            self.firmwares@.len() == 0 ==> match r {
                Some(s) => s@ == spec_next_version(self.name@, None, kind),
                None => !bump_fits((0i32, 0i32, 0i32), kind),
            },
    {
        if self.firmwares.len() > 0 {
            next_version_checked(self.name.as_str(), Some(self.firmwares[0].version.as_str()), kind)
        } else {
            next_version_checked(self.name.as_str(), None, kind)
        }
    }
}

/// An update never lowers the part it is about, and resets the smaller ones.
pub proof fn lemma_bump_order(n: (i32, i32, i32), kind: UpdateType)
    ensures
        ({
            let b = bumped(n, kind);
            match kind {
                UpdateType::Major => b.0 == n.0 + 1 && b.1 == 0 && b.2 == 0,
                UpdateType::Minor => b.0 == n.0 && b.1 == n.1 + 1 && b.2 == 0,
                UpdateType::Patch => b.0 == n.0 && b.1 == n.1 && b.2 == n.2 + 1,
            }
        }),
{
}

// ---------------------------------------------------------------------------
// Test cards
// ---------------------------------------------------------------------------

/// The socket address of the test cards: the local server for a page
/// served from `localhost` or `127.0.0.1`, the page's own host otherwise.
pub open spec fn spec_socket_url(host: Seq<char>, local: Seq<char>, path: Seq<char>) -> Seq<char> {
    if contains_sub(host, "localhost"@) || contains_sub(host, "127.0.0.1"@) {
        local
    } else {
        "wss://"@ + host + path
    }
}

pub fn socket_url(host: &str, local: &str, path: &str) -> (r: String)
    ensures
        r@ == spec_socket_url(host@, local@, path@),
{
    let h = chars_of(host);
    if contains_chars(&h, &lit("localhost")) || contains_chars(&h, &lit("127.0.0.1")) {
        local.to_string()
    } else {
        let mut out = lit("wss://");
        extend_chars(&mut out, &h);
        extend_chars(&mut out, &chars_of(path));
        string_of(&out)
    }
}

/// The guard that JSPB answers begin with.
pub open spec fn jspb_guard() -> Seq<char> {
    seq![')', ']', '}', '\'', ',', '\n']
}

/// What the JSPB card shows for an answer: the raw text and the JSON after
/// the guard, or a note that the answer is not JSPB.
pub open spec fn spec_jspb_report(text: Seq<char>) -> Seq<char> {
    if starts_with(text, jspb_guard()) {
        "Raw Text:\n"@ + text + "\n\nParsed JSON:\n"@ + text.skip(6)
    } else {
        "Không nhận diện được chuẩn JSPB:\n"@ + text
    }
}

pub fn jspb_report(text: &str) -> (r: String)
    ensures
        r@ == spec_jspb_report(text@),
{
    let t = chars_of(text);
    let mut guard: Vec<char> = Vec::new();
    guard.push(')');
    guard.push(']');
    guard.push('}');
    guard.push('\'');
    guard.push(',');
    guard.push('\n');
    assert(guard@ =~= jspb_guard());
    if starts_with_chars(&t, &guard) {
        let mut out = lit("Raw Text:\n");
        extend_chars(&mut out, &t);
        extend_chars(&mut out, &lit("\n\nParsed JSON:\n"));
        let body = slice_chars(&t, 6, t.len());
        assert(body@ =~= t@.skip(6));
        extend_chars(&mut out, &body);
        string_of(&out)
    } else {
        let mut out = lit("Không nhận diện được chuẩn JSPB:\n");
        extend_chars(&mut out, &t);
        string_of(&out)
    }
}

} // verus!
