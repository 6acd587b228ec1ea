//! Repair of local project assignments in Codex's global state: threads whose
//! rollout records a working directory that is the root of exactly one known
//! local project are assigned to that project. Reading the state and rollout
//! files, backups and writes are done by the caller.

use vstd::prelude::*;
use crate::json::{
    as_array, as_bool, as_object, as_str, entries_get, entries_set, entries_set_exec, entry_views,
    get, get_str, json_object, json_str, lemma_entries_set_get, lemma_object_view, views, Json,
    JsonValue,
};
use crate::text::{
    chars_of, is_blank, is_blank_str, lower, lower_char_exec, split_char, split_char_vec,
    starts_with, string_of_all, subvec, trim, trim_range_vec, vviews,
};

verus! {

pub const GLOBAL_STATE_FILE: &'static str = ".codex-global-state.json";

pub const ASSIGNMENTS_KEY: &'static str = "thread-project-assignments";

/// Lines of a rollout file that are read at most.
pub const MAX_ROLLOUT_LINES: usize = 64;

/// Longest rollout line, in bytes, that is looked at.
pub const MAX_ROLLOUT_LINE_BYTES: u64 = 65536;

pub open spec fn replace_char(s: Seq<char>, from: char, to: char) -> Seq<char> {
    s.map_values(|c: char| if c == from { to } else { c })
}

/// `~`, `~/...` or `~\...`.
pub open spec fn is_tilde_path(v: Seq<char>) -> bool {
    v.len() > 0 && v[0] == '~' && (v.len() == 1 || v[1] == '/' || v[1] == '\\')
}

/// A leading `~` replaced by the home directory; `None` when it is needed and unknown.
pub open spec fn expand_home_spec(v: Seq<char>, home: Option<Seq<char>>) -> Option<Seq<char>> {
    if is_tilde_path(v) {
        match home {
            Some(h) => Some(h + v.drop_first()),
            None => None,
        }
    } else {
        Some(v)
    }
}

/// Path pieces with empty and `.` pieces dropped and each `..` removing the
/// piece before it (if any).
pub open spec fn resolve_parts(ps: Seq<Seq<char>>) -> Seq<Seq<char>>
    decreases ps.len(),
{
    if ps.len() == 0 {
        Seq::empty()
    } else {
        let r = resolve_parts(ps.drop_last());
        let p = ps.last();
        if p.len() == 0 || p == seq!['.'] {
            r
        } else if p == seq!['.', '.'] {
            if r.len() > 0 {
                r.drop_last()
            } else {
                r
            }
        } else {
            r.push(p)
        }
    }
}

/// The pieces joined with `sep` between them.
pub open spec fn join_parts(ps: Seq<Seq<char>>, sep: char) -> Seq<char>
    decreases ps.len(),
{
    if ps.len() == 0 {
        Seq::empty()
    } else if ps.len() == 1 {
        ps[0]
    } else {
        join_parts(ps.drop_last(), sep) + seq![sep] + ps.last()
    }
}

/// A path normalized for comparison: trimmed, `~` expanded, separators unified
/// (`\` on Windows, `/` elsewhere), `.`/`..`/empty pieces resolved, a leading
/// separator kept, and on Windows lowercased in the ASCII range. `None` for a
/// blank path or one that needs an unknown home directory.
pub open spec fn normalize_path_spec(value: Seq<char>, home: Option<Seq<char>>, windows: bool) -> Option<Seq<char>> {
    let t = trim(value);
    if t.len() == 0 {
        None
    } else {
        match expand_home_spec(t, home) {
            None => None,
            Some(e) => {
                let sep = if windows {
                    '\\'
                } else {
                    '/'
                };
                let r = if windows {
                    replace_char(e, '/', '\\')
                } else {
                    replace_char(e, '\\', '/')
                };
                let prefix = if r.len() > 0 && r[0] == sep {
                    seq![sep]
                } else {
                    Seq::<char>::empty()
                };
                let joined = prefix + join_parts(resolve_parts(split_char(r, sep)), sep);
                Some(
                    if windows {
                        lower(joined)
                    } else {
                        joined
                    },
                )
            },
        }
    }
}

pub open spec fn opt_str_view(o: Option<&str>) -> Option<Seq<char>> {
    match o {
        Some(s) => Some(s@),
        None => None,
    }
}

pub fn normalize_path(value: &str, home: Option<&str>, windows: bool) -> (r: Option<String>)
    ensures
        match r {
            Some(s) => normalize_path_spec(value@, opt_str_view(home), windows) == Some(s@),
            None => normalize_path_spec(value@, opt_str_view(home), windows) is None,
        },
{
    let v = chars_of(value);
    let (a, b) = trim_range_vec(&v);
    let t = subvec(&v, a, b);
    if t.len() == 0 {
        return None;
    }
    let tilde = t[0] == '~' && (t.len() == 1 || t[1] == '/' || t[1] == '\\');
    let e: Vec<char> = if tilde {
        match home {
            Some(h) => {
                let mut e = chars_of(h);
                let mut i: usize = 1;
                while i < t.len()
                    invariant
                        1 <= i <= t@.len(),
                        e@ == h@ + t@.subrange(1, i as int),
                    decreases t.len() - i,
                {
                    e.push(t[i]);
                    assert(t@.subrange(1, i + 1) == t@.subrange(1, i as int).push(t@[i as int]));
                    i = i + 1;
                }
                assert(t@.subrange(1, t@.len() as int) == t@.drop_first());
                e
            },
            None => return None,
        }
    } else {
        t
    };
    let ghost ev = e@;
    assert(expand_home_spec(trim(value@), opt_str_view(home)) == Some(ev));
    let sep: char = if windows {
        '\\'
    } else {
        '/'
    };
    let from: char = if windows {
        '/'
    } else {
        '\\'
    };
    let mut rv: Vec<char> = Vec::new();
    let mut i: usize = 0;
    while i < e.len()
        invariant
            i <= e@.len(),
            rv@ == replace_char(e@.subrange(0, i as int), from, sep),
        decreases e.len() - i,
    {
        let c = if e[i] == from {
            sep
        } else {
            e[i]
        };
        rv.push(c);
        assert(replace_char(e@.subrange(0, i + 1), from, sep) =~= replace_char(
            e@.subrange(0, i as int),
            from,
            sep,
        ).push(c));
        i = i + 1;
    }
    assert(e@.subrange(0, e@.len() as int) == e@);
    let pieces = split_char_vec(&rv, sep);
    let ghost ps = split_char(rv@, sep);
    let mut parts: Vec<Vec<char>> = Vec::new();
    let mut k: usize = 0;
    assert(ps.subrange(0, 0) =~= Seq::<Seq<char>>::empty());
    while k < pieces.len()
        invariant
            vviews(pieces@) == ps,
            k <= pieces@.len(),
            vviews(parts@) == resolve_parts(ps.subrange(0, k as int)),
        decreases pieces.len() - k,
    {
        let piece = &pieces[k];
        let ghost sub = ps.subrange(0, k + 1);
        assert(sub.drop_last() == ps.subrange(0, k as int));
        assert(sub.last() == piece@);
        let ghost before = vviews(parts@);
        let dot = piece.len() == 1 && piece[0] == '.';
        let dotdot = piece.len() == 2 && piece[0] == '.' && piece[1] == '.';
        proof {
            if dot {
                assert(piece@ =~= seq!['.']);
            }
            if piece@ == seq!['.'] {
                assert(piece@[0] == seq!['.'][0]);
            }
            if dotdot {
                assert(piece@ =~= seq!['.', '.']);
            }
            if piece@ == seq!['.', '.'] {
                assert(piece@[0] == seq!['.', '.'][0]);
                assert(piece@[1] == seq!['.', '.'][1]);
            }
        }
        if piece.len() == 0 || dot {
        } else if dotdot {
            if parts.len() > 0 {
                parts.pop();
                assert(vviews(parts@) =~= before.drop_last());
            }
        } else {
            let copy = subvec(piece, 0, piece.len());
            assert(piece@.subrange(0, piece@.len() as int) == piece@);
            parts.push(copy);
            assert(vviews(parts@) =~= before.push(piece@));
        }
        k = k + 1;
    }
    assert(ps.subrange(0, pieces@.len() as int) == ps);
    let ghost rp = resolve_parts(ps);
    let mut out: Vec<char> = Vec::new();
    if rv.len() > 0 && rv[0] == sep {
        out.push(sep);
    }
    let ghost prefix = out@;
    let mut m: usize = 0;
    assert(vviews(parts@).subrange(0, 0) =~= Seq::<Seq<char>>::empty());
    while m < parts.len()
        invariant
            vviews(parts@) == rp,
            m <= parts@.len(),
            out@ == prefix + join_parts(rp.subrange(0, m as int), sep),
        decreases parts.len() - m,
    {
        let ghost sub = rp.subrange(0, m + 1);
        assert(sub.drop_last() == rp.subrange(0, m as int));
        assert(sub.last() == parts@[m as int]@);
        if m > 0 {
            out.push(sep);
        }
        let p = &parts[m];
        let mut j: usize = 0;
        let ghost base = out@;
        while j < p.len()
            invariant
                j <= p@.len(),
                out@ == base + p@.subrange(0, j as int),
            decreases p.len() - j,
        {
            out.push(p[j]);
            assert(p@.subrange(0, j + 1) == p@.subrange(0, j as int).push(p@[j as int]));
            j = j + 1;
        }
        assert(p@.subrange(0, p@.len() as int) == p@);
        assert(out@ =~= prefix + join_parts(sub, sep));
        m = m + 1;
    }
    assert(rp.subrange(0, parts@.len() as int) == rp);
    if windows {
        let mut low: Vec<char> = Vec::new();
        let mut q: usize = 0;
        while q < out.len()
            invariant
                q <= out@.len(),
                low@ == lower(out@.subrange(0, q as int)),
            decreases out.len() - q,
        {
            let c = lower_char_exec(out[q]);
            low.push(c);
            assert(lower(out@.subrange(0, q + 1)) =~= lower(out@.subrange(0, q as int)).push(c));
            q = q + 1;
        }
        assert(out@.subrange(0, out@.len() as int) == out@);
        Some(string_of_all(&low))
    } else {
        Some(string_of_all(&out))
    }
}

} // verus!

verus! {

pub open spec fn is_hex_digit(c: char) -> bool {
    ('0' <= c && c <= '9') || ('a' <= c && c <= 'f') || ('A' <= c && c <= 'F')
}

pub open spec fn is_uuid_hyphen_index(i: int) -> bool {
    i == 8 || i == 13 || i == 18 || i == 23
}

/// The hyphenated UUID form: 36 characters, hyphens at 8, 13, 18 and 23, hex
/// digits elsewhere.
pub open spec fn hyphenated_uuid(s: Seq<char>) -> bool {
    s.len() == 36 && forall|i: int|
        0 <= i < 36 ==> if is_uuid_hyphen_index(i) {
            s[i] == '-'
        } else {
            is_hex_digit(#[trigger] s[i])
        }
}

/// `uuid::Uuid::parse_str` then `to_string`, on a 36-character input. For that
/// length the crate accepts exactly the hyphenated form and formats it back in
/// lowercase, so the result is the input lowercased, or `None`.
#[verifier::external_body]
fn uuid_canonical(text: &str) -> (r: Option<String>)
    requires
        text@.len() == 36,
    ensures
        match r {
            Some(s) => hyphenated_uuid(text@) && s@ == lower(text@),
            None => !hyphenated_uuid(text@),
        },
{
    match uuid::Uuid::parse_str(text) {
        Ok(id) => Some(id.to_string()),
        Err(_) => None,
    }
}

pub open spec fn is_ascii_char(c: char) -> bool {
    (c as u32) < 128
}

/// The last 36 characters of the stem of `rollout-<stem>.jsonl`, when they are
/// ASCII (the last 36 bytes of the stem, read as text).
pub open spec fn rollout_candidate(name: Seq<char>) -> Option<Seq<char>> {
    let p = "rollout-"@.len();
    let q = ".jsonl"@.len();
    if starts_with(name, "rollout-"@) && name.len() >= p + q && crate::text::ends_with(name, ".jsonl"@) {
        let stem = name.subrange(p as int, name.len() - q);
        if stem.len() >= 36 && forall|i: int|
            stem.len() - 36 <= i < stem.len() ==> is_ascii_char(#[trigger] stem[i]) {
            Some(stem.subrange(stem.len() - 36, stem.len() as int))
        } else {
            None
        }
    } else {
        None
    }
}

/// The thread id in a rollout file name: its trailing UUID, lowercased.
pub open spec fn rollout_thread_id_spec(name: Seq<char>) -> Option<Seq<char>> {
    match rollout_candidate(name) {
        Some(c) => if hyphenated_uuid(c) {
            Some(lower(c))
        } else {
            None
        },
        None => None,
    }
}

pub fn rollout_thread_id(file_name: &str) -> (r: Option<String>)
    ensures
        match r {
            Some(s) => rollout_thread_id_spec(file_name@) == Some(s@),
            None => rollout_thread_id_spec(file_name@) is None,
        },
{
    let v = chars_of(file_name);
    let prefix = chars_of("rollout-");
    let suffix = chars_of(".jsonl");
    proof {
        reveal_strlit("rollout-");
        reveal_strlit(".jsonl");
    }
    if !crate::text::starts_with_vec(&v, &prefix) || v.len() < prefix.len() + suffix.len()
        || !crate::text::ends_with_vec(&v, &suffix) {
        return None;
    }
    let stem = subvec(&v, prefix.len(), v.len() - suffix.len());
    if stem.len() < 36 {
        return None;
    }
    let start = stem.len() - 36;
    let mut i = start;
    while i < stem.len()
        invariant
            start == stem@.len() - 36,
            start <= i <= stem@.len(),
            "rollout-"@.len() == 8,
            ".jsonl"@.len() == 6,
            starts_with(file_name@, "rollout-"@),
            file_name@.len() >= 14,
            crate::text::ends_with(file_name@, ".jsonl"@),
            stem@ == file_name@.subrange(8, file_name@.len() - 6),
            forall|k: int| start <= k < i ==> is_ascii_char(#[trigger] stem@[k]),
        decreases stem.len() - i,
    {
        let c: char = stem[i];
        if (c as u32) >= 128 {
            assert(!is_ascii_char(stem@[i as int]));
            return None;
        }
        i = i + 1;
    }
    let candidate = subvec(&stem, start, stem.len());
    let text = string_of_all(&candidate);
    uuid_canonical(text.as_str())
}

/// The user's home directory, from `directories::BaseDirs::new()` and
/// `home_dir()`, converted lossily to a string; `None` when it cannot be
/// determined. It depends on the environment, so nothing is claimed of it.
#[verifier::external_body]
fn user_home_dir() -> Option<String> {
    match directories::BaseDirs::new() {
        Some(dirs) => Some(dirs.home_dir().to_string_lossy().to_string()),
        None => None,
    }
}

/// The working directory recorded under `payload.state.environments.environments.local.cwd`.
pub open spec fn nested_cwd(payload: JsonValue) -> Option<Seq<char>> {
    match get(payload, "state"@) {
        Some(a) => match get(a, "environments"@) {
            Some(b) => match get(b, "environments"@) {
                Some(c) => match get(c, "local"@) {
                    Some(d) => get_str(d, "cwd"@),
                    None => None,
                },
                None => None,
            },
            None => None,
        },
        None => None,
    }
}

/// The working directory a rollout record names: `payload.cwd`, else the
/// nested local environment's `cwd`, when it is not blank.
pub open spec fn record_cwd_spec(record: JsonValue) -> Option<Seq<char>> {
    let c = match get(record, "payload"@) {
        Some(p) => match get_str(p, "cwd"@) {
            Some(s) => Some(s),
            None => nested_cwd(p),
        },
        None => None,
    };
    match c {
        Some(s) => if is_blank(s) {
            None
        } else {
            Some(s)
        },
        None => None,
    }
}

pub fn record_cwd(record: &Json) -> (r: Option<String>)
    ensures
        match r {
            Some(s) => record_cwd_spec(record@) == Some(s@),
            None => record_cwd_spec(record@) is None,
        },
{
    let payload = match record.get("payload") {
        Some(p) => p,
        None => return None,
    };
    let c = match payload.get_str("cwd") {
        Some(s) => Some(s),
        None => match payload.get("state") {
            Some(a) => match a.get("environments") {
                Some(b) => match b.get("environments") {
                    Some(c) => match c.get("local") {
                        Some(d) => d.get_str("cwd"),
                        None => None,
                    },
                    None => None,
                },
                None => None,
            },
            None => None,
        },
    };
    match c {
        Some(s) => if is_blank_str(s.as_str()) {
            None
        } else {
            Some(s.clone())
        },
        None => None,
    }
}

/// The scan of one rollout file, fed line by line: the first record that names
/// a working directory ends it, as does the line limit; lines longer than the
/// byte limit are passed over, and lines that are not JSON are counted.
pub struct RolloutScan {
    pub cwd: Option<String>,
    pub malformed_lines: usize,
    pub lines_read: usize,
}

impl RolloutScan {
    pub fn new() -> (r: RolloutScan)
        ensures
            r.cwd is None,
            r.malformed_lines == 0,
            r.lines_read == 0,
    {
        RolloutScan { cwd: None, malformed_lines: 0, lines_read: 0 }
    }

    /// Whether the scan needs no more lines.
    pub open spec fn finished(&self) -> bool {
        self.cwd is Some || self.lines_read >= MAX_ROLLOUT_LINES
    }

    /// Feeds the next line, of `line_bytes` bytes, with its parse (`None` for
    /// a line that is not JSON). Returns whether the scan is finished.
    pub fn feed(&mut self, line_bytes: u64, record: Option<&Json>) -> (done: bool)
        requires
            !old(self).finished(),
            old(self).malformed_lines <= old(self).lines_read,
        ensures
            final(self).lines_read == old(self).lines_read + 1,
            final(self).malformed_lines <= final(self).lines_read,
            done == final(self).finished(),
            line_bytes > MAX_ROLLOUT_LINE_BYTES ==> final(self).malformed_lines == old(self).malformed_lines
                && final(self).cwd is None,
            line_bytes <= MAX_ROLLOUT_LINE_BYTES ==> match record {
                None => final(self).malformed_lines == old(self).malformed_lines + 1 && final(self).cwd is None,
                Some(rec) => final(self).malformed_lines == old(self).malformed_lines && (match final(self).cwd {
                    Some(s) => record_cwd_spec(rec@) == Some(s@),
                    None => record_cwd_spec(rec@) is None,
                }),
            },
    {
        self.lines_read = self.lines_read + 1;
        if line_bytes <= MAX_ROLLOUT_LINE_BYTES {
            match record {
                None => {
                    self.malformed_lines = self.malformed_lines + 1;
                },
                Some(rec) => {
                    self.cwd = record_cwd(rec);
                },
            }
        }
        self.cwd.is_some() || self.lines_read >= MAX_ROLLOUT_LINES
    }

    /// Feeds the next line of the file, of `line_bytes` bytes: a line within
    /// the byte limit is parsed as JSON and fed with its parse. Returns
    /// whether the scan is finished.
    pub fn feed_line(&mut self, line_bytes: u64, line: &str) -> (done: bool)
        requires
            !old(self).finished(),
            old(self).malformed_lines <= old(self).lines_read,
        ensures
            final(self).lines_read == old(self).lines_read + 1,
            final(self).malformed_lines <= final(self).lines_read,
            done == final(self).finished(),
            line_bytes > MAX_ROLLOUT_LINE_BYTES ==> final(self).malformed_lines == old(self).malformed_lines
                && final(self).cwd is None,
            line_bytes <= MAX_ROLLOUT_LINE_BYTES ==> match crate::codec::json_parse(line@) {
                None => final(self).malformed_lines == old(self).malformed_lines + 1 && final(self).cwd is None,
                Some(rec) => final(self).malformed_lines == old(self).malformed_lines && (match final(self).cwd {
                    Some(s) => record_cwd_spec(rec) == Some(s@),
                    None => record_cwd_spec(rec) is None,
                }),
            },
    {
        if line_bytes > MAX_ROLLOUT_LINE_BYTES {
            self.feed(line_bytes, None)
        } else {
            match crate::codec::parse_json_text(line) {
                Some(rec) => self.feed(line_bytes, Some(&rec)),
                None => self.feed(line_bytes, None),
            }
        }
    }
}

} // verus!

verus! {

/// The top-level fields of the global state the repair reads.
#[derive(Debug, Clone, Copy, PartialEq, Eq, Structural)]
pub enum StateField {
    State,
    LocalProjects,
    ProjectOrder,
    SavedWorkspaceRoots,
    Assignments,
}

/// Why the global state could not be repaired.
#[derive(Debug, Clone, Copy, PartialEq, Eq, Structural)]
pub enum RepairError {
    /// The state is not JSON.
    NotJson,
    /// The field must be a JSON object.
    NotObject(StateField),
    /// The field must be an array.
    NotArray(StateField),
    /// The array must contain only strings.
    NotStrings(StateField),
    /// `project-order` and `electron-saved-workspace-roots` differ in length.
    RootsLengthMismatch,
    /// The written state does not hold the applied assignments.
    VerificationFailed,
}

/// What the repair found and did.
#[derive(Debug, Clone, PartialEq, Eq)]
pub struct LocalProjectRepairReport {
    pub existing_assignments: usize,
    pub safe_assignments_found: usize,
    pub unmatched: usize,
    pub ambiguous: usize,
    pub missing_cwd: usize,
    pub duplicate_rollout_thread_ids: usize,
    pub malformed_rollout_lines: usize,
    pub applied_assignments: usize,
    pub backup_path: Option<String>,
}

/// A thread to be assigned to a local project.
#[derive(Debug, Clone, PartialEq, Eq)]
pub struct PlannedAssignment {
    pub thread_id: String,
    pub project_id: String,
    pub cwd: String,
}

/// What was read from one rollout file with a thread id.
#[derive(Debug, Clone, PartialEq, Eq)]
pub struct RolloutRecord {
    pub thread_id: String,
    pub cwd: Option<String>,
    pub malformed_lines: usize,
}

/// The report of an analysis and the assignments it found safe.
#[derive(Debug, Clone, PartialEq, Eq)]
pub struct RepairPlan {
    pub report: LocalProjectRepairReport,
    pub assignments: Vec<PlannedAssignment>,
}

/// An array field holding only strings.
pub open spec fn state_strings(state: JsonValue, key: Seq<char>, field: StateField) -> Result<Seq<Seq<char>>, RepairError> {
    match get(state, key) {
        Some(v) => match as_array(v) {
            Some(a) => if forall|i: int| 0 <= i < a.len() ==> (#[trigger] as_str(a[i])) is Some {
                Ok(Seq::new(a.len(), |i: int| as_str(a[i])->0))
            } else {
                Err(RepairError::NotStrings(field))
            },
            None => Err(RepairError::NotArray(field)),
        },
        None => Err(RepairError::NotArray(field)),
    }
}

/// The normalized root of a listed project whose entry in `local-projects` is
/// an object with a matching `id`.
pub open spec fn root_pair(
    local_projects: JsonValue,
    id: Seq<char>,
    root: Seq<char>,
    home: Option<Seq<char>>,
    windows: bool,
) -> Option<(Seq<char>, Seq<char>)> {
    match get(local_projects, id) {
        Some(p) => if as_object(p) is Some && get_str(p, "id"@) == Some(id) {
            match normalize_path_spec(root, home, windows) {
                Some(nr) => Some((nr, id)),
                None => None,
            }
        } else {
            None
        },
        None => None,
    }
}

pub open spec fn root_pairs(
    local_projects: JsonValue,
    order: Seq<Seq<char>>,
    saved: Seq<Seq<char>>,
    n: int,
    home: Option<Seq<char>>,
    windows: bool,
) -> Seq<(Seq<char>, Seq<char>)>
    decreases n,
{
    if n <= 0 {
        Seq::empty()
    } else {
        let r = root_pairs(local_projects, order, saved, n - 1, home, windows);
        match root_pair(local_projects, order[n - 1], saved[n - 1], home, windows) {
            Some(p) => r.push(p),
            None => r,
        }
    }
}

/// `(normalized root, project id)` for every project listed in `project-order`
/// with its saved workspace root.
pub open spec fn project_roots_spec(state: JsonValue, home: Option<Seq<char>>, windows: bool) -> Result<
    Seq<(Seq<char>, Seq<char>)>,
    RepairError,
> {
    match get(state, "local-projects"@) {
        Some(lp) => if as_object(lp) is Some {
            match state_strings(state, "project-order"@, StateField::ProjectOrder) {
                Ok(order) => match state_strings(
                    state,
                    "electron-saved-workspace-roots"@,
                    StateField::SavedWorkspaceRoots,
                ) {
                    Ok(saved) => if order.len() != saved.len() {
                        Err(RepairError::RootsLengthMismatch)
                    } else {
                        Ok(root_pairs(lp, order, saved, order.len() as int, home, windows))
                    },
                    Err(e) => Err(e),
                },
                Err(e) => Err(e),
            }
        } else {
            Err(RepairError::NotObject(StateField::LocalProjects))
        },
        None => Err(RepairError::NotObject(StateField::LocalProjects)),
    }
}

/// The assignments object, if present.
pub open spec fn assignments_spec(state: JsonValue) -> Result<Option<Seq<(Seq<char>, JsonValue)>>, RepairError> {
    match get(state, ASSIGNMENTS_KEY@) {
        Some(v) => match as_object(v) {
            Some(es) => Ok(Some(es)),
            None => Err(RepairError::NotObject(StateField::Assignments)),
        },
        None => Ok(None),
    }
}

pub open spec fn is_assigned(asg: Option<Seq<(Seq<char>, JsonValue)>>, tid: Seq<char>) -> bool {
    match asg {
        Some(es) => entries_get(es, tid) is Some,
        None => false,
    }
}

pub open spec fn root_known(pairs: Seq<(Seq<char>, Seq<char>)>, r: Seq<char>) -> bool {
    exists|i: int| 0 <= i < pairs.len() && (#[trigger] pairs[i]).0 == r
}

/// `r` is the root of projects and every one of them is `id`.
pub open spec fn single_project(pairs: Seq<(Seq<char>, Seq<char>)>, r: Seq<char>, id: Seq<char>) -> bool {
    root_known(pairs, r) && forall|i: int| 0 <= i < pairs.len() && (#[trigger] pairs[i]).0 == r ==> pairs[i].1 == id
}

pub proof fn lemma_single_project_unique(pairs: Seq<(Seq<char>, Seq<char>)>, r: Seq<char>, a: Seq<char>, b: Seq<char>)
    requires
        single_project(pairs, r, a),
        single_project(pairs, r, b),
    ensures
        a == b,
{
    let i = choose|i: int| 0 <= i < pairs.len() && (#[trigger] pairs[i]).0 == r;
    assert(pairs[i].1 == a);
}

/// The outcome of root lookup.
pub enum RootMatch {
    NoRoot,
    Single(String),
    Multiple,
}

fn lookup_root(pairs: &Vec<(String, String)>, r: &str) -> (m: RootMatch)
    ensures
        ({
            let pv = crate::update::pair_views(pairs@);
            match m {
                RootMatch::NoRoot => !root_known(pv, r@),
                RootMatch::Single(id) => single_project(pv, r@, id@),
                RootMatch::Multiple => root_known(pv, r@) && forall|id: Seq<char>| !single_project(pv, r@, id),
            }
        }),
{
    let ghost pv = crate::update::pair_views(pairs@);
    let mut found: Option<usize> = None;
    let mut i: usize = 0;
    while i < pairs.len()
        invariant
            pv == crate::update::pair_views(pairs@),
            i <= pairs@.len(),
            match found {
                None => forall|k: int| 0 <= k < i ==> (#[trigger] pv[k]).0 != r@,
                Some(f) => f < i && pv[f as int].0 == r@ && forall|k: int|
                    0 <= k < i && (#[trigger] pv[k]).0 == r@ ==> pv[k].1 == pv[f as int].1,
            },
        decreases pairs.len() - i,
    {
        if crate::text::str_eq(pairs[i].0.as_str(), r) {
            match found {
                None => {
                    found = Some(i);
                },
                Some(f) => {
                    if !crate::text::str_eq(pairs[i].1.as_str(), pairs[f].1.as_str()) {
                        proof {
                            assert forall|id: Seq<char>| !single_project(pv, r@, id) by {
                                if single_project(pv, r@, id) {
                                    assert(pv[i as int].1 == id);
                                    assert(pv[f as int].1 == id);
                                }
                            }
                        }
                        return RootMatch::Multiple;
                    }
                },
            }
        }
        i = i + 1;
    }
    match found {
        None => {
            assert(!root_known(pv, r@));
            RootMatch::NoRoot
        },
        Some(f) => {
            let id = pairs[f].1.clone();
            assert(single_project(pv, r@, id@));
            RootMatch::Single(id)
        },
    }
}

/// The array field `key` as strings.
fn state_strings_exec(state: &Json, key: &str, field: StateField) -> (r: Result<Vec<String>, RepairError>)
    ensures
        match r {
            Ok(v) => state_strings(state@, key@, field) == Ok::<Seq<Seq<char>>, RepairError>(
                crate::desktop::string_views(v@),
            ),
            Err(e) => state_strings(state@, key@, field) == Err::<Seq<Seq<char>>, RepairError>(e),
        },
{
    let arr = match state.get(key) {
        Some(v) => match v.as_array() {
            Some(a) => a,
            None => return Err(RepairError::NotArray(field)),
        },
        None => return Err(RepairError::NotArray(field)),
    };
    let ghost av = views(arr@);
    let ghost gv = get(state@, key@)->0;
    assert(get(state@, key@) == Some(gv) && as_array(gv) == Some(av));
    let mut out: Vec<String> = Vec::new();
    let mut i: usize = 0;
    while i < arr.len()
        invariant
            av == views(arr@),
            get(state@, key@) == Some(gv),
            as_array(gv) == Some(av),
            i <= arr@.len(),
            out@.len() == i,
            forall|k: int| 0 <= k < i ==> (#[trigger] as_str(av[k])) is Some && as_str(av[k])->0 == out@[k]@,
        decreases arr.len() - i,
    {
        match arr[i].as_str() {
            Some(s) => {
                out.push(s.clone());
            },
            None => {
                assert(as_str(av[i as int]) is None);
                return Err(RepairError::NotStrings(field));
            },
        }
        i = i + 1;
    }
    assert(crate::desktop::string_views(out@) =~= Seq::new(av.len(), |k: int| as_str(av[k])->0));
    Ok(out)
}

/// `(normalized root, project id)` pairs of the listed projects.
pub fn project_roots(state: &Json, home: Option<&str>, windows: bool) -> (r: Result<Vec<(String, String)>, RepairError>)
    ensures
        match r {
            Ok(v) => project_roots_spec(state@, opt_str_view(home), windows) == Ok::<
                Seq<(Seq<char>, Seq<char>)>,
                RepairError,
            >(crate::update::pair_views(v@)),
            Err(e) => project_roots_spec(state@, opt_str_view(home), windows) == Err::<
                Seq<(Seq<char>, Seq<char>)>,
                RepairError,
            >(e),
        },
{
    let lp = match state.get("local-projects") {
        Some(v) => v,
        None => return Err(RepairError::NotObject(StateField::LocalProjects)),
    };
    if lp.as_object().is_none() {
        return Err(RepairError::NotObject(StateField::LocalProjects));
    }
    let order = match state_strings_exec(state, "project-order", StateField::ProjectOrder) {
        Ok(v) => v,
        Err(e) => return Err(e),
    };
    let saved = match state_strings_exec(
        state,
        "electron-saved-workspace-roots",
        StateField::SavedWorkspaceRoots,
    ) {
        Ok(v) => v,
        Err(e) => return Err(e),
    };
    if order.len() != saved.len() {
        return Err(RepairError::RootsLengthMismatch);
    }
    let ghost ov = crate::desktop::string_views(order@);
    let ghost sv = crate::desktop::string_views(saved@);
    let mut out: Vec<(String, String)> = Vec::new();
    let mut i: usize = 0;
    while i < order.len()
        invariant
            ov == crate::desktop::string_views(order@),
            sv == crate::desktop::string_views(saved@),
            order@.len() == saved@.len(),
            i <= order@.len(),
            crate::update::pair_views(out@) == root_pairs(lp@, ov, sv, i as int, opt_str_view(home), windows),
        decreases order.len() - i,
    {
        let id = &order[i];
        let root = &saved[i];
        assert(ov[i as int] == id@);
        assert(sv[i as int] == root@);
        let ghost before = crate::update::pair_views(out@);
        match lp.get(id.as_str()) {
            Some(p) => {
                if p.as_object().is_some() {
                    let matches = match p.get_str("id") {
                        Some(x) => crate::text::str_eq(x.as_str(), id.as_str()),
                        None => false,
                    };
                    if matches {
                        match normalize_path(root.as_str(), home, windows) {
                            Some(nr) => {
                                out.push((nr, id.clone()));
                                assert(crate::update::pair_views(out@) =~= before.push((nr@, id@)));
                            },
                            None => {},
                        }
                    }
                }
            },
            None => {},
        }
        i = i + 1;
    }
    Ok(out)
}

} // verus!

verus! {

/// `(thread id, project id, cwd)` of each planned assignment.
pub open spec fn planned_views(v: Seq<PlannedAssignment>) -> Seq<(Seq<char>, Seq<char>, Seq<char>)> {
    Seq::new(v.len(), |i: int| (v[i].thread_id@, v[i].project_id@, v[i].cwd@))
}

/// Record `i` is the first one with its thread id.
pub open spec fn first_of_thread(rs: Seq<RolloutRecord>, i: int) -> bool {
    forall|j: int| 0 <= j < i ==> (#[trigger] rs[j]).thread_id@ != rs[i].thread_id@
}

/// No other record carries the thread id of record `i`.
pub open spec fn thread_unique(rs: Seq<RolloutRecord>, i: int) -> bool {
    forall|j: int| 0 <= j < rs.len() && j != i ==> (#[trigger] rs[j]).thread_id@ != rs[i].thread_id@
}

/// The project of a known root.
pub open spec fn root_owner(pairs: Seq<(Seq<char>, Seq<char>)>, r: Seq<char>) -> Seq<char> {
    pairs[choose|k: int| 0 <= k < pairs.len() && (#[trigger] pairs[k]).0 == r].1
}

/// What the analysis makes of a thread.
pub enum ThreadOutcome {
    /// More than one rollout file carries the thread id.
    Duplicate,
    /// The thread already has an assignment; it is left alone.
    Assigned,
    /// No usable working directory was recorded.
    MissingCwd,
    /// The working directory is no known project root.
    Unmatched,
    /// The working directory is the root of more than one project.
    Ambiguous,
    /// The thread can be assigned to this project.
    Planned(Seq<char>),
}

/// The outcome for the thread of record `i`.
pub open spec fn thread_outcome(
    rs: Seq<RolloutRecord>,
    i: int,
    asg: Option<Seq<(Seq<char>, JsonValue)>>,
    pairs: Seq<(Seq<char>, Seq<char>)>,
    home: Option<Seq<char>>,
    windows: bool,
) -> ThreadOutcome {
    let rec = rs[i];
    if !thread_unique(rs, i) {
        ThreadOutcome::Duplicate
    } else if is_assigned(asg, rec.thread_id@) {
        ThreadOutcome::Assigned
    } else {
        match rec.cwd {
            None => ThreadOutcome::MissingCwd,
            Some(c) => match normalize_path_spec(c@, home, windows) {
                None => ThreadOutcome::MissingCwd,
                Some(n) => if !root_known(pairs, n) {
                    ThreadOutcome::Unmatched
                } else if single_project(pairs, n, root_owner(pairs, n)) {
                    ThreadOutcome::Planned(root_owner(pairs, n))
                } else {
                    ThreadOutcome::Ambiguous
                },
            },
        }
    }
}

/// The counts and the planned assignments of an analysis.
pub struct PlanTally {
    pub duplicates: nat,
    pub missing_cwd: nat,
    pub unmatched: nat,
    pub ambiguous: nat,
    pub planned: Seq<(Seq<char>, Seq<char>, Seq<char>)>,
}

/// The analysis of the first `n` records: each thread is judged once, at its
/// first record.
pub open spec fn tally(
    rs: Seq<RolloutRecord>,
    n: int,
    asg: Option<Seq<(Seq<char>, JsonValue)>>,
    pairs: Seq<(Seq<char>, Seq<char>)>,
    home: Option<Seq<char>>,
    windows: bool,
) -> PlanTally
    decreases n,
{
    if n <= 0 {
        PlanTally { duplicates: 0, missing_cwd: 0, unmatched: 0, ambiguous: 0, planned: Seq::empty() }
    } else {
        let t = tally(rs, n - 1, asg, pairs, home, windows);
        if !first_of_thread(rs, n - 1) {
            t
        } else {
            match thread_outcome(rs, n - 1, asg, pairs, home, windows) {
                ThreadOutcome::Duplicate => PlanTally {
                    duplicates: t.duplicates + 1,
                    missing_cwd: t.missing_cwd,
                    unmatched: t.unmatched,
                    ambiguous: t.ambiguous,
                    planned: t.planned,
                },
                ThreadOutcome::Assigned => t,
                ThreadOutcome::MissingCwd => PlanTally {
                    duplicates: t.duplicates,
                    missing_cwd: t.missing_cwd + 1,
                    unmatched: t.unmatched,
                    ambiguous: t.ambiguous,
                    planned: t.planned,
                },
                ThreadOutcome::Unmatched => PlanTally {
                    duplicates: t.duplicates,
                    missing_cwd: t.missing_cwd,
                    unmatched: t.unmatched + 1,
                    ambiguous: t.ambiguous,
                    planned: t.planned,
                },
                ThreadOutcome::Ambiguous => PlanTally {
                    duplicates: t.duplicates,
                    missing_cwd: t.missing_cwd,
                    unmatched: t.unmatched,
                    ambiguous: t.ambiguous + 1,
                    planned: t.planned,
                },
                ThreadOutcome::Planned(pid) => PlanTally {
                    duplicates: t.duplicates,
                    missing_cwd: t.missing_cwd,
                    unmatched: t.unmatched,
                    ambiguous: t.ambiguous,
                    planned: t.planned.push((rs[n - 1].thread_id@, pid, rs[n - 1].cwd->0@)),
                },
            }
        }
    }
}

/// Malformed lines counted in the first `n` records.
pub open spec fn malformed_total(rs: Seq<RolloutRecord>, n: int) -> nat
    decreases n,
{
    if n <= 0 {
        0
    } else {
        malformed_total(rs, n - 1) + rs[n - 1].malformed_lines as nat
    }
}

pub proof fn lemma_malformed_monotone(rs: Seq<RolloutRecord>, i: int, n: int)
    requires
        0 <= i <= n,
    ensures
        malformed_total(rs, i) <= malformed_total(rs, n),
    decreases n - i,
{
    if i < n {
        lemma_malformed_monotone(rs, i, n - 1);
    }
}

pub open spec fn existing_count(asg: Option<Seq<(Seq<char>, JsonValue)>>) -> nat {
    match asg {
        Some(es) => es.len(),
        None => 0,
    }
}

/// The analysis of a global state and the rollout records: the number of
/// existing assignments and the tally, or the first defect of the state.
pub open spec fn repair_plan_spec(
    state: JsonValue,
    rs: Seq<RolloutRecord>,
    home: Option<Seq<char>>,
    windows: bool,
) -> Result<(nat, PlanTally), RepairError> {
    if as_object(state) is None {
        Err(RepairError::NotObject(StateField::State))
    } else {
        match assignments_spec(state) {
            Err(e) => Err(e),
            Ok(asg) => match project_roots_spec(state, home, windows) {
                Err(e) => Err(e),
                Ok(pairs) => Ok(
                    (existing_count(asg), tally(rs, rs.len() as int, asg, pairs, home, windows)),
                ),
            },
        }
    }
}

/// The defect of a global state that stops the analysis, whatever the rollouts.
pub open spec fn plan_error(state: JsonValue) -> Option<RepairError> {
    match repair_plan_spec(state, Seq::empty(), None, false) {
        Err(e) => Some(e),
        Ok(_) => None,
    }
}

pub proof fn lemma_plan_error(state: JsonValue, rs: Seq<RolloutRecord>, home: Option<Seq<char>>, windows: bool)
    ensures
        match repair_plan_spec(state, rs, home, windows) {
            Err(e) => plan_error(state) == Some(e),
            Ok(_) => plan_error(state) is None,
        },
{
}

pub open spec fn report_matches(rep: LocalProjectRepairReport, rs: Seq<RolloutRecord>, existing: nat, t: PlanTally) -> bool {
    &&& rep.existing_assignments == existing
    &&& rep.safe_assignments_found == t.planned.len()
    &&& rep.unmatched == t.unmatched
    &&& rep.ambiguous == t.ambiguous
    &&& rep.missing_cwd == t.missing_cwd
    &&& rep.duplicate_rollout_thread_ids == t.duplicates
    &&& rep.malformed_rollout_lines == malformed_total(rs, rs.len() as int)
    &&& rep.applied_assignments == 0
    &&& rep.backup_path is None
}

pub open spec fn plan_matches(p: RepairPlan, rs: Seq<RolloutRecord>, existing: nat, t: PlanTally) -> bool {
    report_matches(p.report, rs, existing, t) && planned_views(p.assignments@) == t.planned
}

fn is_first_of_thread(rs: &Vec<RolloutRecord>, i: usize) -> (b: bool)
    requires
        i < rs@.len(),
    ensures
        b == first_of_thread(rs@, i as int),
{
    let mut j: usize = 0;
    while j < i
        invariant
            i < rs@.len(),
            j <= i,
            forall|k: int| 0 <= k < j ==> (#[trigger] rs@[k]).thread_id@ != rs@[i as int].thread_id@,
        decreases i - j,
    {
        if crate::text::str_eq(rs[j].thread_id.as_str(), rs[i].thread_id.as_str()) {
            return false;
        }
        j = j + 1;
    }
    true
}

fn is_thread_unique(rs: &Vec<RolloutRecord>, i: usize) -> (b: bool)
    requires
        i < rs@.len(),
    ensures
        b == thread_unique(rs@, i as int),
{
    let mut j: usize = 0;
    while j < rs.len()
        invariant
            i < rs@.len(),
            j <= rs@.len(),
            forall|k: int| 0 <= k < j && k != i ==> (#[trigger] rs@[k]).thread_id@ != rs@[i as int].thread_id@,
        decreases rs.len() - j,
    {
        if j != i && crate::text::str_eq(rs[j].thread_id.as_str(), rs[i].thread_id.as_str()) {
            return false;
        }
        j = j + 1;
    }
    true
}

} // verus!

verus! {

/// The analysis of a global state and the rollout records, with the home
/// directory that `~` stands for. Threads are judged in the order of their
/// first record.
pub fn plan_local_project_assignments(
    state: &Json,
    rollouts: &Vec<RolloutRecord>,
    home: Option<&str>,
    windows: bool,
) -> (r: Result<RepairPlan, RepairError>)
    requires
        malformed_total(rollouts@, rollouts@.len() as int) <= usize::MAX,
    ensures
        match r {
            Ok(p) => repair_plan_spec(state@, rollouts@, opt_str_view(home), windows) matches Ok(x)
                && plan_matches(p, rollouts@, x.0, x.1),
            Err(e) => repair_plan_spec(state@, rollouts@, opt_str_view(home), windows) == Err::<
                (nat, PlanTally),
                RepairError,
            >(e),
        },
{
    if state.as_object().is_none() {
        return Err(RepairError::NotObject(StateField::State));
    }
    let asg: Option<&Json> = match state.get(ASSIGNMENTS_KEY) {
        Some(v) => {
            if v.as_object().is_none() {
                return Err(RepairError::NotObject(StateField::Assignments));
            }
            Some(v)
        },
        None => None,
    };
    let ghost asgv = assignments_spec(state@)->Ok_0;
    let existing: usize = match asg {
        Some(v) => match v.as_object() {
            Some(es) => es.len(),
            None => 0,
        },
        None => 0,
    };
    let pairs = match project_roots(state, home, windows) {
        Ok(p) => p,
        Err(e) => return Err(e),
    };
    let ghost pv = crate::update::pair_views(pairs@);
    let ghost hv = opt_str_view(home);
    let ghost rs = rollouts@;
    let mut duplicates: usize = 0;
    let mut missing: usize = 0;
    let mut unmatched: usize = 0;
    let mut ambiguous: usize = 0;
    let mut malformed: usize = 0;
    let mut planned: Vec<PlannedAssignment> = Vec::new();
    let mut i: usize = 0;
    while i < rollouts.len()
        invariant
            rs == rollouts@,
            hv == opt_str_view(home),
            i <= rs.len(),
            malformed_total(rs, rs.len() as int) <= usize::MAX,
            malformed == malformed_total(rs, i as int),
            pv == crate::update::pair_views(pairs@),
            match asg {
                Some(v) => asgv == as_object(v@) && asgv is Some,
                None => asgv is None,
            },
            duplicates <= i,
            missing <= i,
            unmatched <= i,
            ambiguous <= i,
            ({
                let t = tally(rs, i as int, asgv, pv, hv, windows);
                &&& duplicates == t.duplicates
                &&& missing == t.missing_cwd
                &&& unmatched == t.unmatched
                &&& ambiguous == t.ambiguous
                &&& planned_views(planned@) == t.planned
            }),
        decreases rollouts.len() - i,
    {
        let rec = &rollouts[i];
        proof {
            lemma_malformed_monotone(rs, i + 1, rs.len() as int);
        }
        malformed = malformed + rec.malformed_lines;
        let ghost t = tally(rs, i as int, asgv, pv, hv, windows);
        let ghost before = planned_views(planned@);
        if is_first_of_thread(rollouts, i) {
            if !is_thread_unique(rollouts, i) {
                assert(thread_outcome(rs, i as int, asgv, pv, hv, windows) == ThreadOutcome::Duplicate);
                duplicates = duplicates + 1;
            } else {
                let assigned = match asg {
                    Some(v) => v.get(rec.thread_id.as_str()).is_some(),
                    None => false,
                };
                assert(assigned == is_assigned(asgv, rec.thread_id@));
                if !assigned {
                    match &rec.cwd {
                        None => {
                            assert(thread_outcome(rs, i as int, asgv, pv, hv, windows) == ThreadOutcome::MissingCwd);
                            missing = missing + 1;
                        },
                        Some(c) => {
                          let cs: &str = c.as_str();
                          let nres = normalize_path(cs, home, windows);
                          assert(cs@ == c@);
                          match nres {
                            None => {
                                assert(thread_outcome(rs, i as int, asgv, pv, hv, windows) == ThreadOutcome::MissingCwd);
                                missing = missing + 1;
                            },
                            Some(n) => match lookup_root(&pairs, n.as_str()) {
                                RootMatch::NoRoot => {
                                    assert(thread_outcome(rs, i as int, asgv, pv, hv, windows) == ThreadOutcome::Unmatched);
                                    unmatched = unmatched + 1;
                                },
                                RootMatch::Single(id) => {
                                    proof {
                                        let k = choose|k: int| 0 <= k < pv.len() && (#[trigger] pv[k]).0 == n@;
                                        assert(pv[k].1 == id@);
                                        assert(root_owner(pv, n@) == id@);
                                        assert(thread_outcome(rs, i as int, asgv, pv, hv, windows) == ThreadOutcome::Planned(id@));
                                    }
                                    let item = PlannedAssignment {
                                        thread_id: rec.thread_id.clone(),
                                        project_id: id,
                                        cwd: c.clone(),
                                    };
                                    planned.push(item);
                                    assert(planned_views(planned@) =~= before.push(
                                        (rec.thread_id@, root_owner(pv, n@), c@),
                                    ));
                                },
                                RootMatch::Multiple => {
                                    assert(!single_project(pv, n@, root_owner(pv, n@)));
                                    assert(thread_outcome(rs, i as int, asgv, pv, hv, windows) == ThreadOutcome::Ambiguous);
                                    ambiguous = ambiguous + 1;
                                },
                            },
                          }
                        },
                    }
                }
            }
        }
        i = i + 1;
    }
    let ghost t = tally(rs, rs.len() as int, asgv, pv, hv, windows);
    let report = LocalProjectRepairReport {
        existing_assignments: existing,
        safe_assignments_found: planned.len(),
        unmatched,
        ambiguous,
        missing_cwd: missing,
        duplicate_rollout_thread_ids: duplicates,
        malformed_rollout_lines: malformed,
        applied_assignments: 0,
        backup_path: None,
    };
    Ok(RepairPlan { report, assignments: planned })
}

} // verus!

verus! {

/// The analysis yields a report that matches `rep`.
pub open spec fn plan_report_for(
    state: JsonValue,
    rs: Seq<RolloutRecord>,
    home: Option<Seq<char>>,
    windows: bool,
    rep: LocalProjectRepairReport,
) -> bool {
    match repair_plan_spec(state, rs, home, windows) {
        Ok(x) => report_matches(rep, rs, x.0, x.1),
        Err(_) => false,
    }
}

/// Scans the rollout records against the global state and reports the
/// assignments that can be made safely; nothing is changed. A `~` in a path
/// stands for the user's home directory, which is looked up here.
pub fn analyze_parsed_state(
    state: &Json,
    rollouts: &Vec<RolloutRecord>,
    windows: bool,
) -> (r: Result<LocalProjectRepairReport, RepairError>)
    requires
        malformed_total(rollouts@, rollouts@.len() as int) <= usize::MAX,
    ensures
        match r {
            Ok(rep) => plan_error(state@) is None && exists|h: Option<Seq<char>>|
                #[trigger] plan_report_for(state@, rollouts@, h, windows, rep),
            Err(e) => plan_error(state@) == Some(e),
        },
{
    let home = user_home_dir();
    let hr: Option<&str> = match &home {
        Some(h) => Some(h.as_str()),
        None => None,
    };
    proof {
        lemma_plan_error(state@, rollouts@, opt_str_view(hr), windows);
    }
    match plan_local_project_assignments(state, rollouts, hr, windows) {
        Ok(p) => {
            assert(plan_report_for(state@, rollouts@, opt_str_view(hr), windows, p.report));
            Ok(p.report)
        },
        Err(e) => Err(e),
    }
}

/// The analysis of the global state as read from its file: the state is
/// parsed as JSON, then analysed as [`analyze_parsed_state`] does. A `~` in a
/// path stands for the user's home directory, which is looked up here.
pub fn analyze_local_project_assignments(
    state_bytes: &[u8],
    rollouts: &Vec<RolloutRecord>,
    windows: bool,
) -> (r: Result<LocalProjectRepairReport, RepairError>)
    requires
        malformed_total(rollouts@, rollouts@.len() as int) <= usize::MAX,
    ensures
        match crate::codec::json_bytes_parse(state_bytes@) {
            None => r == Err::<LocalProjectRepairReport, RepairError>(RepairError::NotJson),
            Some(state) => match r {
                Ok(rep) => plan_error(state) is None && exists|h: Option<Seq<char>>|
                    #[trigger] plan_report_for(state, rollouts@, h, windows, rep),
                Err(e) => plan_error(state) == Some(e),
            },
        },
{
    match crate::codec::parse_json_bytes(state_bytes) {
        None => Err(RepairError::NotJson),
        Some(state) => analyze_parsed_state(&state, rollouts, windows),
    }
}

/// A planned `(thread id, project id, cwd)` that is still safe: the thread has
/// no assignment and the normalized cwd is the root of that project alone.
pub open spec fn still_safe(
    asg: Option<Seq<(Seq<char>, JsonValue)>>,
    pairs: Seq<(Seq<char>, Seq<char>)>,
    item: (Seq<char>, Seq<char>, Seq<char>),
    home: Option<Seq<char>>,
    windows: bool,
) -> bool {
    !is_assigned(asg, item.0) && match normalize_path_spec(item.2, home, windows) {
        Some(n) => single_project(pairs, n, item.1),
        None => false,
    }
}

/// The first `n` items that are still safe, in order.
pub open spec fn keep_safe(
    items: Seq<(Seq<char>, Seq<char>, Seq<char>)>,
    n: int,
    asg: Option<Seq<(Seq<char>, JsonValue)>>,
    pairs: Seq<(Seq<char>, Seq<char>)>,
    home: Option<Seq<char>>,
    windows: bool,
) -> Seq<(Seq<char>, Seq<char>, Seq<char>)>
    decreases n,
{
    if n <= 0 {
        Seq::empty()
    } else {
        let r = keep_safe(items, n - 1, asg, pairs, home, windows);
        if still_safe(asg, pairs, items[n - 1], home, windows) {
            r.push(items[n - 1])
        } else {
            r
        }
    }
}

/// The planned assignments that are still safe in `state`.
pub open spec fn current_safe_spec(
    state: JsonValue,
    items: Seq<(Seq<char>, Seq<char>, Seq<char>)>,
    home: Option<Seq<char>>,
    windows: bool,
) -> Result<Seq<(Seq<char>, Seq<char>, Seq<char>)>, RepairError> {
    match project_roots_spec(state, home, windows) {
        Err(e) => Err(e),
        Ok(pairs) => match assignments_spec(state) {
            Err(e) => Err(e),
            Ok(asg) => Ok(keep_safe(items, items.len() as int, asg, pairs, home, windows)),
        },
    }
}

/// Re-checks planned assignments against the state as it is now and keeps the
/// ones that are still safe.
pub fn current_safe_assignments(
    state: &Json,
    planned: &Vec<PlannedAssignment>,
    home: Option<&str>,
    windows: bool,
) -> (r: Result<Vec<PlannedAssignment>, RepairError>)
    ensures
        match r {
            Ok(v) => current_safe_spec(state@, planned_views(planned@), opt_str_view(home), windows)
                == Ok::<Seq<(Seq<char>, Seq<char>, Seq<char>)>, RepairError>(planned_views(v@)),
            Err(e) => current_safe_spec(state@, planned_views(planned@), opt_str_view(home), windows)
                == Err::<Seq<(Seq<char>, Seq<char>, Seq<char>)>, RepairError>(e),
        },
{
    let pairs = match project_roots(state, home, windows) {
        Ok(p) => p,
        Err(e) => return Err(e),
    };
    let asg: Option<&Json> = match state.get(ASSIGNMENTS_KEY) {
        Some(v) => {
            if v.as_object().is_none() {
                return Err(RepairError::NotObject(StateField::Assignments));
            }
            Some(v)
        },
        None => None,
    };
    let ghost asgv = assignments_spec(state@)->Ok_0;
    let ghost pv = crate::update::pair_views(pairs@);
    let ghost hv = opt_str_view(home);
    let ghost items = planned_views(planned@);
    let mut out: Vec<PlannedAssignment> = Vec::new();
    let mut i: usize = 0;
    while i < planned.len()
        invariant
            items == planned_views(planned@),
            hv == opt_str_view(home),
            pv == crate::update::pair_views(pairs@),
            i <= planned@.len(),
            match asg {
                Some(v) => asgv == as_object(v@) && asgv is Some,
                None => asgv is None,
            },
            planned_views(out@) == keep_safe(items, i as int, asgv, pv, hv, windows),
        decreases planned.len() - i,
    {
        let item = &planned[i];
        assert(items[i as int] == (item.thread_id@, item.project_id@, item.cwd@));
        let ghost before = planned_views(out@);
        let assigned = match asg {
            Some(v) => v.get(item.thread_id.as_str()).is_some(),
            None => false,
        };
        assert(assigned == is_assigned(asgv, item.thread_id@));
        if !assigned {
            let cs: &str = item.cwd.as_str();
            match normalize_path(cs, home, windows) {
                Some(n) => {
                    let keep = match lookup_root(&pairs, n.as_str()) {
                        RootMatch::Single(id) => {
                            let same = crate::text::str_eq(id.as_str(), item.project_id.as_str());
                            proof {
                                if !same && single_project(pv, n@, item.project_id@) {
                                    lemma_single_project_unique(pv, n@, id@, item.project_id@);
                                }
                            }
                            same
                        },
                        _ => false,
                    };
                    assert(keep == still_safe(asgv, pv, items[i as int], hv, windows));
                    if keep {
                        out.push(item.clone_item());
                        assert(planned_views(out@) =~= before.push(items[i as int]));
                    }
                },
                None => {},
            }
        }
        i = i + 1;
    }
    assert(items.len() == planned@.len());
    Ok(out)
}

impl PlannedAssignment {
    /// A copy with the same fields.
    pub fn clone_item(&self) -> (r: PlannedAssignment)
        ensures
            r.thread_id@ == self.thread_id@,
            r.project_id@ == self.project_id@,
            r.cwd@ == self.cwd@,
    {
        PlannedAssignment {
            thread_id: self.thread_id.clone(),
            project_id: self.project_id.clone(),
            cwd: self.cwd.clone(),
        }
    }
}

} // verus!

verus! {

/// The value written for an assignment.
pub open spec fn assignment_value_spec(project_id: Seq<char>, cwd: Seq<char>) -> JsonValue {
    JsonValue::Object(
        seq![
            ("projectKind"@, JsonValue::Str("local"@)),
            ("projectId"@, JsonValue::Str(project_id)),
            ("cwd"@, JsonValue::Str(cwd)),
            ("pendingCoreUpdate"@, JsonValue::Bool(false)),
        ],
    )
}

/// The assignments object after setting the first `n` items, one after another.
pub open spec fn assign_all(
    es: Seq<(Seq<char>, JsonValue)>,
    items: Seq<(Seq<char>, Seq<char>, Seq<char>)>,
    n: int,
) -> Seq<(Seq<char>, JsonValue)>
    decreases n,
{
    if n <= 0 {
        es
    } else {
        entries_set(assign_all(es, items, n - 1), items[n - 1].0, assignment_value_spec(items[n - 1].1, items[n - 1].2))
    }
}

/// The state with the items set in its assignments object, which is created
/// when absent.
pub open spec fn apply_spec(state: JsonValue, items: Seq<(Seq<char>, Seq<char>, Seq<char>)>) -> Result<JsonValue, RepairError> {
    match as_object(state) {
        None => Err(RepairError::NotObject(StateField::State)),
        Some(top) => match entries_get(top, ASSIGNMENTS_KEY@) {
            Some(a) => match as_object(a) {
                Some(es) => Ok(
                    JsonValue::Object(
                        entries_set(top, ASSIGNMENTS_KEY@, JsonValue::Object(assign_all(es, items, items.len() as int))),
                    ),
                ),
                None => Err(RepairError::NotObject(StateField::Assignments)),
            },
            None => Ok(
                JsonValue::Object(
                    entries_set(
                        top,
                        ASSIGNMENTS_KEY@,
                        JsonValue::Object(assign_all(Seq::empty(), items, items.len() as int)),
                    ),
                ),
            ),
        },
    }
}

/// The value written for a planned assignment.
pub fn assignment_value(item: &PlannedAssignment) -> (r: Json)
    ensures
        r@ == assignment_value_spec(item.project_id@, item.cwd@),
{
    let mut es: Vec<(String, Json)> = Vec::new();
    es.push(("projectKind".to_owned(), json_str("local")));
    es.push(("projectId".to_owned(), Json::Str(item.project_id.clone())));
    es.push(("cwd".to_owned(), Json::Str(item.cwd.clone())));
    es.push(("pendingCoreUpdate".to_owned(), Json::Bool(false)));
    let r = json_object(es);
    assert(entry_views(es@) =~= seq![
        ("projectKind"@, JsonValue::Str("local"@)),
        ("projectId"@, JsonValue::Str(item.project_id@)),
        ("cwd"@, JsonValue::Str(item.cwd@)),
        ("pendingCoreUpdate"@, JsonValue::Bool(false)),
    ]);
    r
}

/// The state with the assignments set; an existing entry for a thread is
/// replaced, others are kept, and the assignments object is created when
/// absent.
pub fn apply_assignments(state: &Json, applied: &Vec<PlannedAssignment>) -> (r: Result<Json, RepairError>)
    ensures
        match r {
            Ok(s) => apply_spec(state@, planned_views(applied@)) == Ok::<JsonValue, RepairError>(s@),
            Err(e) => apply_spec(state@, planned_views(applied@)) == Err::<JsonValue, RepairError>(e),
        },
{
    let ghost items = planned_views(applied@);
    let mut top: Vec<(String, Json)> = match state.deep_clone() {
        Json::Object(t) => {
            proof {
                lemma_object_view(t);
            }
            t
        },
        _ => return Err(RepairError::NotObject(StateField::State)),
    };
    let ghost topv = entry_views(top@);
    assert(as_object(state@) == Some(topv));
    let mut es: Vec<(String, Json)> = match state.get(ASSIGNMENTS_KEY) {
        Some(a) => match a.deep_clone() {
            Json::Object(t) => {
                proof {
                    lemma_object_view(t);
                }
                t
            },
            _ => return Err(RepairError::NotObject(StateField::Assignments)),
        },
        None => Vec::new(),
    };
    let ghost es0 = entry_views(es@);
    assert(match entries_get(topv, ASSIGNMENTS_KEY@) {
        Some(a) => as_object(a) == Some(es0),
        None => es0 == Seq::<(Seq<char>, JsonValue)>::empty(),
    });
    let mut i: usize = 0;
    while i < applied.len()
        invariant
            items == planned_views(applied@),
            topv == entry_views(top@),
            as_object(state@) == Some(topv),
            match entries_get(topv, ASSIGNMENTS_KEY@) {
                Some(a) => as_object(a) == Some(es0),
                None => es0 == Seq::<(Seq<char>, JsonValue)>::empty(),
            },
            i <= applied@.len(),
            entry_views(es@) == assign_all(es0, items, i as int),
        decreases applied.len() - i,
    {
        let item = &applied[i];
        let v = assignment_value(item);
        entries_set_exec(&mut es, item.thread_id.clone(), v);
        i = i + 1;
    }
    let ghost asg_final = entry_views(es@);
    entries_set_exec(&mut top, ASSIGNMENTS_KEY.to_owned(), json_object(es));
    Ok(json_object(top))
}

/// The assignment of `item` is in the assignments object `asg`, as written.
pub open spec fn assignment_holds(asg: JsonValue, item: (Seq<char>, Seq<char>, Seq<char>)) -> bool {
    match get(asg, item.0) {
        Some(v) => {
            &&& as_object(v) is Some
            &&& get_str(v, "projectKind"@) == Some("local"@)
            &&& get_str(v, "projectId"@) == Some(item.1)
            &&& get_str(v, "cwd"@) == Some(item.2)
            &&& match get(v, "pendingCoreUpdate"@) {
                Some(b) => as_bool(b) == Some(false),
                None => false,
            }
        },
        None => false,
    }
}

/// Whether a state holds every assignment of `items`.
pub open spec fn verify_spec(state: JsonValue, items: Seq<(Seq<char>, Seq<char>, Seq<char>)>) -> Result<(), RepairError> {
    if as_object(state) is None {
        Err(RepairError::NotObject(StateField::State))
    } else {
        match get(state, ASSIGNMENTS_KEY@) {
            Some(a) => if as_object(a) is None {
                Err(RepairError::NotObject(StateField::Assignments))
            } else if forall|i: int| 0 <= i < items.len() ==> #[trigger] assignment_holds(a, items[i]) {
                Ok(())
            } else {
                Err(RepairError::VerificationFailed)
            },
            None => Err(RepairError::NotObject(StateField::Assignments)),
        }
    }
}

/// Checks that a state, as read back after writing, holds the assignments.
pub fn verify_assignments(state: &Json, applied: &Vec<PlannedAssignment>) -> (r: Result<(), RepairError>)
    ensures
        r == verify_spec(state@, planned_views(applied@)),
{
    let ghost items = planned_views(applied@);
    if state.as_object().is_none() {
        return Err(RepairError::NotObject(StateField::State));
    }
    let asg = match state.get(ASSIGNMENTS_KEY) {
        Some(a) => a,
        None => return Err(RepairError::NotObject(StateField::Assignments)),
    };
    if asg.as_object().is_none() {
        return Err(RepairError::NotObject(StateField::Assignments));
    }
    let mut i: usize = 0;
    while i < applied.len()
        invariant
            items == planned_views(applied@),
            as_object(state@) is Some,
            get(state@, ASSIGNMENTS_KEY@) == Some(asg@),
            as_object(asg@) is Some,
            i <= applied@.len(),
            forall|k: int| 0 <= k < i ==> #[trigger] assignment_holds(asg@, items[k]),
        decreases applied.len() - i,
    {
        let item = &applied[i];
        assert(items[i as int] == (item.thread_id@, item.project_id@, item.cwd@));
        let ok = match asg.get(item.thread_id.as_str()) {
            Some(v) => {
                let kind_ok = match v.get_str("projectKind") {
                    Some(s) => crate::text::str_eq(s.as_str(), "local"),
                    None => false,
                };
                let id_ok = match v.get_str("projectId") {
                    Some(s) => crate::text::str_eq(s.as_str(), item.project_id.as_str()),
                    None => false,
                };
                let cwd_ok = match v.get_str("cwd") {
                    Some(s) => crate::text::str_eq(s.as_str(), item.cwd.as_str()),
                    None => false,
                };
                let pending_ok = match v.get("pendingCoreUpdate") {
                    Some(b) => match b.as_bool() {
                        Some(x) => !x,
                        None => false,
                    },
                    None => false,
                };
                v.as_object().is_some() && kind_ok && id_ok && cwd_ok && pending_ok
            },
            None => false,
        };
        assert(ok == assignment_holds(asg@, items[i as int]));
        if !ok {
            return Err(RepairError::VerificationFailed);
        }
        i = i + 1;
    }
    Ok(())
}

} // verus!

verus! {

/// No two items share a thread id.
pub open spec fn distinct_threads(items: Seq<(Seq<char>, Seq<char>, Seq<char>)>) -> bool {
    forall|i: int, j: int| 0 <= i < j < items.len() ==> (#[trigger] items[i]).0 != (#[trigger] items[j]).0
}

/// Setting items leaves a key that none of them names as it was.
pub proof fn lemma_assign_all_other(
    es: Seq<(Seq<char>, JsonValue)>,
    items: Seq<(Seq<char>, Seq<char>, Seq<char>)>,
    n: int,
    k: Seq<char>,
)
    requires
        0 <= n <= items.len(),
        forall|i: int| 0 <= i < n ==> (#[trigger] items[i]).0 != k,
    ensures
        entries_get(assign_all(es, items, n), k) == entries_get(es, k),
    decreases n,
{
    if n > 0 {
        lemma_assign_all_other(es, items, n - 1, k);
        lemma_entries_set_get(
            assign_all(es, items, n - 1),
            items[n - 1].0,
            assignment_value_spec(items[n - 1].1, items[n - 1].2),
            k,
        );
    }
}

/// After setting items, every key that was present or set is present.
pub proof fn lemma_assign_all_present(
    es: Seq<(Seq<char>, JsonValue)>,
    items: Seq<(Seq<char>, Seq<char>, Seq<char>)>,
    n: int,
    k: Seq<char>,
)
    requires
        0 <= n <= items.len(),
        entries_get(es, k) is Some || exists|i: int| 0 <= i < n && (#[trigger] items[i]).0 == k,
    ensures
        entries_get(assign_all(es, items, n), k) is Some,
    decreases n,
{
    if n > 0 {
        let prev = assign_all(es, items, n - 1);
        lemma_entries_set_get(prev, items[n - 1].0, assignment_value_spec(items[n - 1].1, items[n - 1].2), k);
        if items[n - 1].0 != k {
            assert(entries_get(es, k) is Some || exists|i: int| 0 <= i < n - 1 && (#[trigger] items[i]).0 == k);
            lemma_assign_all_present(es, items, n - 1, k);
        }
    }
}

/// With distinct thread ids, each item's assignment reads back as written.
pub proof fn lemma_assign_all_value(
    es: Seq<(Seq<char>, JsonValue)>,
    items: Seq<(Seq<char>, Seq<char>, Seq<char>)>,
    n: int,
    i: int,
)
    requires
        0 <= i < n <= items.len(),
        distinct_threads(items),
    ensures
        entries_get(assign_all(es, items, n), items[i].0) == Some(assignment_value_spec(items[i].1, items[i].2)),
    decreases n,
{
    let prev = assign_all(es, items, n - 1);
    lemma_entries_set_get(prev, items[n - 1].0, assignment_value_spec(items[n - 1].1, items[n - 1].2), items[i].0);
    if i < n - 1 {
        assert(items[i].0 != items[n - 1].0);
        lemma_assign_all_value(es, items, n - 1, i);
    }
}

/// What `keep_safe` keeps is still safe and is one of the items.
pub proof fn lemma_keep_safe_members(
    items: Seq<(Seq<char>, Seq<char>, Seq<char>)>,
    n: int,
    asg: Option<Seq<(Seq<char>, JsonValue)>>,
    pairs: Seq<(Seq<char>, Seq<char>)>,
    home: Option<Seq<char>>,
    windows: bool,
)
    requires
        0 <= n <= items.len(),
    ensures
        ({
            let ks = keep_safe(items, n, asg, pairs, home, windows);
            &&& forall|k: int| 0 <= k < ks.len() ==> still_safe(asg, pairs, #[trigger] ks[k], home, windows)
            &&& forall|k: int| 0 <= k < ks.len() ==> exists|j: int| 0 <= j < n && items[j] == #[trigger] ks[k]
            &&& forall|j: int| 0 <= j < n && still_safe(asg, pairs, #[trigger] items[j], home, windows)
                ==> exists|k: int| 0 <= k < ks.len() && ks[k] == items[j]
            &&& distinct_threads(items) ==> distinct_threads(ks)
        }),
    decreases n,
{
    if n > 0 {
        lemma_keep_safe_members(items, n - 1, asg, pairs, home, windows);
        let prev = keep_safe(items, n - 1, asg, pairs, home, windows);
        let ks = keep_safe(items, n, asg, pairs, home, windows);
        if still_safe(asg, pairs, items[n - 1], home, windows) {
            assert(ks == prev.push(items[n - 1]));
            assert forall|k: int| 0 <= k < ks.len() implies exists|j: int| 0 <= j < n && items[j] == #[trigger] ks[k] by {
                if k == prev.len() {
                    assert(items[n - 1] == ks[k]);
                } else {
                    assert(ks[k] == prev[k]);
                }
            }
            assert forall|j: int| 0 <= j < n && still_safe(asg, pairs, #[trigger] items[j], home, windows)
                implies exists|k: int| 0 <= k < ks.len() && ks[k] == items[j] by {
                if j == n - 1 {
                    assert(ks[prev.len() as int] == items[j]);
                } else {
                    let k = choose|k: int| 0 <= k < prev.len() && prev[k] == items[j];
                    assert(ks[k] == items[j]);
                }
            }
            if distinct_threads(items) {
                assert forall|a: int, b: int| 0 <= a < b < ks.len() implies (#[trigger] ks[a]).0 != (#[trigger] ks[b]).0 by {
                    if b == prev.len() {
                        assert(ks[a] == prev[a]);
                        let j = choose|j: int| 0 <= j < n - 1 && items[j] == #[trigger] prev[a];
                        assert(items[j].0 != items[n - 1].0);
                    } else {
                        assert(ks[a] == prev[a] && ks[b] == prev[b]);
                    }
                }
            }
        } else {
            assert forall|j: int| 0 <= j < n && still_safe(asg, pairs, #[trigger] items[j], home, windows)
                implies exists|k: int| 0 <= k < ks.len() && ks[k] == items[j] by {
                assert(j != n - 1);
            }
            assert forall|k: int| 0 <= k < ks.len() implies exists|j: int| 0 <= j < n && items[j] == #[trigger] ks[k] by {
                let j = choose|j: int| 0 <= j < n - 1 && items[j] == #[trigger] prev[k];
                assert(items[j] == ks[k]);
            }
        }
    }
}

/// `keep_safe` keeps nothing when no item is safe.
pub proof fn lemma_keep_safe_none(
    items: Seq<(Seq<char>, Seq<char>, Seq<char>)>,
    n: int,
    asg: Option<Seq<(Seq<char>, JsonValue)>>,
    pairs: Seq<(Seq<char>, Seq<char>)>,
    home: Option<Seq<char>>,
    windows: bool,
)
    requires
        0 <= n <= items.len(),
        forall|j: int| 0 <= j < n ==> !still_safe(asg, pairs, #[trigger] items[j], home, windows),
    ensures
        keep_safe(items, n, asg, pairs, home, windows) == Seq::<(Seq<char>, Seq<char>, Seq<char>)>::empty(),
    decreases n,
{
    if n > 0 {
        lemma_keep_safe_none(items, n - 1, asg, pairs, home, windows);
    }
}

} // verus!

verus! {

proof fn lemma_state_keys()
    ensures
        ASSIGNMENTS_KEY@ != "local-projects"@,
        ASSIGNMENTS_KEY@ != "project-order"@,
        ASSIGNMENTS_KEY@ != "electron-saved-workspace-roots"@,
{
    reveal_strlit("thread-project-assignments");
    reveal_strlit("local-projects");
    reveal_strlit("project-order");
    reveal_strlit("electron-saved-workspace-roots");
    assert(ASSIGNMENTS_KEY@[0] != "local-projects"@[0]);
    assert(ASSIGNMENTS_KEY@[0] != "project-order"@[0]);
    assert(ASSIGNMENTS_KEY@[0] != "electron-saved-workspace-roots"@[0]);
}

proof fn lemma_assignment_value_fields(project_id: Seq<char>, cwd: Seq<char>)
    ensures
        ({
            let v = assignment_value_spec(project_id, cwd);
            &&& as_object(v) is Some
            &&& get_str(v, "projectKind"@) == Some("local"@)
            &&& get_str(v, "projectId"@) == Some(project_id)
            &&& get_str(v, "cwd"@) == Some(cwd)
            &&& get(v, "pendingCoreUpdate"@) == Some(JsonValue::Bool(false))
        }),
{
    reveal_strlit("projectKind");
    reveal_strlit("projectId");
    reveal_strlit("cwd");
    reveal_strlit("pendingCoreUpdate");
    let es = seq![
        ("projectKind"@, JsonValue::Str("local"@)),
        ("projectId"@, JsonValue::Str(project_id)),
        ("cwd"@, JsonValue::Str(cwd)),
        ("pendingCoreUpdate"@, JsonValue::Bool(false)),
    ];
    assert("projectKind"@ != "projectId"@ ) by {
        assert("projectKind"@[7] != "projectId"@[7]);
    }
    assert("cwd"@ != "projectKind"@) by {
        assert("cwd"@[0] != "projectKind"@[0]);
    }
    assert("cwd"@ != "projectId"@) by {
        assert("cwd"@[0] != "projectId"@[0]);
    }
    assert("pendingCoreUpdate"@ != "projectKind"@) by {
        assert("pendingCoreUpdate"@[1] != "projectKind"@[1]);
    }
    assert("pendingCoreUpdate"@ != "projectId"@) by {
        assert("pendingCoreUpdate"@[1] != "projectId"@[1]);
    }
    assert("pendingCoreUpdate"@ != "cwd"@) by {
        assert("pendingCoreUpdate"@[0] != "cwd"@[0]);
    }
    crate::json::lemma_entries_find_unique(es, "projectKind"@, 0);
    crate::json::lemma_entries_find_unique(es, "projectId"@, 1);
    crate::json::lemma_entries_find_unique(es, "cwd"@, 2);
    crate::json::lemma_entries_find_unique(es, "pendingCoreUpdate"@, 3);
}

/// Applying assignments changes no top-level field of the state but the
/// assignments object.
pub proof fn law_apply_keeps_other_fields(
    state: JsonValue,
    items: Seq<(Seq<char>, Seq<char>, Seq<char>)>,
    k: Seq<char>,
)
    requires
        apply_spec(state, items) is Ok,
        k != ASSIGNMENTS_KEY@,
    ensures
        get(apply_spec(state, items)->Ok_0, k) == get(state, k),
{
    lemma_apply_shape(state, items);
}

/// The assignments object of an applied state, and the one it was made from.
pub open spec fn base_assignments(state: JsonValue) -> Seq<(Seq<char>, JsonValue)> {
    match get(state, ASSIGNMENTS_KEY@) {
        Some(a) => as_object(a)->0,
        None => Seq::empty(),
    }
}

proof fn lemma_apply_shape(state: JsonValue, items: Seq<(Seq<char>, Seq<char>, Seq<char>)>)
    requires
        apply_spec(state, items) is Ok,
    ensures
        ({
            let s2 = apply_spec(state, items)->Ok_0;
            &&& as_object(s2) is Some
            &&& get(s2, ASSIGNMENTS_KEY@) == Some(
                JsonValue::Object(assign_all(base_assignments(state), items, items.len() as int)),
            )
            &&& assignments_spec(s2) == Ok::<Option<Seq<(Seq<char>, JsonValue)>>, RepairError>(
                Some(assign_all(base_assignments(state), items, items.len() as int)),
            )
            &&& forall|k: Seq<char>| k != ASSIGNMENTS_KEY@ ==> #[trigger] get(s2, k) == get(state, k)
        }),
{
    let top = as_object(state)->0;
    let v = JsonValue::Object(assign_all(base_assignments(state), items, items.len() as int));
    lemma_entries_set_get(top, ASSIGNMENTS_KEY@, v, ASSIGNMENTS_KEY@);
    let s2 = apply_spec(state, items)->Ok_0;
    assert forall|k: Seq<char>| k != ASSIGNMENTS_KEY@ implies #[trigger] get(s2, k) == get(state, k) by {
        lemma_entries_set_get(top, ASSIGNMENTS_KEY@, v, k);
    }
}

/// What a read gives back of a write: a state with assignments applied holds
/// each of them, as long as no two name the same thread.
pub proof fn law_apply_then_verify(state: JsonValue, items: Seq<(Seq<char>, Seq<char>, Seq<char>)>)
    requires
        apply_spec(state, items) is Ok,
        distinct_threads(items),
    ensures
        verify_spec(apply_spec(state, items)->Ok_0, items) == Ok::<(), RepairError>(()),
{
    lemma_apply_shape(state, items);
    let a = JsonValue::Object(assign_all(base_assignments(state), items, items.len() as int));
    assert forall|i: int| 0 <= i < items.len() implies #[trigger] assignment_holds(a, items[i]) by {
        lemma_assign_all_value(base_assignments(state), items, items.len() as int, i);
        lemma_assignment_value_fields(items[i].1, items[i].2);
    }
}

} // verus!

verus! {

/// Applying the assignments that are still safe makes none of the planned
/// assignments safe any more: a second application writes nothing.
pub proof fn law_apply_is_idempotent(
    state: JsonValue,
    items: Seq<(Seq<char>, Seq<char>, Seq<char>)>,
    home: Option<Seq<char>>,
    windows: bool,
)
    requires
        current_safe_spec(state, items, home, windows) is Ok,
        apply_spec(state, current_safe_spec(state, items, home, windows)->Ok_0) is Ok,
    ensures
        current_safe_spec(
            apply_spec(state, current_safe_spec(state, items, home, windows)->Ok_0)->Ok_0,
            items,
            home,
            windows,
        ) == Ok::<Seq<(Seq<char>, Seq<char>, Seq<char>)>, RepairError>(Seq::empty()),
{
    let applied = current_safe_spec(state, items, home, windows)->Ok_0;
    let s2 = apply_spec(state, applied)->Ok_0;
    let pairs = project_roots_spec(state, home, windows)->Ok_0;
    let asg = assignments_spec(state)->Ok_0;
    let base = base_assignments(state);
    let a2 = assign_all(base, applied, applied.len() as int);
    lemma_apply_shape(state, applied);
    lemma_state_keys();
    assert(get(s2, "local-projects"@) == get(state, "local-projects"@));
    assert(get(s2, "project-order"@) == get(state, "project-order"@));
    assert(get(s2, "electron-saved-workspace-roots"@) == get(state, "electron-saved-workspace-roots"@));
    assert(project_roots_spec(s2, home, windows) == project_roots_spec(state, home, windows));
    lemma_keep_safe_members(items, items.len() as int, asg, pairs, home, windows);
    assert forall|j: int| 0 <= j < items.len() implies !still_safe(Some(a2), pairs, #[trigger] items[j], home, windows) by {
        if still_safe(asg, pairs, items[j], home, windows) {
            let k = choose|k: int| 0 <= k < applied.len() && applied[k] == items[j];
            lemma_assign_all_present(base, applied, applied.len() as int, items[j].0);
        } else if is_assigned(asg, items[j].0) {
            lemma_assign_all_present(base, applied, applied.len() as int, items[j].0);
        }
    }
    lemma_keep_safe_none(items, items.len() as int, Some(a2), pairs, home, windows);
}

/// Applying the assignments that are still safe never replaces an existing
/// assignment.
pub proof fn law_apply_keeps_existing(
    state: JsonValue,
    items: Seq<(Seq<char>, Seq<char>, Seq<char>)>,
    home: Option<Seq<char>>,
    windows: bool,
    thread_id: Seq<char>,
)
    requires
        current_safe_spec(state, items, home, windows) is Ok,
        apply_spec(state, current_safe_spec(state, items, home, windows)->Ok_0) is Ok,
        is_assigned(assignments_spec(state)->Ok_0, thread_id),
    ensures
        entries_get(
            base_assignments(apply_spec(state, current_safe_spec(state, items, home, windows)->Ok_0)->Ok_0),
            thread_id,
        ) == entries_get(base_assignments(state), thread_id),
{
    let applied = current_safe_spec(state, items, home, windows)->Ok_0;
    let pairs = project_roots_spec(state, home, windows)->Ok_0;
    let asg = assignments_spec(state)->Ok_0;
    lemma_apply_shape(state, applied);
    lemma_keep_safe_members(items, items.len() as int, asg, pairs, home, windows);
    assert forall|i: int| 0 <= i < applied.len() implies (#[trigger] applied[i]).0 != thread_id by {
        assert(still_safe(asg, pairs, applied[i], home, windows));
    }
    lemma_assign_all_other(base_assignments(state), applied, applied.len() as int, thread_id);
}

} // verus!

verus! {

/// The planned assignments name threads of the records, each thread once.
pub proof fn lemma_tally_planned_distinct(
    rs: Seq<RolloutRecord>,
    n: int,
    asg: Option<Seq<(Seq<char>, JsonValue)>>,
    pairs: Seq<(Seq<char>, Seq<char>)>,
    home: Option<Seq<char>>,
    windows: bool,
)
    requires
        0 <= n <= rs.len(),
    ensures
        ({
            let p = tally(rs, n, asg, pairs, home, windows).planned;
            &&& distinct_threads(p)
            &&& forall|k: int| 0 <= k < p.len() ==> exists|i: int| 0 <= i < n && (#[trigger] p[k]).0 == rs[i].thread_id@
        }),
    decreases n,
{
    if n > 0 {
        lemma_tally_planned_distinct(rs, n - 1, asg, pairs, home, windows);
        let prev = tally(rs, n - 1, asg, pairs, home, windows).planned;
        let p = tally(rs, n, asg, pairs, home, windows).planned;
        if first_of_thread(rs, n - 1) && thread_outcome(rs, n - 1, asg, pairs, home, windows) is Planned {
            assert(p == prev.push(p[prev.len() as int]));
            assert(p[prev.len() as int].0 == rs[n - 1].thread_id@);
            assert forall|k: int| 0 <= k < p.len() implies exists|i: int| 0 <= i < n && (#[trigger] p[k]).0 == rs[i].thread_id@ by {
                if k < prev.len() {
                    assert(p[k] == prev[k]);
                }
            }
            assert forall|a: int, b: int| 0 <= a < b < p.len() implies (#[trigger] p[a]).0 != (#[trigger] p[b]).0 by {
                assert(p[a] == prev[a]);
                if b == prev.len() {
                    let i = choose|i: int| 0 <= i < n - 1 && (#[trigger] prev[a]).0 == rs[i].thread_id@;
                    assert(rs[i].thread_id@ != rs[n - 1].thread_id@);
                } else {
                    assert(p[b] == prev[b]);
                }
            }
        } else {
            assert(p == prev);
        }
    }
}

/// What applying the repair writes.
pub struct RepairApplication {
    /// The analysis report, with `applied_assignments` counting what is written.
    pub report: LocalProjectRepairReport,
    /// The state to write, when there is anything to write.
    pub new_state: Option<Json>,
    /// The assignments written.
    pub applied: Vec<PlannedAssignment>,
}

/// The outcome of applying the repair: the analysis, the assignments still
/// safe in the current state, and the state to write (none when nothing is).
pub open spec fn apply_outcome_spec(
    state: JsonValue,
    rs: Seq<RolloutRecord>,
    current: JsonValue,
    home: Option<Seq<char>>,
    windows: bool,
) -> Result<(nat, PlanTally, Seq<(Seq<char>, Seq<char>, Seq<char>)>, Option<JsonValue>), RepairError> {
    match repair_plan_spec(state, rs, home, windows) {
        Err(e) => Err(e),
        Ok(x) => if x.1.planned.len() == 0 {
            Ok((x.0, x.1, Seq::empty(), None))
        } else {
            match current_safe_spec(current, x.1.planned, home, windows) {
                Err(e) => Err(e),
                Ok(applied) => if applied.len() == 0 {
                    Ok((x.0, x.1, Seq::empty(), None))
                } else {
                    match apply_spec(current, applied) {
                        Err(e) => Err(e),
                        Ok(s2) => Ok((x.0, x.1, applied, Some(s2))),
                    }
                },
            }
        },
    }
}

pub open spec fn application_matches(
    a: RepairApplication,
    rs: Seq<RolloutRecord>,
    x: (nat, PlanTally, Seq<(Seq<char>, Seq<char>, Seq<char>)>, Option<JsonValue>),
) -> bool {
    let rep = a.report;
    let t = x.1;
    &&& rep.existing_assignments == x.0
    &&& rep.safe_assignments_found == t.planned.len()
    &&& rep.unmatched == t.unmatched
    &&& rep.ambiguous == t.ambiguous
    &&& rep.missing_cwd == t.missing_cwd
    &&& rep.duplicate_rollout_thread_ids == t.duplicates
    &&& rep.malformed_rollout_lines == malformed_total(rs, rs.len() as int)
    &&& rep.applied_assignments == x.2.len()
    &&& rep.backup_path is None
    &&& planned_views(a.applied@) == x.2
    &&& match a.new_state {
        Some(s) => x.3 == Some(s@),
        None => x.3 is None,
    }
}

/// The repair with the home directory that `~` stands for: analyses `state`,
/// re-checks the planned assignments against `current` (the state as it is
/// when it is about to be written) and sets the ones still safe. The state to
/// write holds every assignment written.
pub fn apply_local_project_assignments_with_home(
    state: &Json,
    rollouts: &Vec<RolloutRecord>,
    current: &Json,
    home: Option<&str>,
    windows: bool,
) -> (r: Result<RepairApplication, RepairError>)
    requires
        malformed_total(rollouts@, rollouts@.len() as int) <= usize::MAX,
    ensures
        match r {
            Ok(a) => apply_outcome_spec(state@, rollouts@, current@, opt_str_view(home), windows) matches Ok(x)
                && application_matches(a, rollouts@, x),
            Err(e) => apply_outcome_spec(state@, rollouts@, current@, opt_str_view(home), windows) == Err::<
                (nat, PlanTally, Seq<(Seq<char>, Seq<char>, Seq<char>)>, Option<JsonValue>),
                RepairError,
            >(e),
        },
        match r {
            Ok(a) => match a.new_state {
                Some(s) => verify_spec(s@, planned_views(a.applied@)) == Ok::<(), RepairError>(()),
                None => a.applied@.len() == 0,
            },
            Err(_) => true,
        },
{
    let plan = match plan_local_project_assignments(state, rollouts, home, windows) {
        Ok(p) => p,
        Err(e) => return Err(e),
    };
    let ghost hv = opt_str_view(home);
    let ghost x = repair_plan_spec(state@, rollouts@, hv, windows)->Ok_0;
    if plan.assignments.len() == 0 {
        let none: Vec<PlannedAssignment> = Vec::new();
        assert(planned_views(none@) =~= Seq::<(Seq<char>, Seq<char>, Seq<char>)>::empty());
        return Ok(RepairApplication { report: plan.report, new_state: None, applied: none });
    }
    let applied = match current_safe_assignments(current, &plan.assignments, home, windows) {
        Ok(v) => v,
        Err(e) => return Err(e),
    };
    if applied.len() == 0 {
        let none: Vec<PlannedAssignment> = Vec::new();
        assert(planned_views(none@) =~= Seq::<(Seq<char>, Seq<char>, Seq<char>)>::empty());
        return Ok(RepairApplication { report: plan.report, new_state: None, applied: none });
    }
    let new_state = match apply_assignments(current, &applied) {
        Ok(s) => s,
        Err(e) => return Err(e),
    };
    proof {
        let asg = assignments_spec(current@)->Ok_0;
        let pairs = project_roots_spec(current@, hv, windows)->Ok_0;
        let st = assignments_spec(state@)->Ok_0;
        let sp = project_roots_spec(state@, hv, windows)->Ok_0;
        lemma_tally_planned_distinct(rollouts@, rollouts@.len() as int, st, sp, hv, windows);
        lemma_keep_safe_members(x.1.planned, x.1.planned.len() as int, asg, pairs, hv, windows);
        law_apply_then_verify(current@, planned_views(applied@));
    }
    let mut report = plan.report;
    report.applied_assignments = applied.len();
    Ok(RepairApplication { report, new_state: Some(new_state), applied })
}

/// The outcome of applying the repair to the global state as read from its
/// file: the state parsed and analysed; when assignments are planned, the
/// state as it is about to be written (`current`) parsed, and the outcome of
/// [`apply_outcome_spec`].
pub open spec fn apply_bytes_outcome_spec(
    state_bytes: Seq<u8>,
    rs: Seq<RolloutRecord>,
    current_bytes: Seq<u8>,
    home: Option<Seq<char>>,
    windows: bool,
) -> Result<(nat, PlanTally, Seq<(Seq<char>, Seq<char>, Seq<char>)>, Option<JsonValue>), RepairError> {
    match crate::codec::json_bytes_parse(state_bytes) {
        None => Err(RepairError::NotJson),
        Some(state) => match repair_plan_spec(state, rs, home, windows) {
            Err(e) => Err(e),
            Ok(x) => if x.1.planned.len() == 0 {
                Ok((x.0, x.1, Seq::empty(), None))
            } else {
                match crate::codec::json_bytes_parse(current_bytes) {
                    None => Err(RepairError::NotJson),
                    Some(current) => apply_outcome_spec(state, rs, current, home, windows),
                }
            },
        },
    }
}

/// The repair of the global state given the rollout records: the state (as
/// read from its file) is parsed and the safe assignments planned; when there
/// are any, the state as it is about to be written is parsed, the plan
/// re-checked against it and the state to write made with the assignments
/// still safe. Existing assignments are never replaced. A `~` in a path
/// stands for the user's home directory, which is looked up here.
pub fn apply_local_project_assignments(
    state_bytes: &[u8],
    rollouts: &Vec<RolloutRecord>,
    current_bytes: &[u8],
    windows: bool,
) -> (r: Result<RepairApplication, RepairError>)
    requires
        malformed_total(rollouts@, rollouts@.len() as int) <= usize::MAX,
    ensures
        match r {
            Ok(a) => exists|h: Option<Seq<char>>| #[trigger] apply_bytes_outcome_spec(
                state_bytes@,
                rollouts@,
                current_bytes@,
                h,
                windows,
            ) matches Ok(x) && application_matches(a, rollouts@, x),
            Err(e) => exists|h: Option<Seq<char>>| #[trigger] apply_bytes_outcome_spec(
                state_bytes@,
                rollouts@,
                current_bytes@,
                h,
                windows,
            ) == Err::<(nat, PlanTally, Seq<(Seq<char>, Seq<char>, Seq<char>)>, Option<JsonValue>), RepairError>(e),
        },
        match r {
            Ok(a) => match a.new_state {
                Some(s) => verify_spec(s@, planned_views(a.applied@)) == Ok::<(), RepairError>(()),
                None => a.applied@.len() == 0,
            },
            Err(_) => true,
        },
{
    let home = user_home_dir();
    let hr: Option<&str> = match &home {
        Some(h) => Some(h.as_str()),
        None => None,
    };
    let ghost h = opt_str_view(hr);
    let state = match crate::codec::parse_json_bytes(state_bytes) {
        Some(s) => s,
        None => {
            assert(apply_bytes_outcome_spec(state_bytes@, rollouts@, current_bytes@, h, windows) == Err::<
                (nat, PlanTally, Seq<(Seq<char>, Seq<char>, Seq<char>)>, Option<JsonValue>),
                RepairError,
            >(RepairError::NotJson));
            return Err(RepairError::NotJson);
        },
    };
    let plan = match plan_local_project_assignments(&state, rollouts, hr, windows) {
        Ok(p) => p,
        Err(e) => {
            assert(apply_bytes_outcome_spec(state_bytes@, rollouts@, current_bytes@, h, windows) == Err::<
                (nat, PlanTally, Seq<(Seq<char>, Seq<char>, Seq<char>)>, Option<JsonValue>),
                RepairError,
            >(e));
            return Err(e);
        },
    };
    if plan.assignments.len() == 0 {
        let r = apply_local_project_assignments_with_home(&state, rollouts, &state, hr, windows);
        assert(apply_bytes_outcome_spec(state_bytes@, rollouts@, current_bytes@, h, windows)
            == apply_outcome_spec(state@, rollouts@, state@, h, windows));
        return r;
    }
    let current = match crate::codec::parse_json_bytes(current_bytes) {
        Some(c) => c,
        None => {
            assert(apply_bytes_outcome_spec(state_bytes@, rollouts@, current_bytes@, h, windows) == Err::<
                (nat, PlanTally, Seq<(Seq<char>, Seq<char>, Seq<char>)>, Option<JsonValue>),
                RepairError,
            >(RepairError::NotJson));
            return Err(RepairError::NotJson);
        },
    };
    let r = apply_local_project_assignments_with_home(&state, rollouts, &current, hr, windows);
    assert(apply_bytes_outcome_spec(state_bytes@, rollouts@, current_bytes@, h, windows)
        == apply_outcome_spec(state@, rollouts@, current@, h, windows));
    r
}

} // verus!

verus! {

/// Applying the repair writes exactly the assignments it reports: there is a
/// state to write exactly when at least one assignment is applied; the applied
/// threads are distinct and had no assignment; in the state written each of
/// them is assigned its local project, and every other thread keeps what it
/// had.
pub proof fn law_apply_writes_exactly_the_applied(
    state: JsonValue,
    rs: Seq<RolloutRecord>,
    current: JsonValue,
    home: Option<Seq<char>>,
    windows: bool,
    k: Seq<char>,
)
    requires
        apply_outcome_spec(state, rs, current, home, windows) is Ok,
    ensures
        ({
            let x = apply_outcome_spec(state, rs, current, home, windows)->Ok_0;
            let applied = x.2;
            &&& (x.3 is None) == (applied.len() == 0)
            &&& distinct_threads(applied)
            &&& forall|i: int|
                0 <= i < applied.len() ==> !is_assigned(
                    assignments_spec(current)->Ok_0,
                    (#[trigger] applied[i]).0,
                )
            &&& forall|s2: JsonValue|
                x.3 == Some(s2) ==> {
                    &&& forall|i: int|
                        0 <= i < applied.len() ==> entries_get(
                            base_assignments(s2),
                            (#[trigger] applied[i]).0,
                        ) == Some(assignment_value_spec(applied[i].1, applied[i].2))
                    &&& (forall|i: int| 0 <= i < applied.len() ==> (#[trigger] applied[i]).0 != k)
                        ==> entries_get(base_assignments(s2), k) == entries_get(
                        base_assignments(current),
                        k,
                    )
                }
        }),
{
    let x = apply_outcome_spec(state, rs, current, home, windows)->Ok_0;
    let p = repair_plan_spec(state, rs, home, windows)->Ok_0;
    if p.1.planned.len() > 0 {
        let st = assignments_spec(state)->Ok_0;
        let sp = project_roots_spec(state, home, windows)->Ok_0;
        lemma_tally_planned_distinct(rs, rs.len() as int, st, sp, home, windows);
        let asg = assignments_spec(current)->Ok_0;
        let pairs = project_roots_spec(current, home, windows)->Ok_0;
        lemma_keep_safe_members(p.1.planned, p.1.planned.len() as int, asg, pairs, home, windows);
        let applied = x.2;
        assert forall|i: int| 0 <= i < applied.len() implies !is_assigned(
            asg,
            (#[trigger] applied[i]).0,
        ) by {
            assert(still_safe(asg, pairs, applied[i], home, windows));
        }
        if applied.len() > 0 {
            lemma_apply_shape(current, applied);
            let s2 = apply_spec(current, applied)->Ok_0;
            assert(base_assignments(s2) == assign_all(
                base_assignments(current),
                applied,
                applied.len() as int,
            ));
            assert forall|i: int| 0 <= i < applied.len() implies entries_get(
                base_assignments(s2),
                (#[trigger] applied[i]).0,
            ) == Some(assignment_value_spec(applied[i].1, applied[i].2)) by {
                lemma_assign_all_value(base_assignments(current), applied, applied.len() as int, i);
            }
            if forall|i: int| 0 <= i < applied.len() ==> (#[trigger] applied[i]).0 != k {
                lemma_assign_all_other(base_assignments(current), applied, applied.len() as int, k);
            }
        }
    }
}

} // verus!

verus! {

/// The thread ids of the first `n` records.
pub open spec fn rollout_thread_ids(rs: Seq<RolloutRecord>, n: int) -> Set<Seq<char>> {
    Set::new(|t: Seq<char>| exists|i: int| 0 <= i < n && (#[trigger] rs[i]).thread_id@ == t)
}

/// The thread ids that more than one record carries.
pub open spec fn duplicated_thread_ids(rs: Seq<RolloutRecord>) -> Set<Seq<char>> {
    Set::new(
        |t: Seq<char>|
            exists|i: int, j: int|
                0 <= i < j < rs.len() && (#[trigger] rs[i]).thread_id@ == t && (#[trigger] rs[j]).thread_id@
                    == t,
    )
}

/// The thread ids of the first `n` records that no other record carries and
/// that already have an assignment.
pub open spec fn kept_thread_ids(
    rs: Seq<RolloutRecord>,
    n: int,
    asg: Option<Seq<(Seq<char>, JsonValue)>>,
) -> Set<Seq<char>> {
    rollout_thread_ids(rs, n).filter(
        |t: Seq<char>| !duplicated_thread_ids(rs).contains(t) && is_assigned(asg, t),
    )
}

/// The duplicated thread ids among the first `n` records.
pub open spec fn duplicated_prefix_ids(rs: Seq<RolloutRecord>, n: int) -> Set<Seq<char>> {
    rollout_thread_ids(rs, n).filter(|t: Seq<char>| duplicated_thread_ids(rs).contains(t))
}

proof fn lemma_thread_ids_step(rs: Seq<RolloutRecord>, n: int)
    requires
        0 < n <= rs.len(),
    ensures
        first_of_thread(rs, n - 1) ==> !rollout_thread_ids(rs, n - 1).contains(rs[n - 1].thread_id@),
        rollout_thread_ids(rs, n) == rollout_thread_ids(rs, n - 1).insert(rs[n - 1].thread_id@),
        first_of_thread(rs, n - 1) ==> (thread_unique(rs, n - 1) <==> !duplicated_thread_ids(
            rs,
        ).contains(rs[n - 1].thread_id@)),
{
    let id = rs[n - 1].thread_id@;
    assert(rollout_thread_ids(rs, n) =~= rollout_thread_ids(rs, n - 1).insert(id)) by {
        assert forall|t: Seq<char>| rollout_thread_ids(rs, n).contains(t) implies rollout_thread_ids(
            rs,
            n - 1,
        ).insert(id).contains(t) by {
            let i = choose|i: int| 0 <= i < n && (#[trigger] rs[i]).thread_id@ == t;
            if i < n - 1 {
                assert(rollout_thread_ids(rs, n - 1).contains(t));
            }
        }
        assert forall|t: Seq<char>| rollout_thread_ids(rs, n - 1).insert(id).contains(t) implies rollout_thread_ids(
            rs,
            n,
        ).contains(t) by {
            if t == id {
                assert(rs[n - 1].thread_id@ == t);
            } else {
                let i = choose|i: int| 0 <= i < n - 1 && (#[trigger] rs[i]).thread_id@ == t;
                assert(rs[i].thread_id@ == t);
            }
        }
    }
    if first_of_thread(rs, n - 1) {
        if rollout_thread_ids(rs, n - 1).contains(id) {
            let i = choose|i: int| 0 <= i < n - 1 && (#[trigger] rs[i]).thread_id@ == id;
            assert(rs[i].thread_id@ != id);
        }
        if !thread_unique(rs, n - 1) {
            let j = choose|j: int| 0 <= j < rs.len() && j != n - 1 && (#[trigger] rs[j]).thread_id@ == id;
            if j < n - 1 {
                assert(rs[j].thread_id@ != id);
            }
            assert(rs[n - 1].thread_id@ == id && rs[j].thread_id@ == id);
            assert(duplicated_thread_ids(rs).contains(id));
        }
        if duplicated_thread_ids(rs).contains(id) && thread_unique(rs, n - 1) {
            let (i, j) = choose|i: int, j: int|
                0 <= i < j < rs.len() && (#[trigger] rs[i]).thread_id@ == id && (#[trigger] rs[j]).thread_id@
                    == id;
            if i != n - 1 {
                assert(rs[i].thread_id@ != id);
            } else {
                assert(rs[j].thread_id@ != id);
            }
        }
    }
}

/// The tally of the first `n` records counts each of their threads once.
proof fn lemma_tally_counts(
    rs: Seq<RolloutRecord>,
    n: int,
    asg: Option<Seq<(Seq<char>, JsonValue)>>,
    pairs: Seq<(Seq<char>, Seq<char>)>,
    home: Option<Seq<char>>,
    windows: bool,
)
    requires
        0 <= n <= rs.len(),
    ensures
        ({
            let t = tally(rs, n, asg, pairs, home, windows);
            &&& rollout_thread_ids(rs, n).finite()
            &&& t.duplicates == duplicated_prefix_ids(rs, n).len()
            &&& t.duplicates + t.missing_cwd + t.unmatched + t.ambiguous + t.planned.len()
                + kept_thread_ids(rs, n, asg).len() == rollout_thread_ids(rs, n).len()
        }),
    decreases n,
{
    let dup = |t: Seq<char>| duplicated_thread_ids(rs).contains(t);
    let kept = |t: Seq<char>| !duplicated_thread_ids(rs).contains(t) && is_assigned(asg, t);
    if n == 0 {
        assert(rollout_thread_ids(rs, 0) =~= Set::<Seq<char>>::empty());
        assert(duplicated_prefix_ids(rs, 0) =~= Set::<Seq<char>>::empty());
        assert(kept_thread_ids(rs, 0, asg) =~= Set::<Seq<char>>::empty());
    } else {
        lemma_tally_counts(rs, n - 1, asg, pairs, home, windows);
        lemma_thread_ids_step(rs, n);
        let id = rs[n - 1].thread_id@;
        let prev = rollout_thread_ids(rs, n - 1);
        let cur = rollout_thread_ids(rs, n);
        assert(cur == prev.insert(id));
        if !first_of_thread(rs, n - 1) {
            let j = choose|j: int| 0 <= j < n - 1 && !((#[trigger] rs[j]).thread_id@ != id);
            assert(prev.contains(id));
            assert(cur =~= prev);
        } else {
            assert(duplicated_prefix_ids(rs, n) =~= if dup(id) {
                duplicated_prefix_ids(rs, n - 1).insert(id)
            } else {
                duplicated_prefix_ids(rs, n - 1)
            });
            assert(kept_thread_ids(rs, n, asg) =~= if kept(id) {
                kept_thread_ids(rs, n - 1, asg).insert(id)
            } else {
                kept_thread_ids(rs, n - 1, asg)
            });
            assert(!duplicated_prefix_ids(rs, n - 1).contains(id));
            assert(!kept_thread_ids(rs, n - 1, asg).contains(id));
        }
    }
}

/// The analysis counts each thread of the rollouts once: the threads that
/// more than one rollout carries are the duplicates; every other thread is
/// already assigned, or planned, or counted as unmatched, ambiguous or
/// without a working directory. The existing assignments are counted as
/// found.
pub proof fn law_analysis_counts_each_thread_once(
    state: JsonValue,
    rs: Seq<RolloutRecord>,
    home: Option<Seq<char>>,
    windows: bool,
)
    requires
        repair_plan_spec(state, rs, home, windows) is Ok,
    ensures
        ({
            let x = repair_plan_spec(state, rs, home, windows)->Ok_0;
            let t = x.1;
            let asg = assignments_spec(state)->Ok_0;
            let ids = rollout_thread_ids(rs, rs.len() as int);
            &&& x.0 == existing_count(asg)
            &&& ids.finite()
            &&& t.duplicates == duplicated_thread_ids(rs).len()
            &&& t.planned.len() + t.unmatched + t.ambiguous + t.missing_cwd == ids.len()
                - duplicated_thread_ids(rs).len() - kept_thread_ids(rs, rs.len() as int, asg).len()
        }),
{
    let asg = assignments_spec(state)->Ok_0;
    let pairs = project_roots_spec(state, home, windows)->Ok_0;
    let n = rs.len() as int;
    lemma_tally_counts(rs, n, asg, pairs, home, windows);
    assert(duplicated_prefix_ids(rs, n) =~= duplicated_thread_ids(rs)) by {
        assert forall|t: Seq<char>| duplicated_thread_ids(rs).contains(t) implies rollout_thread_ids(
            rs,
            n,
        ).contains(t) by {
            let (i, j) = choose|i: int, j: int|
                0 <= i < j < rs.len() && (#[trigger] rs[i]).thread_id@ == t && (#[trigger] rs[j]).thread_id@
                    == t;
            assert(rs[i].thread_id@ == t);
        }
    }
}

} // verus!

verus! {

/// A piece of a normalized path: non-empty, and neither `.` nor `..`.
pub open spec fn clean_piece(p: Seq<char>) -> bool {
    p.len() > 0 && p != seq!['.'] && p != seq!['.', '.']
}

/// A character that normalization leaves as it is off Windows: no
/// whitespace, no `~`, no `\`.
pub open spec fn plain_path_char(c: char) -> bool {
    !crate::text::is_ws(c) && c != '~' && c != '\\'
}

pub open spec fn plain_pieces(ps: Seq<Seq<char>>, sep: char) -> bool {
    forall|k: int, i: int|
        0 <= k < ps.len() && 0 <= i < ps[k].len() ==> plain_path_char(#[trigger] ps[k][i])
            && ps[k][i] != sep
}

proof fn lemma_trim_plain(s: Seq<char>)
    requires
        forall|i: int| 0 <= i < s.len() ==> !crate::text::is_ws(#[trigger] s[i]),
    ensures
        trim(s) == s,
{
    assert(crate::text::trim_start(s) == s);
    assert(crate::text::trim_end(s) == s);
}

proof fn lemma_split_plain(s: Seq<char>, sep: char)
    requires
        forall|i: int| 0 <= i < s.len() ==> plain_path_char(#[trigger] s[i]),
    ensures
        plain_pieces(split_char(s, sep), sep),
    decreases s.len(),
{
    crate::text::lemma_split_by_pieces_clean(s, crate::text::is_char(sep));
    if s.len() > 0 {
        lemma_split_plain(s.drop_last(), sep);
        crate::text::lemma_split_by_nonempty(s.drop_last(), crate::text::is_char(sep));
        let r = split_char(s.drop_last(), sep);
        let t = split_char(s, sep);
        assert forall|k: int, i: int| 0 <= k < t.len() && 0 <= i < t[k].len() implies plain_path_char(
            #[trigger] t[k][i],
        ) && t[k][i] != sep by {
            assert(!crate::text::is_char(sep)(t[k][i]));
            if s.last() == sep {
                assert(t[k] == r[k]);
            } else if k < r.len() - 1 {
                assert(t[k] == r[k]);
            } else {
                assert(t[k] == r.last().push(s.last()));
                if i < r.last().len() {
                    assert(t[k][i] == r[r.len() - 1][i]);
                } else {
                    assert(t[k][i] == s[s.len() - 1]);
                }
            }
        }
    }
}

proof fn lemma_resolve_clean(ps: Seq<Seq<char>>, sep: char)
    requires
        plain_pieces(ps, sep),
    ensures
        plain_pieces(resolve_parts(ps), sep),
        forall|k: int| 0 <= k < resolve_parts(ps).len() ==> clean_piece(#[trigger] resolve_parts(ps)[k]),
    decreases ps.len(),
{
    if ps.len() > 0 {
        assert(plain_pieces(ps.drop_last(), sep)) by {
            assert forall|k: int, i: int|
                0 <= k < ps.drop_last().len() && 0 <= i < ps.drop_last()[k].len() implies plain_path_char(
                #[trigger] ps.drop_last()[k][i],
            ) && ps.drop_last()[k][i] != sep by {
                assert(ps.drop_last()[k] == ps[k]);
            }
        }
        lemma_resolve_clean(ps.drop_last(), sep);
        let r = resolve_parts(ps.drop_last());
        let t = resolve_parts(ps);
        assert forall|k: int, i: int| 0 <= k < t.len() && 0 <= i < t[k].len() implies plain_path_char(
            #[trigger] t[k][i],
        ) && t[k][i] != sep by {
            if k < r.len() {
                assert(t[k] == r[k]);
            } else {
                assert(t[k] == ps[ps.len() - 1]);
            }
        }
        assert forall|k: int| 0 <= k < t.len() implies clean_piece(#[trigger] t[k]) by {
            if k < r.len() {
                assert(t[k] == r[k]);
            }
        }
    }
}

proof fn lemma_resolve_identity(ps: Seq<Seq<char>>)
    requires
        forall|k: int| 0 <= k < ps.len() ==> clean_piece(#[trigger] ps[k]),
    ensures
        resolve_parts(ps) == ps,
        resolve_parts(seq![Seq::<char>::empty()] + ps) == ps,
    decreases ps.len(),
{
    let q = seq![Seq::<char>::empty()] + ps;
    if ps.len() == 0 {
        assert(q =~= seq![Seq::<char>::empty()]);
        assert(q.drop_last() =~= Seq::<Seq<char>>::empty());
        assert(q.last().len() == 0);
        assert(resolve_parts(q) == resolve_parts(q.drop_last()));
    } else {
        lemma_resolve_identity(ps.drop_last());
        assert(clean_piece(ps[ps.len() - 1]));
        assert(ps.drop_last().push(ps.last()) =~= ps);
        assert(q.drop_last() =~= seq![Seq::<char>::empty()] + ps.drop_last());
        assert(q.last() == ps.last());
        assert(resolve_parts(q) == resolve_parts(q.drop_last()).push(q.last()));
    }
}

proof fn lemma_join_plain(ps: Seq<Seq<char>>, sep: char)
    requires
        plain_pieces(ps, sep),
        plain_path_char(sep),
    ensures
        forall|i: int| 0 <= i < join_parts(ps, sep).len() ==> plain_path_char(#[trigger] join_parts(ps, sep)[i]),
        ps.len() >= 1 && ps[0].len() > 0 ==> join_parts(ps, sep).len() > 0 && join_parts(ps, sep)[0]
            == ps[0][0],
        ps.len() == 0 ==> join_parts(ps, sep).len() == 0,
    decreases ps.len(),
{
    if ps.len() == 1 {
        assert forall|i: int| 0 <= i < join_parts(ps, sep).len() implies plain_path_char(
            #[trigger] join_parts(ps, sep)[i],
        ) by {
            assert(join_parts(ps, sep)[i] == ps[0][i]);
        }
    } else if ps.len() > 1 {
        let d = ps.drop_last();
        assert(plain_pieces(d, sep)) by {
            assert forall|k: int, i: int| 0 <= k < d.len() && 0 <= i < d[k].len() implies plain_path_char(
                #[trigger] d[k][i],
            ) && d[k][i] != sep by {
                assert(d[k] == ps[k]);
            }
        }
        lemma_join_plain(d, sep);
        let j = join_parts(d, sep);
        let whole = join_parts(ps, sep);
        assert(whole == j + seq![sep] + ps.last());
        assert forall|i: int| 0 <= i < whole.len() implies plain_path_char(#[trigger] whole[i]) by {
            if i < j.len() {
                assert(whole[i] == j[i]);
            } else if i == j.len() {
                assert(whole[i] == sep);
            } else {
                assert(whole[i] == ps[ps.len() - 1][i - j.len() - 1]);
            }
        }
        if ps[0].len() > 0 {
            assert(d[0] == ps[0]);
            assert(whole[0] == j[0]);
        }
    }
}

proof fn lemma_split_without_sep(b: Seq<char>, sep: char)
    requires
        forall|i: int| 0 <= i < b.len() ==> b[i] != sep,
    ensures
        split_char(b, sep) == seq![b],
    decreases b.len(),
{
    if b.len() == 0 {
        assert(b =~= Seq::<char>::empty());
    } else {
        lemma_split_without_sep(b.drop_last(), sep);
        assert(b.drop_last().push(b.last()) =~= b);
        assert(split_char(b, sep) =~= seq![b]);
    }
}

proof fn lemma_split_concat(a: Seq<char>, b: Seq<char>, sep: char)
    ensures
        split_char(a + seq![sep] + b, sep) == split_char(a, sep) + split_char(b, sep),
    decreases b.len(),
{
    let s = a + seq![sep] + b;
    if b.len() == 0 {
        assert(s =~= a.push(sep));
        assert(s.drop_last() =~= a);
        assert(split_char(b, sep) =~= seq![Seq::<char>::empty()]);
        assert(split_char(s, sep) =~= split_char(a, sep) + split_char(b, sep));
    } else {
        lemma_split_concat(a, b.drop_last(), sep);
        crate::text::lemma_split_by_nonempty(b.drop_last(), crate::text::is_char(sep));
        assert(s.drop_last() =~= a + seq![sep] + b.drop_last());
        assert(s.last() == b.last());
        let ra = split_char(a, sep);
        let rb = split_char(b.drop_last(), sep);
        if b.last() == sep {
            assert(split_char(s, sep) =~= ra + rb.push(Seq::<char>::empty()));
        } else {
            let r = ra + rb;
            assert(r.last() == rb.last());
            assert(r.update(r.len() - 1, r.last().push(b.last())) =~= ra + rb.update(
                rb.len() - 1,
                rb.last().push(b.last()),
            ));
        }
    }
}

proof fn lemma_split_join(ps: Seq<Seq<char>>, sep: char)
    requires
        ps.len() >= 1,
        forall|k: int, i: int| 0 <= k < ps.len() && 0 <= i < ps[k].len() ==> #[trigger] ps[k][i] != sep,
    ensures
        split_char(join_parts(ps, sep), sep) == ps,
    decreases ps.len(),
{
    if ps.len() == 1 {
        assert forall|i: int| 0 <= i < ps[0].len() implies ps[0][i] != sep by {
            assert(ps[0][i] != sep);
        }
        lemma_split_without_sep(ps[0], sep);
        assert(seq![ps[0]] =~= ps);
    } else {
        let d = ps.drop_last();
        assert forall|k: int, i: int| 0 <= k < d.len() && 0 <= i < d[k].len() implies #[trigger] d[k][i]
            != sep by {
            assert(d[k] == ps[k]);
        }
        lemma_split_join(d, sep);
        let last = ps.last();
        assert forall|i: int| 0 <= i < last.len() implies last[i] != sep by {
            assert(ps[ps.len() - 1][i] != sep);
        }
        lemma_split_without_sep(last, sep);
        lemma_split_concat(join_parts(d, sep), last, sep);
        assert(d + seq![last] =~= ps);
    }
}

/// Off Windows, normalizing a path again gives it back: for a path without
/// whitespace and without `~`, a non-empty normalized path is a fixed point of
/// the normalization. Its pieces between separators (after a leading one) are
/// non-empty and none is `.` or `..`.
pub proof fn law_normalize_path_is_idempotent(value: Seq<char>, home: Option<Seq<char>>)
    requires
        forall|i: int| 0 <= i < value.len() ==> !crate::text::is_ws(#[trigger] value[i]) && value[i]
            != '~',
        normalize_path_spec(value, home, false) is Some,
    ensures
        ({
            let y = normalize_path_spec(value, home, false)->0;
            let pieces = split_char(y, '/');
            &&& y.len() > 0 ==> normalize_path_spec(y, home, false) == Some(y)
            &&& y.len() > 0 && y != seq!['/'] ==> forall|k: int|
                0 <= k < pieces.len() && (k > 0 || y[0] != '/') ==> clean_piece(#[trigger] pieces[k])
        }),
{
    lemma_trim_plain(value);
    let r = replace_char(value, '\\', '/');
    assert forall|i: int| 0 <= i < r.len() implies plain_path_char(#[trigger] r[i]) by {
        assert(r[i] == (if value[i] == '\\' { '/' } else { value[i] }));
    }
    let parts = split_char(r, '/');
    lemma_split_plain(r, '/');
    lemma_resolve_clean(parts, '/');
    let ps = resolve_parts(parts);
    lemma_join_plain(ps, '/');
    let prefix = if r.len() > 0 && r[0] == '/' {
        seq!['/']
    } else {
        Seq::<char>::empty()
    };
    let y = prefix + join_parts(ps, '/');
    assert(normalize_path_spec(value, home, false) == Some(y));
    let pieces = split_char(y, '/');
    if y.len() > 0 {
        assert forall|i: int| 0 <= i < y.len() implies plain_path_char(#[trigger] y[i]) by {
            if prefix.len() > 0 && i == 0 {
                assert(y[i] == '/');
            } else {
                assert(y[i] == join_parts(ps, '/')[i - prefix.len()]);
            }
        }
        lemma_trim_plain(y);
        assert(replace_char(y, '\\', '/') =~= y);
        lemma_resolve_identity(ps);
        assert(forall|k: int, i: int|
            0 <= k < ps.len() && 0 <= i < ps[k].len() ==> #[trigger] ps[k][i] != '/');
        if prefix.len() == 0 {
            assert(y == join_parts(ps, '/'));
            assert(ps.len() >= 1);
            assert(ps[0].len() > 0);
            assert(y[0] == ps[0][0]);
            lemma_split_join(ps, '/');
        } else if ps.len() == 0 {
            assert(y =~= Seq::<char>::empty() + seq!['/'] + Seq::<char>::empty());
            lemma_split_concat(Seq::<char>::empty(), Seq::<char>::empty(), '/');
            assert(split_char(Seq::<char>::empty(), '/') =~= seq![Seq::<char>::empty()]);
            let two = seq![Seq::<char>::empty(), Seq::<char>::empty()];
            assert(pieces =~= two);
            assert(two.drop_last() =~= seq![Seq::<char>::empty()]);
            assert(seq![Seq::<char>::empty()].drop_last() =~= Seq::<Seq<char>>::empty());
            assert(resolve_parts(two) =~= Seq::<Seq<char>>::empty());
            assert(y =~= seq!['/']);
        } else {
            assert(y =~= Seq::<char>::empty() + seq!['/'] + join_parts(ps, '/'));
            lemma_split_concat(Seq::<char>::empty(), join_parts(ps, '/'), '/');
            assert(split_char(Seq::<char>::empty(), '/') =~= seq![Seq::<char>::empty()]);
            lemma_split_join(ps, '/');
            assert(pieces =~= seq![Seq::<char>::empty()] + ps);
            assert forall|k: int| 0 <= k < pieces.len() && k > 0 implies clean_piece(#[trigger] pieces[k]) by {
                assert(pieces[k] == ps[k - 1]);
            }
        }
    }
}

} // verus!

verus! {

/// How writing a repaired state failed.
#[derive(Debug, Clone, Copy, PartialEq, Eq, Structural)]
pub enum WriteFailure {
    /// The new state could not be written.
    Write,
    /// The written state could not be read back.
    ReadBack,
    /// The state read back does not hold the applied assignments.
    Check(RepairError),
}

/// Where writing a repaired state stands.
#[derive(Debug, Clone, Copy, PartialEq, Eq, Structural)]
pub enum WriteStage {
    /// The new state is being written.
    Writing,
    /// The written state is being read back.
    Checking,
    /// The original state is being put back after a failure.
    Restoring(WriteFailure),
    /// The write is over.
    Done,
}

/// What became of the last action.
pub enum WriteEvent {
    Written,
    NotWritten,
    ReadBack(Vec<u8>),
    NotReadBack,
    Restored,
    NotRestored,
}

/// What is done next.
#[derive(Debug, Clone, Copy, PartialEq, Eq, Structural)]
pub enum WriteAction {
    /// Read the written state back.
    ReadBack,
    /// Put the original bytes back.
    Restore,
    /// Stop: the assignments are written and read back.
    Succeed,
    /// Stop after `failure`; `restored` tells whether the original state was
    /// put back.
    Fail { failure: WriteFailure, restored: bool },
}

/// Whether the event answers the action of the stage.
pub open spec fn event_fits(stage: WriteStage, event: WriteEvent) -> bool {
    match stage {
        WriteStage::Writing => event is Written || event is NotWritten,
        WriteStage::Checking => event is ReadBack || event is NotReadBack,
        WriteStage::Restoring(_) => event is Restored || event is NotRestored,
        WriteStage::Done => false,
    }
}

/// The check of a state read back: parsed as JSON and holding the items.
pub open spec fn check_written_spec(bytes: Seq<u8>, items: Seq<(Seq<char>, Seq<char>, Seq<char>)>) -> Result<(), RepairError> {
    match crate::codec::json_bytes_parse(bytes) {
        None => Err(RepairError::NotJson),
        Some(s) => verify_spec(s, items),
    }
}

/// One step of writing a repaired state: the new state is written, then read
/// back and checked; after a failure to write, or a failed check, the
/// original bytes are put back and the failure reported.
pub open spec fn write_step_spec(
    stage: WriteStage,
    event: WriteEvent,
    items: Seq<(Seq<char>, Seq<char>, Seq<char>)>,
) -> (WriteStage, WriteAction) {
    match stage {
        WriteStage::Writing => if event is Written {
            (WriteStage::Checking, WriteAction::ReadBack)
        } else {
            (WriteStage::Restoring(WriteFailure::Write), WriteAction::Restore)
        },
        WriteStage::Checking => match event {
            WriteEvent::ReadBack(b) => match check_written_spec(b@, items) {
                Ok(()) => (WriteStage::Done, WriteAction::Succeed),
                Err(e) => (WriteStage::Restoring(WriteFailure::Check(e)), WriteAction::Restore),
            },
            _ => (WriteStage::Restoring(WriteFailure::ReadBack), WriteAction::Restore),
        },
        WriteStage::Restoring(f) => (WriteStage::Done, WriteAction::Fail { failure: f, restored: event is Restored }),
        WriteStage::Done => (WriteStage::Done, WriteAction::Succeed),
    }
}

/// The bytes written for a repaired state: its pretty-printed JSON.
pub fn repaired_state_bytes(new_state: &Json) -> (r: Option<Vec<u8>>)
    ensures
        match r {
            Some(b) => crate::codec::json_pretty_bytes(new_state@) == Some(b@),
            None => crate::codec::json_pretty_bytes(new_state@) is None,
        },
{
    crate::codec::json_to_vec_pretty(new_state)
}

/// Checks a state read back after writing: it parses as JSON and holds the
/// applied assignments.
pub fn check_written_state(bytes: &[u8], applied: &Vec<PlannedAssignment>) -> (r: Result<(), RepairError>)
    ensures
        r == check_written_spec(bytes@, planned_views(applied@)),
{
    match crate::codec::parse_json_bytes(bytes) {
        None => Err(RepairError::NotJson),
        Some(s) => verify_assignments(&s, applied),
    }
}

/// The next stage of writing a repaired state, and what is done next, given
/// what became of the last action (see [`write_step_spec`]).
pub fn write_step(stage: WriteStage, event: WriteEvent, applied: &Vec<PlannedAssignment>) -> (r: (
    WriteStage,
    WriteAction,
))
    requires
        event_fits(stage, event),
    ensures
        r == write_step_spec(stage, event, planned_views(applied@)),
{
    match stage {
        WriteStage::Writing => match event {
            WriteEvent::Written => (WriteStage::Checking, WriteAction::ReadBack),
            _ => (WriteStage::Restoring(WriteFailure::Write), WriteAction::Restore),
        },
        WriteStage::Checking => match event {
            WriteEvent::ReadBack(b) => match check_written_state(b.as_slice(), applied) {
                Ok(()) => (WriteStage::Done, WriteAction::Succeed),
                Err(e) => (WriteStage::Restoring(WriteFailure::Check(e)), WriteAction::Restore),
            },
            _ => (WriteStage::Restoring(WriteFailure::ReadBack), WriteAction::Restore),
        },
        WriteStage::Restoring(f) => {
            let restored = match event {
                WriteEvent::Restored => true,
                _ => false,
            };
            (WriteStage::Done, WriteAction::Fail { failure: f, restored })
        },
        WriteStage::Done => (WriteStage::Done, WriteAction::Succeed),
    }
}

/// Writing a repaired state succeeds only when the state read back parses
/// and holds the applied assignments; a failure is reported only from the
/// restore stage, after putting the original bytes back was tried; and a
/// failed write or check always leads to that restore.
pub proof fn law_write_succeeds_only_after_check(
    stage: WriteStage,
    event: WriteEvent,
    items: Seq<(Seq<char>, Seq<char>, Seq<char>)>,
)
    requires
        event_fits(stage, event),
    ensures
        write_step_spec(stage, event, items).1 is Succeed ==> stage is Checking && (event matches WriteEvent::ReadBack(b)
            && check_written_spec(b@, items) is Ok),
        write_step_spec(stage, event, items).1 is Fail ==> stage is Restoring,
        stage is Writing && event is NotWritten ==> write_step_spec(stage, event, items).1 is Restore,
        stage is Checking && !(write_step_spec(stage, event, items).1 is Succeed) ==> write_step_spec(
            stage,
            event,
            items,
        ).1 is Restore,
{
}

} // verus!
