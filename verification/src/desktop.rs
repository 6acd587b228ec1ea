//! Linux desktop entries for the launcher and the manager.

use vstd::prelude::*;
use vstd::string::StringExecFns;
use crate::text::{
    chars_of, is_char, is_whitespace_char, is_ws, lemma_split_by_nonempty, split_char,
    split_char_vec, vec_eq_str, vviews,
};

verus! {

/// Desktop file ids match those of the distribution packages, so that one
/// application never shows two entries.
pub const SILENT_DESKTOP_FILE: &'static str = "codex-plus-plus.desktop";

pub const MANAGER_DESKTOP_FILE: &'static str = "codex-plus-plus-manager.desktop";

/// A desktop entry file and its contents.
#[derive(Debug, Clone, PartialEq, Eq)]
pub struct LinuxDesktopEntry {
    pub file_path: String,
    pub contents: String,
}

/// What a desktop entry launches: the display name, the executable and the icon.
#[derive(Debug, Clone, PartialEq, Eq)]
pub struct DesktopEntryTarget {
    pub name: String,
    pub executable: String,
    pub icon: String,
}

/// `Path::join` of a relative name onto `root`.
pub open spec fn join_path(root: Seq<char>, file: Seq<char>) -> Seq<char> {
    if root.len() == 0 {
        file
    } else if root.last() == '/' {
        root + file
    } else {
        root + seq!['/'] + file
    }
}

pub fn join_path_exec(root: &str, file: &str) -> (r: String)
    ensures
        r@ == join_path(root@, file@),
{
    let rv = chars_of(root);
    let mut s = root.to_owned();
    if rv.len() == 0 {
        return file.to_owned();
    }
    if rv[rv.len() - 1] != '/' {
        s.append("/");
        proof {
            reveal_strlit("/");
        }
    }
    s.append(file);
    s
}

/// The `Exec=` value: a path holding whitespace is wrapped in double quotes.
pub open spec fn desktop_entry_exec_spec(path: Seq<char>) -> Seq<char> {
    if exists|i: int| 0 <= i < path.len() && is_ws(#[trigger] path[i]) {
        seq!['"'] + path + seq!['"']
    } else {
        path
    }
}

fn desktop_entry_exec(path: &str) -> (r: String)
    ensures
        r@ == desktop_entry_exec_spec(path@),
{
    let v = chars_of(path);
    let mut i: usize = 0;
    while i < v.len()
        invariant
            v@ == path@,
            i <= v@.len(),
            forall|k: int| 0 <= k < i ==> !is_ws(#[trigger] path@[k]),
        decreases v.len() - i,
    {
        if is_whitespace_char(v[i]) {
            let mut s = String::new();
            s.append("\"");
            s.append(path);
            s.append("\"");
            proof {
                reveal_strlit("\"");
                assert(is_ws(path@[i as int]));
                assert(s@ =~= seq!['"'] + path@ + seq!['"']);
            }
            return s;
        }
        i = i + 1;
    }
    path.to_owned()
}

/// The contents of a desktop entry file.
pub open spec fn desktop_entry_spec(
    name: Seq<char>,
    generic: Seq<char>,
    comment: Seq<char>,
    program: Seq<char>,
    icon: Seq<char>,
    categories: Seq<char>,
) -> Seq<char> {
    "[Desktop Entry]\nType=Application\nVersion=1.0\nName="@ + name + "\nGenericName="@ + generic
        + "\nComment="@ + comment + "\nExec="@ + desktop_entry_exec_spec(program) + "\nIcon="@ + icon
        + "\nTerminal=false\nCategories="@ + categories + "\nKeywords=codex;ai;\nStartupNotify=true\n"@
}

fn desktop_entry(
    name: &str,
    generic: &str,
    comment: &str,
    program: &str,
    icon: &str,
    categories: &str,
) -> (r: String)
    ensures
        r@ == desktop_entry_spec(name@, generic@, comment@, program@, icon@, categories@),
{
    let mut s = String::new();
    s.append("[Desktop Entry]\nType=Application\nVersion=1.0\nName=");
    s.append(name);
    s.append("\nGenericName=");
    s.append(generic);
    s.append("\nComment=");
    s.append(comment);
    s.append("\nExec=");
    let e = desktop_entry_exec(program);
    s.append(e.as_str());
    s.append("\nIcon=");
    s.append(icon);
    s.append("\nTerminal=false\nCategories=");
    s.append(categories);
    s.append("\nKeywords=codex;ai;\nStartupNotify=true\n");
    s
}

pub open spec fn launcher_entry_spec(root: Seq<char>, t: DesktopEntryTarget) -> (Seq<char>, Seq<char>) {
    (
        join_path(root, SILENT_DESKTOP_FILE@),
        desktop_entry_spec(
            t.name@,
            "Codex Launcher"@,
            "Launch Codex with Codex++ enhancements"@,
            t.executable@,
            t.icon@,
            "Development;IDE;"@,
        ),
    )
}

pub open spec fn manager_entry_spec(root: Seq<char>, t: DesktopEntryTarget) -> (Seq<char>, Seq<char>) {
    (
        join_path(root, MANAGER_DESKTOP_FILE@),
        desktop_entry_spec(
            t.name@,
            "Codex++ Manager"@,
            "Manage Codex++ enhancements, providers and user scripts"@,
            t.executable@,
            t.icon@,
            "Development;Settings;"@,
        ),
    )
}

/// The launcher's and the manager's desktop entries under `install_root`.
pub fn build_desktop_entries(
    install_root: &str,
    launcher: &DesktopEntryTarget,
    manager: &DesktopEntryTarget,
) -> (r: Vec<LinuxDesktopEntry>)
    ensures
        r@.len() == 2,
        (r@[0].file_path@, r@[0].contents@) == launcher_entry_spec(install_root@, *launcher),
        (r@[1].file_path@, r@[1].contents@) == manager_entry_spec(install_root@, *manager),
{
    let first = LinuxDesktopEntry {
        file_path: join_path_exec(install_root, SILENT_DESKTOP_FILE),
        contents: desktop_entry(
            launcher.name.as_str(),
            "Codex Launcher",
            "Launch Codex with Codex++ enhancements",
            launcher.executable.as_str(),
            launcher.icon.as_str(),
            "Development;IDE;",
        ),
    };
    let second = LinuxDesktopEntry {
        file_path: join_path_exec(install_root, MANAGER_DESKTOP_FILE),
        contents: desktop_entry(
            manager.name.as_str(),
            "Codex++ Manager",
            "Manage Codex++ enhancements, providers and user scripts",
            manager.executable.as_str(),
            manager.icon.as_str(),
            "Development;Settings;",
        ),
    };
    let mut v: Vec<LinuxDesktopEntry> = Vec::new();
    v.push(first);
    v.push(second);
    v
}

} // verus!

verus! {

/// System-wide applications directories, where distribution packages install
/// their entries; they are only looked at, never written.
pub const SYSTEM_APPLICATIONS_DIR_LOCAL: &'static str = "/usr/local/share/applications";

pub const SYSTEM_APPLICATIONS_DIR: &'static str = "/usr/share/applications";

/// The pieces of a path that `Path::components` keeps: empty pieces and `.`
/// pieces after the first are dropped.
pub open spec fn kept_pieces(ps: Seq<Seq<char>>) -> Seq<Seq<char>>
    decreases ps.len(),
{
    if ps.len() == 0 {
        Seq::empty()
    } else {
        let r = kept_pieces(ps.drop_last());
        if ps.last().len() > 0 && ps.last() != seq!['.'] {
            r.push(ps.last())
        } else {
            r
        }
    }
}

/// `Path::components` on Unix: a root `/` or a leading `.`, then the normal
/// and `..` pieces between separators.
pub open spec fn path_components(p: Seq<char>) -> Seq<Seq<char>> {
    let ps = split_char(p, '/');
    let lead: Seq<Seq<char>> = if p.len() > 0 && p[0] == '/' {
        seq![seq!['/']]
    } else if ps[0] == seq!['.'] {
        seq![seq!['.']]
    } else {
        Seq::empty()
    };
    lead + kept_pieces(ps)
}

fn path_components_exec(p: &str) -> (r: Vec<Vec<char>>)
    ensures
        vviews(r@) == path_components(p@),
{
    let v = chars_of(p);
    let pieces = split_char_vec(&v, '/');
    proof {
        lemma_split_by_nonempty(v@, is_char('/'));
    }
    let ghost ps = split_char(p@, '/');
    let ghost spec_lead: Seq<Seq<char>> = if p@.len() > 0 && p@[0] == '/' {
        seq![seq!['/']]
    } else if ps[0] == seq!['.'] {
        seq![seq!['.']]
    } else {
        Seq::empty()
    };
    assert(path_components(p@) == spec_lead + kept_pieces(ps));
    proof {
        reveal_strlit(".");
        assert("."@ =~= seq!['.']);
    }
    assert(pieces@[0]@ == ps[0]);
    let mut out: Vec<Vec<char>> = Vec::new();
    if v.len() > 0 && v[0] == '/' {
        let mut root: Vec<char> = Vec::new();
        root.push('/');
        out.push(root);
        assert(vviews(out@) =~= spec_lead);
    } else if vec_eq_str(&pieces[0], ".") {
        let mut dot: Vec<char> = Vec::new();
        dot.push('.');
        out.push(dot);
        assert(vviews(out@) =~= spec_lead);
    } else {
        assert(vviews(out@) =~= spec_lead);
    }
    let ghost lead = spec_lead;
    let mut i: usize = 0;
    assert(ps.subrange(0, 0) =~= Seq::<Seq<char>>::empty());
    assert(vviews(out@) =~= lead + kept_pieces(ps.subrange(0, 0)));
    while i < pieces.len()
        invariant
            vviews(pieces@) == ps,
            ps == split_char(p@, '/'),
            i <= pieces@.len(),
            vviews(out@) == lead + kept_pieces(ps.subrange(0, i as int)),
            path_components(p@) == lead + kept_pieces(ps),
            "."@ == seq!['.'],
        decreases pieces.len() - i,
    {
        let piece = &pieces[i];
        let ghost sub = ps.subrange(0, i + 1);
        assert(sub.drop_last() == ps.subrange(0, i as int));
        assert(sub.last() == piece@);
        if piece.len() > 0 && !vec_eq_str(piece, ".") {
            let copy = crate::text::subvec(piece, 0, piece.len());
            assert(piece@.subrange(0, piece@.len() as int) == piece@);
            assert(piece@ != seq!['.']);
            assert(kept_pieces(sub) == kept_pieces(ps.subrange(0, i as int)).push(piece@));
            let ghost before = vviews(out@);
            out.push(copy);
            assert(vviews(out@) =~= before.push(piece@));
            assert(vviews(out@) =~= lead + kept_pieces(sub));
        } else {
            assert(piece@ == seq!['.'] || piece@.len() == 0);
        }
        i = i + 1;
    }
    assert(ps.subrange(0, pieces@.len() as int) == ps);
    out
}

/// Whether two paths have the same components (`PathBuf` equality).
pub fn same_path(a: &str, b: &str) -> (r: bool)
    ensures
        r == (path_components(a@) == path_components(b@)),
{
    let ca = path_components_exec(a);
    let cb = path_components_exec(b);
    let ghost va = vviews(ca@);
    let ghost vb = vviews(cb@);
    if ca.len() != cb.len() {
        assert(va.len() != vb.len());
        return false;
    }
    let mut i: usize = 0;
    while i < ca.len()
        invariant
            va == vviews(ca@),
            vb == vviews(cb@),
            va == path_components(a@),
            vb == path_components(b@),
            ca@.len() == cb@.len(),
            i <= ca@.len(),
            forall|k: int| 0 <= k < i ==> va[k] == vb[k],
        decreases ca.len() - i,
    {
        let x = &ca[i];
        let y = &cb[i];
        assert(x@ == va[i as int]);
        assert(y@ == vb[i as int]);
        if x.len() != y.len() {
            assert(va[i as int] != vb[i as int]);
            assert(va != vb);
            return false;
        }
        let mut j: usize = 0;
        while j < x.len()
            invariant
                x@.len() == y@.len(),
                j <= x@.len(),
                forall|k: int| 0 <= k < j ==> x@[k] == y@[k],
                x@ == va[i as int],
                y@ == vb[i as int],
                va == path_components(a@),
                vb == path_components(b@),
                0 <= i < va.len(),
                i < vb.len(),
            decreases x.len() - j,
        {
            if x[j] != y[j] {
                assert(va[i as int][j as int] != vb[i as int][j as int]);
                assert(va != vb);
                return false;
            }
            j = j + 1;
        }
        assert(x@ =~= y@);
        i = i + 1;
    }
    assert(va =~= vb);
    true
}

/// Appends `c` unless a path with the same components is already listed.
pub open spec fn push_unique_path(cs: Seq<Seq<char>>, c: Seq<char>) -> Seq<Seq<char>> {
    if exists|i: int| 0 <= i < cs.len() && path_components(#[trigger] cs[i]) == path_components(c) {
        cs
    } else {
        cs.push(c)
    }
}

pub open spec fn desktop_file(manager: bool) -> Seq<char> {
    if manager {
        MANAGER_DESKTOP_FILE@
    } else {
        SILENT_DESKTOP_FILE@
    }
}

pub open spec fn desktop_entry_candidates_spec(root: Option<Seq<char>>, manager: bool) -> Seq<Seq<char>> {
    let file = desktop_file(manager);
    let first = match root {
        Some(r) => seq![join_path(r, file)],
        None => Seq::empty(),
    };
    push_unique_path(
        push_unique_path(first, join_path(SYSTEM_APPLICATIONS_DIR_LOCAL@, file)),
        join_path(SYSTEM_APPLICATIONS_DIR@, file),
    )
}

pub open spec fn string_views(v: Seq<String>) -> Seq<Seq<char>> {
    Seq::new(v.len(), |i: int| v[i]@)
}

fn push_unique_path_exec(cs: &mut Vec<String>, c: String)
    ensures
        string_views(final(cs)@) == push_unique_path(string_views(old(cs)@), c@),
{
    let ghost sv = string_views(cs@);
    let mut i: usize = 0;
    while i < cs.len()
        invariant
            sv == string_views(cs@),
            i <= cs@.len(),
            forall|k: int| 0 <= k < i ==> path_components(#[trigger] sv[k]) != path_components(c@),
        decreases cs.len() - i,
    {
        if same_path(cs[i].as_str(), c.as_str()) {
            assert(path_components(sv[i as int]) == path_components(c@));
            return;
        }
        i = i + 1;
    }
    cs.push(c);
    assert(string_views(cs@) =~= sv.push(c@));
}

/// Where a desktop entry may be found: under the user's install root first
/// (where this program writes), then the system applications directories
/// (where distribution packages install), without repeating a path.
pub fn desktop_entry_candidates(root: Option<&str>, manager: bool) -> (r: Vec<String>)
    ensures
        string_views(r@) == desktop_entry_candidates_spec(
            match root {
                Some(s) => Some(s@),
                None => None,
            },
            manager,
        ),
{
    let file = if manager {
        MANAGER_DESKTOP_FILE
    } else {
        SILENT_DESKTOP_FILE
    };
    let mut candidates: Vec<String> = Vec::new();
    match root {
        Some(r) => {
            candidates.push(join_path_exec(r, file));
        },
        None => {},
    }
    proof {
        let ghost first = match root {
            Some(r) => seq![join_path(r@, file@)],
            None => Seq::<Seq<char>>::empty(),
        };
        assert(string_views(candidates@) =~= first);
    }
    push_unique_path_exec(&mut candidates, join_path_exec(SYSTEM_APPLICATIONS_DIR_LOCAL, file));
    push_unique_path_exec(&mut candidates, join_path_exec(SYSTEM_APPLICATIONS_DIR, file));
    candidates
}

} // verus!

verus! {

/// No two of the paths have the same components.
pub open spec fn distinct_paths(cs: Seq<Seq<char>>) -> bool {
    forall|i: int, j: int|
        0 <= i < j < cs.len() ==> path_components(#[trigger] cs[i]) != path_components(#[trigger] cs[j])
}

proof fn lemma_push_unique_path(cs: Seq<Seq<char>>, c: Seq<char>)
    requires
        distinct_paths(cs),
    ensures
        distinct_paths(push_unique_path(cs, c)),
        push_unique_path(cs, c).len() >= cs.len(),
        forall|i: int| 0 <= i < cs.len() ==> push_unique_path(cs, c)[i] == cs[i],
{
    let r = push_unique_path(cs, c);
    if r != cs {
        assert forall|i: int, j: int| 0 <= i < j < r.len() implies path_components(#[trigger] r[i])
            != path_components(#[trigger] r[j]) by {
            if j == cs.len() {
                assert(r[i] == cs[i]);
            } else {
                assert(r[i] == cs[i] && r[j] == cs[j]);
            }
        }
    }
}

/// The places where a desktop entry is looked for name distinct paths, and
/// the install root, when there is one, comes first.
pub proof fn law_candidates_distinct_root_first(root: Option<Seq<char>>, manager: bool)
    ensures
        distinct_paths(desktop_entry_candidates_spec(root, manager)),
        root is Some ==> desktop_entry_candidates_spec(root, manager)[0] == join_path(
            root->0,
            desktop_file(manager),
        ),
{
    let file = desktop_file(manager);
    let first = match root {
        Some(r) => seq![join_path(r, file)],
        None => Seq::<Seq<char>>::empty(),
    };
    let second = push_unique_path(first, join_path(SYSTEM_APPLICATIONS_DIR_LOCAL@, file));
    lemma_push_unique_path(first, join_path(SYSTEM_APPLICATIONS_DIR_LOCAL@, file));
    lemma_push_unique_path(second, join_path(SYSTEM_APPLICATIONS_DIR@, file));
}

} // verus!
