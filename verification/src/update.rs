//! Release selection and version ordering for the self-updater.

use vstd::prelude::*;
use crate::json::{as_array, get, get_str, views, Json, JsonValue};
use crate::text::{
    trimmed, is_ascii_ws, lemma_split_by_nonempty, split_ascii_ws_vec, split_by, strip_quotes,
    strip_quotes_vec, text_lines, text_lines_vec, trim_vec, vec_eq_str, chars_of,
    contains, occurs_at, ends, ends_with, has, is_blank, is_blank_str, lower, lower_vec, surround,
    contains_vec, decimal, decimal_text, drop_while, find_from_vec, first_occurrence, is_digit,
    lemma_drop_take_while, lemma_find_at_or_after, lemma_split_by_step, parse_u64_digits, split_char, split_char_vec,
    subvec, take_while, trim, trim_range_vec, valid_u64_digits, vviews,
};

verus! {

pub const DEFAULT_UPDATE_REPOSITORY: &'static str = "zcj123v/CodexPlusPlus";

pub const DEFAULT_LATEST_JSON_URL: &'static str =
    "https://github.com/zcj123v/CodexPlusPlus/releases/latest/download/latest.json";

pub const DEFAULT_REPOSITORY: &'static str = DEFAULT_UPDATE_REPOSITORY;

/// Why a version tag could not be read.
#[derive(Debug, Clone, Copy, PartialEq, Eq)]
pub enum VersionError {
    /// No leading run of digits and dots after the optional `v` prefix.
    InvalidTag,
    /// A dot-separated segment is empty or does not fit in a `u64`.
    InvalidNumber,
}

pub open spec fn is_v(c: char) -> bool {
    c == 'v' || c == 'V'
}

pub open spec fn v_pred() -> spec_fn(char) -> bool {
    |c: char| is_v(c)
}

pub open spec fn is_version_char(c: char) -> bool {
    is_digit(c) || c == '.'
}

pub open spec fn version_char_pred() -> spec_fn(char) -> bool {
    |c: char| is_version_char(c)
}

/// The tag with surrounding whitespace and every leading `v`/`V` removed.
pub open spec fn normalized_tag(value: Seq<char>) -> Seq<char> {
    drop_while(trim(value), v_pred())
}

/// The leading run of digits and dots of the normalized tag.
pub open spec fn version_digits(value: Seq<char>) -> Seq<char> {
    take_while(normalized_tag(value), version_char_pred())
}

/// The numeric segments of a version tag.
pub open spec fn parse_version_spec(value: Seq<char>) -> Result<Seq<u64>, VersionError> {
    let d = version_digits(value);
    if d.len() == 0 {
        Err(VersionError::InvalidTag)
    } else {
        let ps = split_char(d, '.');
        if forall|i: int| 0 <= i < ps.len() ==> valid_u64_digits(#[trigger] ps[i]) {
            Ok(Seq::new(ps.len(), |i: int| decimal(ps[i]) as u64))
        } else {
            Err(VersionError::InvalidNumber)
        }
    }
}

/// Reads the numeric segments of a version tag such as `v1.2.3-beta.1`:
/// whitespace and leading `v`/`V` are skipped, and the leading run of digits and
/// dots is split at the dots.
pub fn parse_version_tag(value: &str) -> (r: Result<Vec<u64>, VersionError>)
    ensures
        match r {
            Ok(v) => parse_version_spec(value@) == Ok::<Seq<u64>, VersionError>(v@),
            Err(e) => parse_version_spec(value@) == Err::<Seq<u64>, VersionError>(e),
        },
{
    let v = chars_of(value);
    let (a, b) = trim_range_vec(&v);
    let ghost t = v@.subrange(a as int, b as int);
    let mut i = a;
    while i < b && (v[i] == 'v' || v[i] == 'V')
        invariant
            a <= i <= b <= v@.len(),
            forall|k: int| a <= k < i ==> is_v(v@[k]),
        decreases b - i,
    {
        i = i + 1;
    }
    proof {
        assert forall|k: int| 0 <= k < i - a implies v_pred()(t[k]) by {
            assert(t[k] == v@[a + k]);
        }
        if i < b {
            assert(t[i - a] == v@[i as int]);
        }
        lemma_drop_take_while(t, v_pred(), i - a);
        assert(t.subrange(i - a, t.len() as int) == v@.subrange(i as int, b as int));
    }
    let mut j = i;
    while j < b && (('0' <= v[j] && v[j] <= '9') || v[j] == '.')
        invariant
            i <= j <= b <= v@.len(),
            forall|k: int| i <= k < j ==> is_version_char(v@[k]),
        decreases b - j,
    {
        j = j + 1;
    }
    let ghost n = v@.subrange(i as int, b as int);
    proof {
        assert(normalized_tag(value@) == n);
        assert forall|k: int| 0 <= k < j - i implies version_char_pred()(n[k]) by {
            assert(n[k] == v@[i + k]);
        }
        if j < b {
            assert(n[j - i] == v@[j as int]);
        }
        lemma_drop_take_while(n, version_char_pred(), j - i);
        assert(n.subrange(0, j - i) == v@.subrange(i as int, j as int));
    }
    let d = subvec(&v, i, j);
    assert(d@ == version_digits(value@));
    if d.len() == 0 {
        return Err(VersionError::InvalidTag);
    }
    let parts = split_char_vec(&d, '.');
    let ghost ps = split_char(d@, '.');
    let mut out: Vec<u64> = Vec::new();
    let mut k: usize = 0;
    while k < parts.len()
        invariant
            vviews(parts@) == ps,
            ps == split_char(d@, '.'),
            d@ == version_digits(value@),
            d@.len() > 0,
            k <= parts@.len(),
            out@.len() == k,
            forall|m: int| 0 <= m < k ==> valid_u64_digits(#[trigger] ps[m]) && out@[m] == decimal(
                ps[m],
            ),
        decreases parts.len() - k,
    {
        let piece = &parts[k];
        assert(piece@ == ps[k as int]);
        assert(piece@.subrange(0, piece@.len() as int) == piece@);
        match parse_u64_digits(piece, 0, piece.len()) {
            Some(x) => {
                out.push(x);
            },
            None => {
                assert(!valid_u64_digits(ps[k as int]));
                return Err(VersionError::InvalidNumber);
            },
        }
        k = k + 1;
    }
    assert(out@ =~= Seq::new(ps.len(), |m: int| decimal(ps[m]) as u64));
    Ok(out)
}

/// Revision number of a fork build tag such as `1.2.42-linux.3`.
pub open spec fn linux_revision_spec(value: Seq<char>) -> Option<u64> {
    let n = normalized_tag(value);
    match first_occurrence(n, "-linux."@) {
        Some(i) => {
            let suffix = n.subrange(i + "-linux."@.len(), n.len() as int);
            if valid_u64_digits(suffix) {
                Some(decimal(suffix) as u64)
            } else {
                None
            }
        },
        None => None,
    }
}

/// The digits after the first `-linux.` of the normalized tag, when they form a
/// non-empty number that fits in a `u64`.
fn linux_revision(value: &str) -> (r: Option<u64>)
    ensures
        r == linux_revision_spec(value@),
{
    let v = chars_of(value);
    let (a, b) = trim_range_vec(&v);
    let ghost t = v@.subrange(a as int, b as int);
    let mut i = a;
    while i < b && (v[i] == 'v' || v[i] == 'V')
        invariant
            a <= i <= b <= v@.len(),
            forall|k: int| a <= k < i ==> is_v(v@[k]),
        decreases b - i,
    {
        i = i + 1;
    }
    proof {
        assert forall|k: int| 0 <= k < i - a implies v_pred()(t[k]) by {
            assert(t[k] == v@[a + k]);
        }
        if i < b {
            assert(t[i - a] == v@[i as int]);
        }
        lemma_drop_take_while(t, v_pred(), i - a);
        assert(t.subrange(i - a, t.len() as int) == v@.subrange(i as int, b as int));
    }
    let n = subvec(&v, i, b);
    assert(n@ == normalized_tag(value@));
    let pat = chars_of("-linux.");
    let found = find_from_vec(&n, &pat, 0);
    proof {
        lemma_find_at_or_after(n@, pat@, 0, match found {
            Some(k) => Some(k as int),
            None => None,
        });
    }
    match found {
        Some(k) => parse_u64_digits(&n, k + pat.len(), n.len()),
        None => None,
    }
}

/// The `i`-th numeric segment, with missing segments read as zero.
pub open spec fn component(v: Seq<u64>, i: int) -> int {
    if 0 <= i < v.len() {
        v[i] as int
    } else {
        0
    }
}

/// `a` and `b` agree on every segment below `k`.
pub open spec fn same_below(a: Seq<u64>, b: Seq<u64>, k: int) -> bool {
    forall|j: int| 0 <= j < k ==> component(a, j) == component(b, j)
}

/// `a` sorts before `b` when both are padded with zero segments.
pub open spec fn version_lt(a: Seq<u64>, b: Seq<u64>) -> bool {
    exists|k: int| 0 <= k && #[trigger] same_below(a, b, k) && component(a, k) < component(b, k)
}

/// `a` and `b` are the same version once padded with zero segments.
pub open spec fn version_eq(a: Seq<u64>, b: Seq<u64>) -> bool {
    forall|j: int| 0 <= j ==> component(a, j) == component(b, j)
}

pub open spec fn revision(value: Seq<char>) -> int {
    match linux_revision_spec(value) {
        Some(n) => n as int,
        None => 0,
    }
}

/// `candidate` is newer than `current`: its padded numeric segments sort
/// higher, or they are equal and its fork revision is higher.
pub open spec fn is_newer_spec(candidate: Seq<char>, current: Seq<char>) -> Result<bool, VersionError> {
    match parse_version_spec(candidate) {
        Err(e) => Err(e),
        Ok(l) => match parse_version_spec(current) {
            Err(e) => Err(e),
            Ok(r) => Ok(version_lt(r, l) || (version_eq(l, r) && revision(candidate) > revision(
                current,
            ))),
        },
    }
}

pub proof fn lemma_version_lt_antisym(a: Seq<u64>, b: Seq<u64>)
    ensures
        !(version_lt(a, b) && version_lt(b, a)),
        version_lt(a, b) ==> !version_eq(a, b),
{
    if version_lt(a, b) {
        let k1 = choose|k: int| 0 <= k && #[trigger] same_below(a, b, k) && component(a, k) < component(b, k);
        if version_lt(b, a) {
            let k2 = choose|k: int| 0 <= k && #[trigger] same_below(b, a, k) && component(b, k) < component(a, k);
            if k1 < k2 {
                assert(component(b, k1) == component(a, k1));
            } else if k2 < k1 {
                assert(component(a, k2) == component(b, k2));
            }
        }
        assert(component(a, k1) != component(b, k1));
    }
}

/// Whether the release tag `candidate` is newer than `current`.
pub fn is_newer_version(candidate: &str, current: &str) -> (r: Result<bool, VersionError>)
    ensures
        match r {
            Ok(b) => is_newer_spec(candidate@, current@) == Ok::<bool, VersionError>(b),
            Err(e) => is_newer_spec(candidate@, current@) == Err::<bool, VersionError>(e),
        },
{
    let left = match parse_version_tag(candidate) {
        Ok(v) => v,
        Err(e) => return Err(e),
    };
    let right = match parse_version_tag(current) {
        Ok(v) => v,
        Err(e) => return Err(e),
    };
    let n = if left.len() > right.len() {
        left.len()
    } else {
        right.len()
    };
    let mut k: usize = 0;
    while k < n
        invariant
            parse_version_spec(candidate@) == Ok::<Seq<u64>, VersionError>(left@),
            parse_version_spec(current@) == Ok::<Seq<u64>, VersionError>(right@),
            n >= left@.len(),
            n >= right@.len(),
            k <= n,
            same_below(left@, right@, k as int),
        decreases n - k,
    {
        let l: u64 = if k < left.len() {
            left[k]
        } else {
            0
        };
        let r: u64 = if k < right.len() {
            right[k]
        } else {
            0
        };
        assert(l == component(left@, k as int));
        assert(r == component(right@, k as int));
        if l != r {
            proof {
                lemma_version_lt_antisym(left@, right@);
                if l > r {
                    assert(same_below(right@, left@, k as int));
                    assert(version_lt(right@, left@));
                } else {
                    assert(same_below(left@, right@, k as int));
                    assert(version_lt(left@, right@));
                    assert(!version_lt(right@, left@));
                    assert(!version_eq(left@, right@));
                }
                assert(parse_version_spec(candidate@) == Ok::<Seq<u64>, VersionError>(left@));
                assert(parse_version_spec(current@) == Ok::<Seq<u64>, VersionError>(right@));
            }
            return Ok(l > r);
        }
        k = k + 1;
    }
    proof {
        assert forall|j: int| 0 <= j implies component(left@, j) == component(right@, j) by {
            if j >= n {
            } else {
                assert(same_below(left@, right@, k as int));
            }
        }
        lemma_version_lt_antisym(right@, left@);
    }
    let rc = linux_revision(candidate);
    let rr = linux_revision(current);
    let a: u64 = match rc {
        Some(x) => x,
        None => 0,
    };
    let b: u64 = match rr {
        Some(x) => x,
        None => 0,
    };
    Ok(a > b)
}

} // verus!

verus! {

proof fn lemma_version_lt_trans(a: Seq<u64>, b: Seq<u64>, c: Seq<u64>)
    requires
        version_lt(a, b),
        version_lt(b, c),
    ensures
        version_lt(a, c),
{
    let k1 = choose|k: int| 0 <= k && #[trigger] same_below(a, b, k) && component(a, k) < component(b, k);
    let k2 = choose|k: int| 0 <= k && #[trigger] same_below(b, c, k) && component(b, k) < component(c, k);
    let k = if k1 < k2 { k1 } else { k2 };
    assert(same_below(a, c, k));
}

proof fn lemma_version_lt_eq(a: Seq<u64>, b: Seq<u64>, c: Seq<u64>)
    ensures
        version_lt(a, b) && version_eq(b, c) ==> version_lt(a, c),
        version_eq(a, b) && version_lt(b, c) ==> version_lt(a, c),
{
    if version_lt(a, b) && version_eq(b, c) {
        let k = choose|k: int| 0 <= k && #[trigger] same_below(a, b, k) && component(a, k) < component(b, k);
        assert(component(b, k) == component(c, k));
        assert(same_below(a, c, k));
    }
    if version_eq(a, b) && version_lt(b, c) {
        let k = choose|k: int| 0 <= k && #[trigger] same_below(b, c, k) && component(b, k) < component(c, k);
        assert(component(a, k) == component(b, k));
        assert(same_below(a, c, k));
    }
}

/// No version tag is newer than itself.
pub proof fn law_is_newer_irreflexive(a: Seq<char>)
    requires
        parse_version_spec(a) is Ok,
    ensures
        is_newer_spec(a, a) == Ok::<bool, VersionError>(false),
{
    let v = parse_version_spec(a)->Ok_0;
    lemma_version_lt_antisym(v, v);
}

/// If `a` is newer than `b`, then `b` is not newer than `a`.
pub proof fn law_is_newer_asymmetric(a: Seq<char>, b: Seq<char>)
    requires
        is_newer_spec(a, b) == Ok::<bool, VersionError>(true),
    ensures
        is_newer_spec(b, a) == Ok::<bool, VersionError>(false),
{
    let va = parse_version_spec(a)->Ok_0;
    let vb = parse_version_spec(b)->Ok_0;
    lemma_version_lt_antisym(va, vb);
    lemma_version_lt_antisym(vb, va);
}

/// Being newer is transitive across three version tags.
pub proof fn law_is_newer_transitive(a: Seq<char>, b: Seq<char>, c: Seq<char>)
    requires
        is_newer_spec(a, b) == Ok::<bool, VersionError>(true),
        is_newer_spec(b, c) == Ok::<bool, VersionError>(true),
    ensures
        is_newer_spec(a, c) == Ok::<bool, VersionError>(true),
{
    let va = parse_version_spec(a)->Ok_0;
    let vb = parse_version_spec(b)->Ok_0;
    let vc = parse_version_spec(c)->Ok_0;
    if version_lt(vb, va) && version_lt(vc, vb) {
        lemma_version_lt_trans(vc, vb, va);
    } else if version_lt(vb, va) {
        assert(version_eq(vc, vb));
        lemma_version_lt_eq(vc, vb, va);
    } else if version_lt(vc, vb) {
        assert(version_eq(vb, va));
        lemma_version_lt_eq(vc, vb, va);
    } else {
        assert(version_eq(va, vc));
    }
}

} // verus!

verus! {

#[derive(Debug, Clone, Copy, PartialEq, Eq, Structural)]
pub enum LinuxPackageFamily {
    Arch,
    Debian,
    Unknown,
}

#[derive(Debug, Clone, Copy, PartialEq, Eq, Structural)]
pub enum UpdateOs {
    Windows,
    Macos,
    Linux,
    Other,
}

#[derive(Debug, Clone, Copy, PartialEq, Eq, Structural)]
pub enum UpdateArch {
    X86_64,
    Aarch64,
    Other,
}

/// The platform an update is selected for.
#[derive(Debug, Clone, Copy, PartialEq, Eq, Structural)]
pub struct UpdatePlatform {
    pub os: UpdateOs,
    pub arch: UpdateArch,
    pub linux_family: LinuxPackageFamily,
}

/// A release asset: its file name and download URL.
#[derive(Debug, Clone, PartialEq, Eq)]
pub struct ReleaseAsset {
    pub name: String,
    pub browser_download_url: String,
}

/// `token` appears in `name` as a dash- or underscore-delimited word followed
/// by `.` or `-`.
pub open spec fn mentioned(name: Seq<char>, token: Seq<char>) -> bool {
    contains(name, seq!['-'] + token + seq!['.']) || contains(name, seq!['_'] + token + seq!['.'])
        || contains(name, seq!['-'] + token + seq!['-']) || contains(
        name,
        seq!['_'] + token + seq!['-'],
    )
}

pub open spec fn any_arch_mentioned(name: Seq<char>) -> bool {
    mentioned(name, "x64"@) || mentioned(name, "x86_64"@) || mentioned(name, "amd64"@) || mentioned(
        name,
        "arm64"@,
    ) || mentioned(name, "aarch64"@)
}

/// The asset names the running architecture, or names no architecture at all.
pub open spec fn is_native_arch_asset_spec(name: Seq<char>, arch: UpdateArch) -> bool {
    match arch {
        UpdateArch::X86_64 => mentioned(name, "x64"@) || mentioned(name, "x86_64"@) || mentioned(
            name,
            "amd64"@,
        ) || !any_arch_mentioned(name),
        UpdateArch::Aarch64 => mentioned(name, "arm64"@) || mentioned(name, "aarch64"@)
            || !any_arch_mentioned(name),
        UpdateArch::Other => true,
    }
}

pub open spec fn is_non_linux_asset_spec(name: Seq<char>) -> bool {
    contains(name, "debug"@) || contains(name, "source"@) || ends_with(name, ".zip"@) || ends_with(
        name,
        ".dmg"@,
    ) || ends_with(name, ".exe"@) || ends_with(name, ".msi"@)
}

pub open spec fn is_windows_installer_asset_spec(name: Seq<char>) -> bool {
    contains(name, "codex"@) && contains(name, "plus"@) && (ends_with(name, ".msi"@) || ends_with(
        name,
        "-setup.exe"@,
    ) || ends_with(name, "_setup.exe"@) || ends_with(name, "setup.exe"@) || ends_with(
        name,
        "installer.exe"@,
    ))
}

pub open spec fn is_macos_installer_asset_spec(name: Seq<char>) -> bool {
    contains(name, "codex"@) && contains(name, "plus"@) && ends_with(name, ".dmg"@)
}

/// On Linux only assets built for the running architecture qualify: one that
/// names the native architecture, or names no architecture at all. An
/// architecture this library does not know has no native name.
pub open spec fn is_linux_arch_asset_spec(name: Seq<char>, arch: UpdateArch) -> bool {
    match arch {
        UpdateArch::Other => !any_arch_mentioned(name),
        _ => is_native_arch_asset_spec(name, arch),
    }
}

/// Preference of an asset for a platform (lower is better), or `None` when the
/// asset is not an installer for it. `name` is already lowercased.
pub open spec fn platform_asset_rank_spec(name: Seq<char>, platform: UpdatePlatform) -> Option<u8> {
    if platform.os == UpdateOs::Macos {
        if !is_macos_installer_asset_spec(name) {
            None
        } else if is_native_arch_asset_spec(name, platform.arch) {
            Some(0)
        } else {
            Some(1)
        }
    } else if platform.os == UpdateOs::Windows && is_windows_installer_asset_spec(name) {
        Some(0)
    } else if platform.os != UpdateOs::Linux || is_non_linux_asset_spec(name) {
        None
    } else if !ends_with(name, ".pkg.tar.zst"@) && !ends_with(name, ".deb"@) {
        None
    } else if !is_linux_arch_asset_spec(name, platform.arch) {
        None
    } else {
        let family = if ends_with(name, ".pkg.tar.zst"@) {
            LinuxPackageFamily::Arch
        } else {
            LinuxPackageFamily::Debian
        };
        if platform.linux_family == LinuxPackageFamily::Unknown {
            Some(1)
        } else if family == platform.linux_family {
            Some(0)
        } else {
            Some(1)
        }
    }
}

fn mentioned_exec(name: &Vec<char>, token: &str) -> (r: bool)
    ensures
        r == mentioned(name@, token@),
{
    let p1 = surround('-', token, '.');
    let p2 = surround('_', token, '.');
    let p3 = surround('-', token, '-');
    let p4 = surround('_', token, '-');
    contains_vec(name, &p1) || contains_vec(name, &p2) || contains_vec(name, &p3) || contains_vec(
        name,
        &p4,
    )
}

fn any_arch_mentioned_exec(name: &Vec<char>) -> (r: bool)
    ensures
        r == any_arch_mentioned(name@),
{
    mentioned_exec(name, "x64") || mentioned_exec(name, "x86_64") || mentioned_exec(name, "amd64")
        || mentioned_exec(name, "arm64") || mentioned_exec(name, "aarch64")
}

fn is_native_arch_asset(name: &Vec<char>, arch: UpdateArch) -> (r: bool)
    ensures
        r == is_native_arch_asset_spec(name@, arch),
{
    let any = mentioned_exec(name, "x64") || mentioned_exec(name, "x86_64") || mentioned_exec(
        name,
        "amd64",
    ) || mentioned_exec(name, "arm64") || mentioned_exec(name, "aarch64");
    match arch {
        UpdateArch::X86_64 => mentioned_exec(name, "x64") || mentioned_exec(name, "x86_64")
            || mentioned_exec(name, "amd64") || !any,
        UpdateArch::Aarch64 => mentioned_exec(name, "arm64") || mentioned_exec(name, "aarch64")
            || !any,
        UpdateArch::Other => true,
    }
}

fn is_non_linux_asset(name: &Vec<char>) -> (r: bool)
    ensures
        r == is_non_linux_asset_spec(name@),
{
    has(name, "debug") || has(name, "source") || ends(name, ".zip") || ends(name, ".dmg") || ends(
        name,
        ".exe",
    ) || ends(name, ".msi")
}

fn is_windows_installer_asset(name: &Vec<char>) -> (r: bool)
    ensures
        r == is_windows_installer_asset_spec(name@),
{
    has(name, "codex") && has(name, "plus") && (ends(name, ".msi") || ends(name, "-setup.exe")
        || ends(name, "_setup.exe") || ends(name, "setup.exe") || ends(name, "installer.exe"))
}

fn is_macos_installer_asset(name: &Vec<char>) -> (r: bool)
    ensures
        r == is_macos_installer_asset_spec(name@),
{
    has(name, "codex") && has(name, "plus") && ends(name, ".dmg")
}

fn platform_asset_rank(name: &Vec<char>, platform: UpdatePlatform) -> (r: Option<u8>)
    ensures
        r == platform_asset_rank_spec(name@, platform),
{
    if platform.os == UpdateOs::Macos {
        if !is_macos_installer_asset(name) {
            return None;
        }
        return Some(
            if is_native_arch_asset(name, platform.arch) {
                0
            } else {
                1
            },
        );
    }
    if platform.os == UpdateOs::Windows && is_windows_installer_asset(name) {
        return Some(0);
    }
    if platform.os != UpdateOs::Linux || is_non_linux_asset(name) {
        return None;
    }
    let package_family = if ends(name, ".pkg.tar.zst") {
        LinuxPackageFamily::Arch
    } else if ends(name, ".deb") {
        LinuxPackageFamily::Debian
    } else {
        return None;
    };
    let native = match platform.arch {
        UpdateArch::Other => !any_arch_mentioned_exec(name),
        _ => is_native_arch_asset(name, platform.arch),
    };
    if !native {
        return None;
    }
    if platform.linux_family == LinuxPackageFamily::Unknown {
        Some(1)
    } else if package_family == platform.linux_family {
        Some(0)
    } else {
        Some(1)
    }
}

/// The views of `(name, url)` pairs.
pub open spec fn pair_views(assets: Seq<(String, String)>) -> Seq<(Seq<char>, Seq<char>)> {
    Seq::new(assets.len(), |i: int| (assets[i].0@, assets[i].1@))
}

/// The rank of asset `i`, if it has a name and URL and suits the platform.
pub open spec fn asset_rank(assets: Seq<(Seq<char>, Seq<char>)>, platform: UpdatePlatform, i: int) -> Option<u8> {
    if !is_blank(assets[i].0) && !is_blank(assets[i].1) {
        platform_asset_rank_spec(lower(assets[i].0), platform)
    } else {
        None
    }
}

/// Asset `i` has the best rank, and no earlier asset has that rank.
pub open spec fn is_best_asset(assets: Seq<(Seq<char>, Seq<char>)>, platform: UpdatePlatform, i: int) -> bool {
    &&& 0 <= i < assets.len()
    &&& asset_rank(assets, platform, i) is Some
    &&& forall|j: int|
        0 <= j < assets.len() && #[trigger] asset_rank(assets, platform, j) is Some ==> asset_rank(
            assets,
            platform,
            i,
        )->0 <= asset_rank(assets, platform, j)->0
    &&& forall|j: int|
        0 <= j < i && #[trigger] asset_rank(assets, platform, j) is Some ==> asset_rank(
            assets,
            platform,
            i,
        )->0 < asset_rank(assets, platform, j)->0
}

/// Index of the asset chosen for the platform.
pub open spec fn selected_asset_index(assets: Seq<(Seq<char>, Seq<char>)>, platform: UpdatePlatform) -> Option<int> {
    if exists|i: int| is_best_asset(assets, platform, i) {
        Some(choose|i: int| is_best_asset(assets, platform, i))
    } else {
        None
    }
}

/// The `(name, url)` chosen for the platform.
pub open spec fn selected_asset(assets: Seq<(Seq<char>, Seq<char>)>, platform: UpdatePlatform) -> Option<(Seq<char>, Seq<char>)> {
    match selected_asset_index(assets, platform) {
        Some(i) => Some(assets[i]),
        None => None,
    }
}

pub proof fn lemma_best_asset_unique(assets: Seq<(Seq<char>, Seq<char>)>, platform: UpdatePlatform, i: int)
    requires
        is_best_asset(assets, platform, i),
    ensures
        selected_asset_index(assets, platform) == Some(i),
{
    let c = choose|k: int| is_best_asset(assets, platform, k);
    assert(is_best_asset(assets, platform, c));
    if c < i {
        assert(asset_rank(assets, platform, c) is Some);
    } else if c > i {
        assert(asset_rank(assets, platform, i) is Some);
    }
}

/// Chooses the installer asset for `platform` among `(name, url)` pairs.
/// Pairs with a blank name or URL are ignored; the asset with the lowest
/// rank wins, and among equal ranks the first one listed.
pub fn select_update_asset_for_platform(assets: &[(String, String)], platform: UpdatePlatform) -> (r:
    Option<ReleaseAsset>)
    ensures
        r is None <==> forall|i: int|
            0 <= i < assets@.len() ==> #[trigger] asset_rank(pair_views(assets@), platform, i) is None,
        match selected_asset(pair_views(assets@), platform) {
            Some(a) => r is Some && r->0.name@ == a.0 && r->0.browser_download_url@ == a.1,
            None => r is None,
        },
{
    let ghost av = pair_views(assets@);
    let mut best: Option<(u8, usize)> = None;
    let mut i: usize = 0;
    while i < assets.len()
        invariant
            av == pair_views(assets@),
            i <= assets@.len(),
            match best {
                None => forall|j: int| 0 <= j < i ==> #[trigger] asset_rank(av, platform, j) is None,
                Some((rk, b)) => {
                    &&& b < i
                    &&& asset_rank(av, platform, b as int) == Some(rk)
                    &&& forall|j: int|
                        0 <= j < i && #[trigger] asset_rank(av, platform, j) is Some ==> rk
                            <= asset_rank(av, platform, j)->0
                    &&& forall|j: int|
                        0 <= j < b && #[trigger] asset_rank(av, platform, j) is Some ==> rk
                            < asset_rank(av, platform, j)->0
                },
            },
        decreases assets.len() - i,
    {
        let name = &assets[i].0;
        let url = &assets[i].1;
        assert(av[i as int] == (name@, url@));
        if !is_blank_str(name.as_str()) && !is_blank_str(url.as_str()) {
            let lowered = lower_vec(name.as_str());
            match platform_asset_rank(&lowered, platform) {
                Some(rank) => {
                    let better = match best {
                        None => true,
                        Some((r0, _)) => rank < r0,
                    };
                    if better {
                        best = Some((rank, i));
                    }
                },
                None => {},
            }
        }
        i = i + 1;
    }
    match best {
        Some((rk, b)) => {
            proof {
                assert(is_best_asset(av, platform, b as int));
                lemma_best_asset_unique(av, platform, b as int);
            }
            Some(
                ReleaseAsset {
                    name: assets[b].0.clone(),
                    browser_download_url: assets[b].1.clone(),
                },
            )
        },
        None => {
            proof {
                assert(!exists|k: int| is_best_asset(av, platform, k));
            }
            None
        },
    }
}

} // verus!

verus! {

/// A release as read from a release manifest.
#[derive(Debug, Clone, PartialEq, Eq)]
pub struct Release {
    pub version: String,
    pub url: String,
    pub body: String,
    pub asset_name: Option<String>,
    pub asset_url: Option<String>,
}

/// Why a release manifest could not be read.
#[derive(Debug, Clone, Copy, PartialEq, Eq)]
pub enum ReleaseError {
    /// A GitHub release payload without a string `tag_name`.
    MissingTagName,
    /// A `latest.json` manifest without a string `version` (or `tag_name`).
    MissingVersion,
}

pub open spec fn opt_view(o: Option<String>) -> Option<Seq<char>> {
    match o {
        Some(s) => Some(s@),
        None => None,
    }
}

pub open spec fn or_empty(o: Option<Seq<char>>) -> Seq<char> {
    match o {
        Some(s) => s,
        None => Seq::<char>::empty(),
    }
}

/// A string that is not blank, trimmed.
pub open spec fn nonblank_trimmed(o: Option<Seq<char>>) -> Option<Seq<char>> {
    match o {
        Some(t) => if is_blank(t) {
            None
        } else {
            Some(trim(t))
        },
        None => None,
    }
}

/// The first of two URL fields that holds a non-blank string, trimmed.
pub open spec fn url_from(j: JsonValue, k1: Seq<char>, k2: Seq<char>) -> Option<Seq<char>> {
    match nonblank_trimmed(get_str(j, k1)) {
        Some(u) => Some(u),
        None => nonblank_trimmed(get_str(j, k2)),
    }
}

/// An asset entry with a string `name` and a usable URL.
pub open spec fn asset_pair(a: JsonValue, k1: Seq<char>, k2: Seq<char>) -> Option<(Seq<char>, Seq<char>)> {
    match get_str(a, "name"@) {
        Some(n) => match url_from(a, k1, k2) {
            Some(u) => Some((n, u)),
            None => None,
        },
        None => None,
    }
}

pub open spec fn asset_pairs(arr: Seq<JsonValue>, k1: Seq<char>, k2: Seq<char>) -> Seq<(Seq<char>, Seq<char>)>
    decreases arr.len(),
{
    if arr.len() == 0 {
        Seq::empty()
    } else {
        let r = asset_pairs(arr.drop_last(), k1, k2);
        match asset_pair(arr.last(), k1, k2) {
            Some(p) => r.push(p),
            None => r,
        }
    }
}

/// The usable `(name, url)` pairs of the `assets` array of a payload.
pub open spec fn payload_assets(payload: JsonValue, k1: Seq<char>, k2: Seq<char>) -> Seq<(Seq<char>, Seq<char>)> {
    match get(payload, "assets"@) {
        Some(v) => match as_array(v) {
            Some(a) => asset_pairs(a, k1, k2),
            None => Seq::empty(),
        },
        None => Seq::empty(),
    }
}

/// The release fields other than the version.
pub open spec fn release_rest_matches(
    r: Release,
    url: Option<Seq<char>>,
    body: Seq<char>,
    assets: Seq<(Seq<char>, Seq<char>)>,
    platform: UpdatePlatform,
) -> bool {
    &&& r.url@ == or_empty(url)
    &&& r.body@ == body
    &&& match selected_asset(assets, platform) {
        Some(a) => opt_view(r.asset_name) == Some(a.0) && opt_view(r.asset_url) == Some(a.1),
        None => r.asset_name is None && r.asset_url is None,
    }
}

pub open spec fn latest_json_version(p: JsonValue) -> Option<Seq<char>> {
    match get(p, "version"@) {
        Some(v) => crate::json::as_str(v),
        None => get_str(p, "tag_name"@),
    }
}

pub open spec fn latest_json_body(p: JsonValue) -> Seq<char> {
    let v = match get(p, "body"@) {
        Some(v) => Some(v),
        None => match get(p, "release_summary"@) {
            Some(v) => Some(v),
            None => get(p, "notes"@),
        },
    };
    match v {
        Some(v) => or_empty(crate::json::as_str(v)),
        None => Seq::empty(),
    }
}

/// The first of two string fields that is not blank, trimmed.
fn url_from_exec(j: &Json, k1: &str, k2: &str) -> (r: Option<String>)
    ensures
        opt_view(r) == url_from(j@, k1@, k2@),
{
    match j.get_str(k1) {
        Some(s) => if !is_blank_str(s.as_str()) {
            return Some(trimmed(s.as_str()));
        },
        None => {},
    }
    match j.get_str(k2) {
        Some(s) => if !is_blank_str(s.as_str()) {
            Some(trimmed(s.as_str()))
        } else {
            None
        },
        None => None,
    }
}

/// The usable `(name, url)` pairs of the payload's `assets` array.
fn collect_assets(payload: &Json, k1: &str, k2: &str) -> (r: Vec<(String, String)>)
    ensures
        pair_views(r@) == payload_assets(payload@, k1@, k2@),
{
    let mut out: Vec<(String, String)> = Vec::new();
    let arr = match payload.get("assets") {
        Some(v) => match v.as_array() {
            Some(a) => a,
            None => {
                assert(pair_views(out@) =~= Seq::<(Seq<char>, Seq<char>)>::empty());
                return out;
            },
        },
        None => {
            assert(pair_views(out@) =~= Seq::<(Seq<char>, Seq<char>)>::empty());
            return out;
        },
    };
    let ghost av = views(arr@);
    let mut i: usize = 0;
    assert(pair_views(out@) =~= asset_pairs(av.subrange(0, 0), k1@, k2@));
    while i < arr.len()
        invariant
            av == views(arr@),
            i <= arr@.len(),
            pair_views(out@) == asset_pairs(av.subrange(0, i as int), k1@, k2@),
        decreases arr.len() - i,
    {
        let a = &arr[i];
        let ghost sub = av.subrange(0, i + 1);
        assert(sub.drop_last() == av.subrange(0, i as int));
        assert(sub.last() == a@);
        match a.get_str("name") {
            Some(n) => match url_from_exec(a, k1, k2) {
                Some(u) => {
                    out.push((n.clone(), u));
                    assert(pair_views(out@) =~= asset_pairs(sub, k1@, k2@));
                },
                None => {},
            },
            None => {},
        }
        i = i + 1;
    }
    assert(av.subrange(0, arr@.len() as int) == av);
    out
}

fn release_with(
    version: String,
    url: Option<String>,
    body: String,
    assets: &Vec<(String, String)>,
    platform: UpdatePlatform,
) -> (r: Release)
    ensures
        r.version@ == version@,
        release_rest_matches(r, opt_view(url), body@, pair_views(assets@), platform),
{
    let selected = select_update_asset_for_platform(assets.as_slice(), platform);
    let url = match url {
        Some(u) => u,
        None => String::new(),
    };
    match selected {
        Some(a) => Release {
            version,
            url,
            body,
            asset_name: Some(a.name),
            asset_url: Some(a.browser_download_url),
        },
        None => Release { version, url, body, asset_name: None, asset_url: None },
    }
}

/// Reads a `latest.json` release manifest and selects its asset for `platform`.
/// The version is `version` (or, when absent, `tag_name`); the release URL is
/// the first non-blank string of `url` and `html_url`; the body is `body`,
/// `release_summary` or `notes`; an asset's URL is the first non-blank string
/// of its `url` and `browser_download_url`. URLs are trimmed.
pub fn release_from_latest_json_payload_for_platform(payload: &Json, platform: UpdatePlatform) -> (r:
    Result<Release, ReleaseError>)
    ensures
        match r {
            Ok(rel) => latest_json_version(payload@) == Some(rel.version@) && release_rest_matches(
                rel,
                url_from(payload@, "url"@, "html_url"@),
                latest_json_body(payload@),
                payload_assets(payload@, "url"@, "browser_download_url"@),
                platform,
            ),
            Err(e) => latest_json_version(payload@) is None && e == ReleaseError::MissingVersion,
        },
{
    let version = match payload.get("version") {
        Some(v) => v.as_str(),
        None => payload.get_str("tag_name"),
    };
    let version = match version {
        Some(v) => v.clone(),
        None => return Err(ReleaseError::MissingVersion),
    };
    let assets = collect_assets(payload, "url", "browser_download_url");
    let url = url_from_exec(payload, "url", "html_url");
    let body_value = match payload.get("body") {
        Some(v) => Some(v),
        None => match payload.get("release_summary") {
            Some(v) => Some(v),
            None => payload.get("notes"),
        },
    };
    let body = match body_value {
        Some(v) => match v.as_str() {
            Some(s) => s.clone(),
            None => String::new(),
        },
        None => String::new(),
    };
    Ok(release_with(version, url, body, &assets, platform))
}

/// Reads a GitHub release API payload and selects its asset for `platform`.
/// The version is `tag_name`; the release URL is the first non-blank string of
/// `html_url` and `url`; an asset's URL is the first non-blank string of its
/// `browser_download_url` and `url`. URLs are trimmed.
pub fn release_from_github_payload_for_platform(payload: &Json, platform: UpdatePlatform) -> (r:
    Result<Release, ReleaseError>)
    ensures
        match r {
            Ok(rel) => get_str(payload@, "tag_name"@) == Some(rel.version@) && release_rest_matches(
                rel,
                url_from(payload@, "html_url"@, "url"@),
                or_empty(get_str(payload@, "body"@)),
                payload_assets(payload@, "browser_download_url"@, "url"@),
                platform,
            ),
            Err(e) => get_str(payload@, "tag_name"@) is None && e == ReleaseError::MissingTagName,
        },
{
    let version = match payload.get_str("tag_name") {
        Some(v) => v.clone(),
        None => return Err(ReleaseError::MissingTagName),
    };
    let assets = collect_assets(payload, "browser_download_url", "url");
    let url = url_from_exec(payload, "html_url", "url");
    let body = match payload.get_str("body") {
        Some(s) => s.clone(),
        None => String::new(),
    };
    Ok(release_with(version, url, body, &assets, platform))
}

} // verus!

verus! {

/// Key and value of an `os-release` line `KEY=value`: the key trimmed, the
/// value trimmed and stripped of surrounding quotes.
pub open spec fn os_release_entry(line: Seq<char>) -> Option<(Seq<char>, Seq<char>)> {
    match first_occurrence(line, seq!['=']) {
        Some(e) => Some(
            (trim(line.subrange(0, e)), strip_quotes(trim(line.subrange(e + 1, line.len() as int)))),
        ),
        None => None,
    }
}

/// The value of the last line that assigns `key`, or the empty string.
pub open spec fn os_release_value(lines: Seq<Seq<char>>, key: Seq<char>) -> Seq<char>
    decreases lines.len(),
{
    if lines.len() == 0 {
        Seq::empty()
    } else {
        match os_release_entry(lines.last()) {
            Some(kv) => if kv.0 == key {
                kv.1
            } else {
                os_release_value(lines.drop_last(), key)
            },
            None => os_release_value(lines.drop_last(), key),
        }
    }
}

/// The package family a distribution identifier belongs to.
pub open spec fn family_of(token: Seq<char>) -> Option<LinuxPackageFamily> {
    let t = lower(token);
    if t == "arch"@ || t == "archlinux"@ || t == "cachyos"@ || t == "manjaro"@ || t == "endeavouros"@ {
        Some(LinuxPackageFamily::Arch)
    } else if t == "debian"@ || t == "ubuntu"@ || t == "linuxmint"@ || t == "pop"@ {
        Some(LinuxPackageFamily::Debian)
    } else {
        None
    }
}

/// The family of the first identifier that has one.
pub open spec fn first_family(tokens: Seq<Seq<char>>) -> Option<LinuxPackageFamily>
    decreases tokens.len(),
{
    if tokens.len() == 0 {
        None
    } else {
        match family_of(tokens[0]) {
            Some(f) => Some(f),
            None => first_family(tokens.drop_first()),
        }
    }
}

pub open spec fn ascii_ws_pred() -> spec_fn(char) -> bool {
    |c: char| is_ascii_ws(c)
}

/// The package family named by `/etc/os-release` contents: `ID` first, then
/// each whitespace-separated word of `ID_LIKE`.
pub open spec fn classify_spec(contents: Seq<char>) -> LinuxPackageFamily {
    let lines = text_lines(contents);
    let id = os_release_value(lines, "ID"@);
    let like = os_release_value(lines, "ID_LIKE"@);
    match first_family(seq![id] + split_by(like, ascii_ws_pred())) {
        Some(f) => f,
        None => LinuxPackageFamily::Unknown,
    }
}

fn os_release_entry_exec(line: &Vec<char>) -> (r: Option<(Vec<char>, Vec<char>)>)
    ensures
        match r {
            Some(kv) => os_release_entry(line@) == Some((kv.0@, kv.1@)),
            None => os_release_entry(line@) is None,
        },
{
    let mut eq: Vec<char> = Vec::new();
    eq.push('=');
    assert(eq@ =~= seq!['=']);
    let found = find_from_vec(line, &eq, 0);
    proof {
        lemma_find_at_or_after(line@, eq@, 0, match found {
            Some(k) => Some(k as int),
            None => None,
        });
    }
    match found {
        Some(e) => {
            assert(occurs_at(line@, eq@, e as int));
            assert(e < line.len());
            let after: usize = e + 1;
            let key_raw = subvec(line, 0, e);
            let value_raw = subvec(line, after, line.len());
            let key = trim_vec(&key_raw);
            let value_trimmed = trim_vec(&value_raw);
            let value = strip_quotes_vec(&value_trimmed);
            Some((key, value))
        },
        None => None,
    }
}

fn family_of_exec(token: &Vec<char>) -> (r: Option<LinuxPackageFamily>)
    ensures
        r == family_of(token@),
{
    let mut t: Vec<char> = Vec::new();
    let mut i: usize = 0;
    while i < token.len()
        invariant
            i <= token@.len(),
            t@ == lower(token@.subrange(0, i as int)),
        decreases token.len() - i,
    {
        let c = crate::text::lower_char_exec(token[i]);
        t.push(c);
        assert(lower(token@.subrange(0, i + 1)) =~= lower(token@.subrange(0, i as int)).push(c));
        i = i + 1;
    }
    assert(token@.subrange(0, token@.len() as int) == token@);
    if vec_eq_str(&t, "arch") || vec_eq_str(&t, "archlinux") || vec_eq_str(&t, "cachyos")
        || vec_eq_str(&t, "manjaro") || vec_eq_str(&t, "endeavouros") {
        Some(LinuxPackageFamily::Arch)
    } else if vec_eq_str(&t, "debian") || vec_eq_str(&t, "ubuntu") || vec_eq_str(&t, "linuxmint")
        || vec_eq_str(&t, "pop") {
        Some(LinuxPackageFamily::Debian)
    } else {
        None
    }
}

/// Reads the package family from `/etc/os-release` contents.
pub fn classify_linux_os_release(contents: &str) -> (r: LinuxPackageFamily)
    ensures
        r == classify_spec(contents@),
{
    let v = chars_of(contents);
    let lines = text_lines_vec(&v);
    let ghost ls = text_lines(contents@);
    let mut id: Vec<char> = Vec::new();
    let mut id_like: Vec<char> = Vec::new();
    let mut k: usize = 0;
    assert(ls.subrange(0, 0) =~= Seq::<Seq<char>>::empty());
    proof {
        reveal_strlit("ID");
        reveal_strlit("ID_LIKE");
        assert("ID"@.len() != "ID_LIKE"@.len());
    }
    while k < lines.len()
        invariant
            vviews(lines@) == ls,
            k <= lines@.len(),
            id@ == os_release_value(ls.subrange(0, k as int), "ID"@),
            id_like@ == os_release_value(ls.subrange(0, k as int), "ID_LIKE"@),
            "ID"@ != "ID_LIKE"@,
        decreases lines.len() - k,
    {
        let ghost sub = ls.subrange(0, k + 1);
        assert(sub.drop_last() == ls.subrange(0, k as int));
        assert(sub.last() == lines@[k as int]@);
        match os_release_entry_exec(&lines[k]) {
            Some((key, value)) => {
                if vec_eq_str(&key, "ID") {
                    id = value;
                } else if vec_eq_str(&key, "ID_LIKE") {
                    id_like = value;
                }
            },
            None => {},
        }
        k = k + 1;
    }
    assert(ls.subrange(0, lines@.len() as int) == ls);
    let ghost toks0 = split_by(id_like@, ascii_ws_pred());
    assert((seq![id@] + toks0)[0] == id@);
    assert((seq![id@] + toks0).drop_first() == toks0);
    assert(toks0.subrange(0, toks0.len() as int) == toks0);
    match family_of_exec(&id) {
        Some(f) => {
            return f;
        },
        None => {},
    }
    let tokens = split_ascii_ws_vec(&id_like);
    let ghost toks = split_by(id_like@, ascii_ws_pred());
    assert(vviews(tokens@) == toks);
    assert((seq![id@] + toks).drop_first() == toks);
    let mut j: usize = 0;
    while j < tokens.len()
        invariant
            vviews(tokens@) == toks,
            j <= tokens@.len(),
            first_family(seq![id@] + toks) == first_family(toks.subrange(j as int, toks.len() as int)),
            toks == split_by(id_like@, ascii_ws_pred()),
            ls == text_lines(contents@),
            id@ == os_release_value(ls, "ID"@),
            id_like@ == os_release_value(ls, "ID_LIKE"@),
        decreases tokens.len() - j,
    {
        let ghost rest = toks.subrange(j as int, toks.len() as int);
        assert(rest[0] == tokens@[j as int]@);
        assert(rest.drop_first() == toks.subrange(j + 1, toks.len() as int));
        match family_of_exec(&tokens[j]) {
            Some(f) => {
                return f;
            },
            None => {},
        }
        j = j + 1;
    }
    LinuxPackageFamily::Unknown
}

/// Why an update could not be installed from a release.
#[derive(Debug, Clone, Copy, PartialEq, Eq)]
pub enum UpdateError {
    /// The release has no downloadable asset.
    MissingAsset,
    /// The asset name is not a single plain file name.
    InvalidAssetName,
}

/// The path separators: `/`, and on Windows also `\\`.
pub open spec fn is_path_sep(windows: bool) -> spec_fn(char) -> bool {
    |c: char| c == '/' || (windows && c == '\\')
}

pub open spec fn is_ascii_letter(c: char) -> bool {
    ('a' <= c && c <= 'z') || ('A' <= c && c <= 'Z')
}

/// A Windows drive prefix such as `C:` at the start of a path.
pub open spec fn has_drive_prefix(name: Seq<char>) -> bool {
    name.len() >= 2 && is_ascii_letter(name[0]) && name[1] == ':'
}

/// The file name an asset is saved under: a non-blank name that is a single
/// plain path component (no separators other than trailing ones or `.`
/// pieces, not `.` or `..`, and on Windows no drive prefix).
pub open spec fn safe_asset_name_spec(name: Seq<char>, windows: bool) -> Option<Seq<char>> {
    let ps = split_by(name, is_path_sep(windows));
    let first = ps[0];
    if !is_blank(name) && !(windows && has_drive_prefix(name)) && first.len() > 0 && first
        != "."@ && first != ".."@ && forall|i: int|
        1 <= i < ps.len() ==> (#[trigger] ps[i]).len() == 0 || ps[i] == "."@ {
        Some(first)
    } else {
        None
    }
}

/// An accepted asset name is one non-empty path component: it holds no path
/// separator of the platform and is neither `.` nor `..`. A blank name, and a
/// name with a `..` component anywhere, is refused.
pub proof fn law_safe_asset_name_is_one_component(name: Seq<char>, windows: bool)
    ensures
        match safe_asset_name_spec(name, windows) {
            Some(s) => s.len() > 0 && s != "."@ && s != ".."@ && forall|i: int|
                0 <= i < s.len() ==> !is_path_sep(windows)(#[trigger] s[i]),
            None => true,
        },
        is_blank(name) ==> safe_asset_name_spec(name, windows) is None,
        forall|k: int|
            0 <= k < split_by(name, is_path_sep(windows)).len() && #[trigger] split_by(
                name,
                is_path_sep(windows),
            )[k] == ".."@ ==> safe_asset_name_spec(name, windows) is None,
{
    let ps = split_by(name, is_path_sep(windows));
    crate::text::lemma_split_by_pieces_clean(name, is_path_sep(windows));
    lemma_split_by_nonempty(name, is_path_sep(windows));
    reveal_strlit("..");
    reveal_strlit(".");
    assert(".."@ != "."@) by {
        assert(".."@.len() != "."@.len());
    }
    assert(".."@.len() != 0);
    match safe_asset_name_spec(name, windows) {
        Some(s) => {
            assert(s == ps[0]);
            assert forall|i: int| 0 <= i < s.len() implies !is_path_sep(windows)(#[trigger] s[i]) by {
                assert(s[i] == ps[0][i]);
            }
        },
        None => {},
    }
}

/// What checking `name` gives under the path rules of one platform.
pub open spec fn asset_name_outcome(
    name: Seq<char>,
    windows: bool,
    r: Result<String, UpdateError>,
) -> bool {
    match r {
        Ok(s) => safe_asset_name_spec(name, windows) == Some(s@),
        Err(e) => safe_asset_name_spec(name, windows) is None && e == UpdateError::InvalidAssetName,
    }
}

/// Splits `s` at the path separators of the platform.
fn split_path_vec(s: &Vec<char>, windows: bool) -> (r: Vec<Vec<char>>)
    ensures
        vviews(r@) == split_by(s@, is_path_sep(windows)),
{
    let mut parts: Vec<Vec<char>> = Vec::new();
    let mut cur: Vec<char> = Vec::new();
    let mut i: usize = 0;
    assert(s@.subrange(0, 0) =~= Seq::<char>::empty());
    assert(vviews(parts@).push(cur@) =~= seq![Seq::<char>::empty()]);
    while i < s.len()
        invariant
            i <= s@.len(),
            vviews(parts@).push(cur@) == split_by(s@.subrange(0, i as int), is_path_sep(windows)),
        decreases s.len() - i,
    {
        proof {
            lemma_split_by_step(s@, is_path_sep(windows), i as int);
        }
        if s[i] == '/' || (windows && s[i] == '\\') {
            let done = cur;
            parts.push(done);
            cur = Vec::new();
            assert(vviews(parts@).push(cur@) =~= split_by(
                s@.subrange(0, i + 1),
                is_path_sep(windows),
            ));
        } else {
            cur.push(s[i]);
            assert(vviews(parts@).push(cur@) =~= split_by(
                s@.subrange(0, i + 1),
                is_path_sep(windows),
            ));
        }
        i = i + 1;
    }
    assert(s@.subrange(0, s@.len() as int) == s@);
    parts.push(cur);
    assert(vviews(parts@) =~= split_by(s@, is_path_sep(windows)));
    parts
}

/// `std::path::is_separator`: whether `c` separates path components on the
/// platform the library runs on. Which characters do is a property of that
/// platform (`/` everywhere, `\\` too on Windows); the contract claims nothing
/// of it.
#[verifier::external_body]
fn is_platform_separator(c: char) -> (r: bool) {
    std::path::is_separator(c)
}

/// Checks that a release asset name is a plain file name under the path
/// rules of one platform (`windows` for Windows rules) and returns it.
pub fn safe_asset_name_for(name: &str, windows: bool) -> (r: Result<String, UpdateError>)
    ensures
        asset_name_outcome(name@, windows, r),
{
    if is_blank_str(name) {
        return Err(UpdateError::InvalidAssetName);
    }
    let v = chars_of(name);
    if windows && v.len() >= 2 && v[1] == ':' && (('a' <= v[0] && v[0] <= 'z') || ('A' <= v[0]
        && v[0] <= 'Z')) {
        return Err(UpdateError::InvalidAssetName);
    }
    let pieces = split_path_vec(&v, windows);
    proof {
        lemma_split_by_nonempty(v@, is_path_sep(windows));
    }
    let ghost ps = split_by(name@, is_path_sep(windows));
    let first = &pieces[0];
    assert(first@ == ps[0]);
    if first.len() == 0 || vec_eq_str(first, ".") || vec_eq_str(first, "..") {
        return Err(UpdateError::InvalidAssetName);
    }
    let mut i: usize = 1;
    while i < pieces.len()
        invariant
            vviews(pieces@) == ps,
            ps == split_by(name@, is_path_sep(windows)),
            1 <= i <= pieces@.len(),
            forall|k: int| 1 <= k < i ==> (#[trigger] ps[k]).len() == 0 || ps[k] == "."@,
        decreases pieces.len() - i,
    {
        let piece = &pieces[i];
        assert(piece@ == ps[i as int]);
        if !(piece.len() == 0 || vec_eq_str(piece, ".")) {
            return Err(UpdateError::InvalidAssetName);
        }
        i = i + 1;
    }
    Ok(crate::text::string_of_all(first))
}

/// Checks that a release asset name is a plain file name on the platform the
/// library runs on and returns it; the platform's path rules are those of
/// Windows or those of the other systems.
pub fn safe_asset_name(name: &str) -> (r: Result<String, UpdateError>)
    ensures
        asset_name_outcome(name@, false, r) || asset_name_outcome(name@, true, r),
{
    let windows = is_platform_separator('\\');
    safe_asset_name_for(name, windows)
}

/// The file name the release's installer is saved under.
pub fn download_file_name(release: &Release) -> (r: Result<String, UpdateError>)
    ensures
        match release.asset_name {
            None => r == Err::<String, UpdateError>(UpdateError::MissingAsset),
            Some(n) => asset_name_outcome(n@, false, r) || asset_name_outcome(n@, true, r),
        },
{
    match &release.asset_name {
        None => Err(UpdateError::MissingAsset),
        Some(n) => safe_asset_name(n.as_str()),
    }
}

/// The outcome of an update check.
#[derive(Debug, Clone, PartialEq, Eq)]
pub struct UpdateCheck {
    pub current_version: String,
    pub latest_version: Option<String>,
    pub release_summary: String,
    pub release_url: String,
    pub asset_name: Option<String>,
    pub asset_url: Option<String>,
    pub update_available: bool,
}

/// An installer that was downloaded and launched.
#[derive(Debug, Clone, PartialEq, Eq)]
pub struct UpdateInstall {
    pub release: Release,
    pub installer_path: String,
    pub launched: bool,
}

/// The update check for a fetched release against the running version.
pub fn update_check_for_release(current_version: &str, release: Release) -> (r: Result<
    UpdateCheck,
    VersionError,
>)
    ensures
        match r {
            Ok(c) => {
                &&& is_newer_spec(release.version@, current_version@) == Ok::<bool, VersionError>(
                    c.update_available,
                )
                &&& c.current_version@ == current_version@
                &&& opt_view(c.latest_version) == Some(release.version@)
                &&& c.release_summary@ == release.body@
                &&& c.release_url@ == release.url@
                &&& opt_view(c.asset_name) == opt_view(release.asset_name)
                &&& opt_view(c.asset_url) == opt_view(release.asset_url)
            },
            Err(e) => is_newer_spec(release.version@, current_version@) == Err::<bool, VersionError>(e),
        },
{
    let update_available = match is_newer_version(release.version.as_str(), current_version) {
        Ok(b) => b,
        Err(e) => return Err(e),
    };
    Ok(
        UpdateCheck {
            current_version: current_version.to_owned(),
            latest_version: Some(release.version),
            release_summary: release.body,
            release_url: release.url,
            asset_name: release.asset_name,
            asset_url: release.asset_url,
            update_available,
        },
    )
}

} // verus!

verus! {

/// The decimal text of a number is a non-empty run of digits whose value is
/// the number.
pub proof fn lemma_decimal_text_value(n: nat)
    ensures
        decimal_text(n).len() > 0,
        crate::text::all_digits(decimal_text(n)),
        decimal(decimal_text(n)) == n,
    decreases n,
{
    let s = decimal_text(n);
    let k = (n % 10) as int;
    assert('0' as int == 48);
    assert(crate::text::digit_char(k) as int == k + 48);
    if n < 10 {
        assert(k == n);
        assert(s.drop_last() =~= Seq::<char>::empty());
        assert(s.last() == crate::text::digit_char(n as int));
        assert(is_digit(s[0]));
        assert(decimal(s.drop_last()) == 0);
        assert(decimal(s) == decimal(s.drop_last()) * 10 + (s.last() as int - '0' as int));
    } else {
        lemma_decimal_text_value(n / 10);
        let a = decimal_text(n / 10);
        assert(s == a + seq![crate::text::digit_char((n % 10) as int)]);
        assert(s.drop_last() =~= a);
        assert(n == (n / 10) * 10 + n % 10);
        assert(s.last() == crate::text::digit_char(k));
        assert(decimal(s) == decimal(s.drop_last()) * 10 + (s.last() as int - '0' as int));
        assert forall|i: int| 0 <= i < s.len() implies is_digit(#[trigger] s[i]) by {
            if i < a.len() {
                assert(s[i] == a[i]);
            }
        }
    }
}

/// The fork revision of a tag is the number written after `-linux.`: when
/// the normalized tag is a prefix without `-`, then `-linux.`, then the
/// decimal digits of `n`, its revision is `n`.
pub proof fn law_linux_revision_is_the_number(value: Seq<char>, prefix: Seq<char>, n: u64)
    requires
        normalized_tag(value) == prefix + "-linux."@ + decimal_text(n as nat),
        forall|i: int| 0 <= i < prefix.len() ==> prefix[i] != '-',
    ensures
        linux_revision_spec(value) == Some(n),
        revision(value) == n,
{
    reveal_strlit("-linux.");
    let pat = "-linux."@;
    assert(pat.len() == 7);
    let s = normalized_tag(value);
    let p = prefix.len() as int;
    let d = decimal_text(n as nat);
    assert(s.subrange(p, p + 7) =~= pat);
    assert forall|k: int| 0 <= k < p implies !occurs_at(s, pat, k) by {
        assert(s[k] == prefix[k]);
        if occurs_at(s, pat, k) {
            assert(s.subrange(k, k + 7)[0] == s[k]);
        }
    }
    crate::text::lemma_find_at_or_after(s, pat, 0, Some(p));
    assert(s.subrange(p + 7, s.len() as int) =~= d);
    lemma_decimal_text_value(n as nat);
}

/// Of two tags with the same numeric segments whose normalized forms share
/// a prefix without `-` and end in `-linux.` and a revision number, the one
/// with the larger revision is newer.
pub proof fn law_larger_revision_is_newer(
    a: Seq<char>,
    b: Seq<char>,
    prefix: Seq<char>,
    m: u64,
    n: u64,
)
    requires
        normalized_tag(a) == prefix + "-linux."@ + decimal_text(m as nat),
        normalized_tag(b) == prefix + "-linux."@ + decimal_text(n as nat),
        forall|i: int| 0 <= i < prefix.len() ==> prefix[i] != '-',
        parse_version_spec(a) is Ok,
        parse_version_spec(a) == parse_version_spec(b),
    ensures
        is_newer_spec(a, b) == Ok::<bool, VersionError>(m > n),
{
    law_linux_revision_is_the_number(a, prefix, m);
    law_linux_revision_is_the_number(b, prefix, n);
    let l = parse_version_spec(a)->Ok_0;
    lemma_version_lt_antisym(l, l);
    assert(version_eq(l, l));
}

} // verus!

verus! {

/// A distribution identifier of the Debian family, in any letter case.
pub open spec fn debian_identifier(t: Seq<char>) -> bool {
    lower(t) == "debian"@ || lower(t) == "ubuntu"@ || lower(t) == "linuxmint"@ || lower(t) == "pop"@
}

/// A distribution identifier of the Arch family, in any letter case.
pub open spec fn arch_identifier(t: Seq<char>) -> bool {
    lower(t) == "arch"@ || lower(t) == "archlinux"@ || lower(t) == "cachyos"@ || lower(t) == "manjaro"@
        || lower(t) == "endeavouros"@
}

/// The identifiers of an os-release in the order they are consulted: `ID`,
/// then the whitespace-separated words of `ID_LIKE`.
pub open spec fn os_release_identifiers(contents: Seq<char>) -> Seq<Seq<char>> {
    let lines = text_lines(contents);
    seq![os_release_value(lines, "ID"@)] + split_by(os_release_value(lines, "ID_LIKE"@), ascii_ws_pred())
}

proof fn lemma_family_names()
    ensures
        "debian"@ != "arch"@ && "debian"@ != "archlinux"@ && "debian"@ != "cachyos"@,
        "debian"@ != "manjaro"@ && "debian"@ != "endeavouros"@,
        "ubuntu"@ != "arch"@ && "ubuntu"@ != "archlinux"@ && "ubuntu"@ != "cachyos"@,
        "ubuntu"@ != "manjaro"@ && "ubuntu"@ != "endeavouros"@,
        "linuxmint"@ != "arch"@ && "linuxmint"@ != "archlinux"@ && "linuxmint"@ != "cachyos"@,
        "linuxmint"@ != "manjaro"@ && "linuxmint"@ != "endeavouros"@,
        "pop"@ != "arch"@ && "pop"@ != "archlinux"@ && "pop"@ != "cachyos"@,
        "pop"@ != "manjaro"@ && "pop"@ != "endeavouros"@,
{
    reveal_strlit("debian");
    reveal_strlit("ubuntu");
    reveal_strlit("linuxmint");
    reveal_strlit("pop");
    reveal_strlit("arch");
    reveal_strlit("archlinux");
    reveal_strlit("cachyos");
    reveal_strlit("manjaro");
    reveal_strlit("endeavouros");
    assert("debian"@.len() == 6);
    assert("ubuntu"@.len() == 6);
    assert("linuxmint"@.len() == 9);
    assert("pop"@.len() == 3);
    assert("arch"@.len() == 4);
    assert("archlinux"@.len() == 9);
    assert("cachyos"@.len() == 7);
    assert("manjaro"@.len() == 7);
    assert("endeavouros"@.len() == 11);
    assert("linuxmint"@[0] != "archlinux"@[0]);
}

proof fn lemma_first_family_at(ids: Seq<Seq<char>>, k: int)
    requires
        0 <= k < ids.len(),
        forall|j: int| 0 <= j < k ==> !debian_identifier(#[trigger] ids[j]) && !arch_identifier(ids[j]),
    ensures
        debian_identifier(ids[k]) ==> first_family(ids) == Some(LinuxPackageFamily::Debian),
        arch_identifier(ids[k]) ==> first_family(ids) == Some(LinuxPackageFamily::Arch),
    decreases k,
{
    lemma_family_names();
    if k > 0 {
        assert(!debian_identifier(ids[0]) && !arch_identifier(ids[0]));
        assert(family_of(ids[0]) is None);
        let rest = ids.drop_first();
        assert forall|j: int| 0 <= j < k - 1 implies !debian_identifier(#[trigger] rest[j])
            && !arch_identifier(rest[j]) by {
            assert(rest[j] == ids[j + 1]);
        }
        lemma_first_family_at(rest, k - 1);
        assert(rest[k - 1] == ids[k]);
    }
}

/// An os-release names its package family by the first of its identifiers
/// (`ID`, then the words of `ID_LIKE`) that names one: debian, ubuntu,
/// linuxmint and pop name the Debian family, arch, archlinux, cachyos,
/// manjaro and endeavouros the Arch family, in any letter case. When none
/// does, the family is unknown.
pub proof fn law_os_release_family(contents: Seq<char>, k: int)
    requires
        0 <= k < os_release_identifiers(contents).len(),
        forall|j: int|
            0 <= j < k ==> !debian_identifier(#[trigger] os_release_identifiers(contents)[j])
                && !arch_identifier(os_release_identifiers(contents)[j]),
    ensures
        debian_identifier(os_release_identifiers(contents)[k]) ==> classify_spec(contents)
            == LinuxPackageFamily::Debian,
        arch_identifier(os_release_identifiers(contents)[k]) ==> classify_spec(contents)
            == LinuxPackageFamily::Arch,
{
    lemma_first_family_at(os_release_identifiers(contents), k);
}

proof fn lemma_no_family(ids: Seq<Seq<char>>)
    requires
        forall|j: int| 0 <= j < ids.len() ==> !debian_identifier(#[trigger] ids[j]) && !arch_identifier(ids[j]),
    ensures
        first_family(ids) is None,
    decreases ids.len(),
{
    if ids.len() > 0 {
        assert(!debian_identifier(ids[0]) && !arch_identifier(ids[0]));
        let rest = ids.drop_first();
        assert forall|j: int| 0 <= j < rest.len() implies !debian_identifier(#[trigger] rest[j])
            && !arch_identifier(rest[j]) by {
            assert(rest[j] == ids[j + 1]);
        }
        lemma_no_family(rest);
    }
}

/// An os-release none of whose identifiers names a Debian or Arch
/// distribution has an unknown package family.
pub proof fn law_os_release_unknown_family(contents: Seq<char>)
    requires
        forall|j: int|
            0 <= j < os_release_identifiers(contents).len() ==> !debian_identifier(
                #[trigger] os_release_identifiers(contents)[j],
            ) && !arch_identifier(os_release_identifiers(contents)[j]),
    ensures
        classify_spec(contents) == LinuxPackageFamily::Unknown,
{
    lemma_no_family(os_release_identifiers(contents));
}

} // verus!
