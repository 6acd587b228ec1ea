//! Character-level string model used by the rest of the library.
//!
//! Strings are specified through their `Seq<char>` views; the executable
//! helpers here are proved against the spec functions of this module.

use vstd::prelude::*;
use vstd::string::StrSliceExecFns;

verus! {

/// Unicode `White_Space` property, as used by `str::trim` and `char::is_whitespace`.
pub open spec fn is_ws(c: char) -> bool {
    let u = c as u32;
    (0x09 <= u && u <= 0x0d) || u == 0x20 || u == 0x85 || u == 0xa0 || u == 0x1680 || (0x2000 <= u
        && u <= 0x200a) || u == 0x2028 || u == 0x2029 || u == 0x202f || u == 0x205f || u == 0x3000
}

/// ASCII whitespace as used by `split_ascii_whitespace`.
pub open spec fn is_ascii_ws(c: char) -> bool {
    c == ' ' || c == '\t' || c == '\n' || c == '\x0C' || c == '\r'
}

pub open spec fn is_digit(c: char) -> bool {
    '0' <= c && c <= '9'
}

pub open spec fn lower_char(c: char) -> char {
    if 'A' <= c && c <= 'Z' {
        ((c as u32) + 32) as char
    } else {
        c
    }
}

pub open spec fn lower(s: Seq<char>) -> Seq<char> {
    s.map_values(|c: char| lower_char(c))
}

pub open spec fn trim_start(s: Seq<char>) -> Seq<char>
    decreases s.len(),
{
    if s.len() > 0 && is_ws(s[0]) {
        trim_start(s.drop_first())
    } else {
        s
    }
}

pub open spec fn trim_end(s: Seq<char>) -> Seq<char>
    decreases s.len(),
{
    if s.len() > 0 && is_ws(s.last()) {
        trim_end(s.drop_last())
    } else {
        s
    }
}

/// `str::trim`: both ends stripped of Unicode whitespace.
pub open spec fn trim(s: Seq<char>) -> Seq<char> {
    trim_end(trim_start(s))
}

/// A string that is empty once trimmed.
pub open spec fn is_blank(s: Seq<char>) -> bool {
    trim(s).len() == 0
}

pub open spec fn occurs_at(s: Seq<char>, p: Seq<char>, i: int) -> bool {
    0 <= i && i + p.len() <= s.len() && s.subrange(i, i + p.len()) == p
}

pub open spec fn starts_with(s: Seq<char>, p: Seq<char>) -> bool {
    occurs_at(s, p, 0)
}

pub open spec fn ends_with(s: Seq<char>, p: Seq<char>) -> bool {
    occurs_at(s, p, s.len() - p.len())
}

pub open spec fn contains(s: Seq<char>, p: Seq<char>) -> bool {
    exists|i: int| occurs_at(s, p, i)
}

/// Pieces of `s` between separators, as `str::split` with a character predicate.
pub open spec fn split_by(s: Seq<char>, sep: spec_fn(char) -> bool) -> Seq<Seq<char>>
    decreases s.len(),
{
    if s.len() == 0 {
        seq![Seq::<char>::empty()]
    } else {
        let r = split_by(s.drop_last(), sep);
        if sep(s.last()) {
            r.push(Seq::<char>::empty())
        } else {
            r.update(r.len() - 1, r.last().push(s.last()))
        }
    }
}

/// The predicate "is the character `c`".
pub open spec fn is_char(c: char) -> spec_fn(char) -> bool {
    |x: char| x == c
}

pub open spec fn split_char(s: Seq<char>, c: char) -> Seq<Seq<char>> {
    split_by(s, is_char(c))
}

pub proof fn lemma_split_by_nonempty(s: Seq<char>, sep: spec_fn(char) -> bool)
    ensures
        split_by(s, sep).len() >= 1,
    decreases s.len(),
{
    if s.len() > 0 {
        lemma_split_by_nonempty(s.drop_last(), sep);
    }
}

/// No piece of a split holds a separator.
pub proof fn lemma_split_by_pieces_clean(s: Seq<char>, sep: spec_fn(char) -> bool)
    ensures
        forall|k: int, i: int|
            0 <= k < split_by(s, sep).len() && 0 <= i < split_by(s, sep)[k].len() ==> !sep(
                #[trigger] split_by(s, sep)[k][i],
            ),
    decreases s.len(),
{
    if s.len() > 0 {
        lemma_split_by_pieces_clean(s.drop_last(), sep);
        lemma_split_by_nonempty(s.drop_last(), sep);
        let r = split_by(s.drop_last(), sep);
        let t = split_by(s, sep);
        if !sep(s.last()) {
            assert forall|k: int, i: int| 0 <= k < t.len() && 0 <= i < t[k].len() implies !sep(
                #[trigger] t[k][i],
            ) by {
                if k < r.len() - 1 {
                    assert(t[k] == r[k]);
                } else {
                    assert(t[k] == r.last().push(s.last()));
                    if i < r.last().len() {
                        assert(t[k][i] == r[r.len() - 1][i]);
                    }
                }
            }
        } else {
            assert forall|k: int, i: int| 0 <= k < t.len() && 0 <= i < t[k].len() implies !sep(
                #[trigger] t[k][i],
            ) by {
                assert(t[k] == r[k]);
            }
        }
    }
}

/// Unfolds `split_by` at a prefix boundary: the split of `s[..i+1]` from the split of `s[..i]`.
pub proof fn lemma_split_by_step(s: Seq<char>, sep: spec_fn(char) -> bool, i: int)
    requires
        0 <= i < s.len(),
    ensures
        split_by(s.subrange(0, i + 1), sep) == (if sep(s[i]) {
            split_by(s.subrange(0, i), sep).push(Seq::<char>::empty())
        } else {
            let r = split_by(s.subrange(0, i), sep);
            r.update(r.len() - 1, r.last().push(s[i]))
        }),
{
    let t = s.subrange(0, i + 1);
    assert(t.drop_last() == s.subrange(0, i));
    assert(t.last() == s[i]);
}

pub fn is_whitespace_char(c: char) -> (r: bool)
    ensures
        r == is_ws(c),
{
    let u = c as u32;
    (0x09 <= u && u <= 0x0d) || u == 0x20 || u == 0x85 || u == 0xa0 || u == 0x1680 || (0x2000 <= u
        && u <= 0x200a) || u == 0x2028 || u == 0x2029 || u == 0x202f || u == 0x205f || u == 0x3000
}

pub fn is_ascii_whitespace_char(c: char) -> (r: bool)
    ensures
        r == is_ascii_ws(c),
{
    c == ' ' || c == '\t' || c == '\n' || c == '\x0C' || c == '\r'
}

pub fn lower_char_exec(c: char) -> (r: char)
    ensures
        r == lower_char(c),
{
    if 'A' <= c && c <= 'Z' {
        let u: u32 = c as u32;
        let l: u32 = u + 32;
        assert(0x61 <= l && l <= 0x7a);
        char_from_ascii(l)
    } else {
        c
    }
}

/// A code point below 0x80 as a character.
pub fn char_from_ascii(u: u32) -> (c: char)
    requires
        u < 0x80,
    ensures
        c == u as char,
{
    let b: u8 = u as u8;
    b as char
}

/// `String::push`: appends one character to the string.
#[verifier::external_body]
pub(crate) fn push_char(s: &mut String, c: char)
    ensures
        final(s)@ == old(s)@.push(c),
{
    s.push(c)
}

/// The characters of `s` as a vector.
pub fn chars_of(s: &str) -> (v: Vec<char>)
    ensures
        v@ == s@,
{
    let n = s.unicode_len();
    let mut v: Vec<char> = Vec::new();
    let mut i: usize = 0;
    while i < n
        invariant
            n == s@.len(),
            i <= n,
            v@ == s@.subrange(0, i as int),
        decreases n - i,
    {
        v.push(s.get_char(i));
        i = i + 1;
    }
    v
}

/// A string holding the characters `v[from..to]`.
pub fn string_of(v: &Vec<char>, from: usize, to: usize) -> (s: String)
    requires
        from <= to <= v@.len(),
    ensures
        s@ == v@.subrange(from as int, to as int),
{
    let mut s = String::new();
    let mut i = from;
    while i < to
        invariant
            from <= i <= to <= v@.len(),
            s@ == v@.subrange(from as int, i as int),
        decreases to - i,
    {
        push_char(&mut s, v[i]);
        assert(v@.subrange(from as int, i + 1) == v@.subrange(from as int, i as int).push(v@[i as int]));
        i = i + 1;
    }
    s
}

/// A string holding all of `v`.
pub fn string_of_all(v: &Vec<char>) -> (s: String)
    ensures
        s@ == v@,
{
    let s = string_of(v, 0, v.len());
    assert(v@.subrange(0, v@.len() as int) == v@);
    s
}

/// Character-wise equality of two string slices.
pub fn str_eq(a: &str, b: &str) -> (r: bool)
    ensures
        r == (a@ == b@),
{
    let n = a.unicode_len();
    let m = b.unicode_len();
    if n != m {
        return false;
    }
    let mut i: usize = 0;
    while i < n
        invariant
            n == a@.len(),
            m == b@.len(),
            n == m,
            i <= n,
            a@.subrange(0, i as int) == b@.subrange(0, i as int),
        decreases n - i,
    {
        if a.get_char(i) != b.get_char(i) {
            assert(a@[i as int] != b@[i as int]);
            return false;
        }
        assert(a@.subrange(0, i + 1) == a@.subrange(0, i as int).push(a@[i as int]));
        assert(b@.subrange(0, i + 1) == b@.subrange(0, i as int).push(b@[i as int]));
        i = i + 1;
    }
    assert(a@ == a@.subrange(0, n as int));
    assert(b@ == b@.subrange(0, n as int));
    true
}

/// Whether `p` occurs in `s` at character index `i`.
pub fn occurs_at_vec(s: &Vec<char>, p: &Vec<char>, i: usize) -> (r: bool)
    ensures
        r == occurs_at(s@, p@, i as int),
{
    if i > s.len() || p.len() > s.len() - i {
        return false;
    }
    let mut j: usize = 0;
    while j < p.len()
        invariant
            i + p.len() <= s.len(),
            j <= p@.len(),
            forall|k: int| 0 <= k < j ==> s@[i + k] == p@[k],
        decreases p.len() - j,
    {
        if s[i + j] != p[j] {
            assert(s@.subrange(i as int, i + p@.len())[j as int] != p@[j as int]);
            return false;
        }
        j = j + 1;
    }
    assert(s@.subrange(i as int, i + p@.len()) =~= p@);
    true
}

/// First index at or after `from` where `p` occurs in `s`.
pub fn find_from_vec(s: &Vec<char>, p: &Vec<char>, from: usize) -> (r: Option<usize>)
    ensures
        match r {
            Some(i) => from <= i && occurs_at(s@, p@, i as int) && forall|k: int|
                from <= k < i ==> !occurs_at(s@, p@, k),
            None => forall|k: int| from <= k ==> !occurs_at(s@, p@, k),
        },
{
    let mut i = from;
    loop
        invariant
            from <= i,
            forall|k: int| from <= k < i ==> !occurs_at(s@, p@, k),
        decreases s.len() + 1 - i,
    {
        if occurs_at_vec(s, p, i) {
            return Some(i);
        }
        if i >= s.len() {
            assert forall|k: int| from <= k implies !occurs_at(s@, p@, k) by {
                if k > i {
                    assert(k + p@.len() > s@.len());
                }
            }
            return None;
        }
        i = i + 1;
    }
}

/// Index range of `s` that `str::trim` keeps.
pub fn trim_range_vec(s: &Vec<char>) -> (r: (usize, usize))
    ensures
        r.0 <= r.1 <= s@.len(),
        s@.subrange(r.0 as int, r.1 as int) == trim(s@),
{
    let n = s.len();
    let mut a: usize = 0;
    assert(s@.subrange(0, n as int) == s@);
    while a < n && is_whitespace_char(s[a])
        invariant
            n == s@.len(),
            a <= n,
            trim_start(s@) == trim_start(s@.subrange(a as int, n as int)),
        decreases n - a,
    {
        let ghost t = s@.subrange(a as int, n as int);
        assert(t.drop_first() == s@.subrange(a + 1, n as int));
        a = a + 1;
    }
    let ghost ts = s@.subrange(a as int, n as int);
    assert(trim_start(ts) == ts);
    let mut b: usize = n;
    while b > a && is_whitespace_char(s[b - 1])
        invariant
            n == s@.len(),
            a <= b <= n,
            trim_start(s@) == s@.subrange(a as int, n as int),
            trim_end(s@.subrange(a as int, n as int)) == trim_end(s@.subrange(a as int, b as int)),
        decreases b - a,
    {
        let ghost t = s@.subrange(a as int, b as int);
        assert(t.drop_last() == s@.subrange(a as int, b - 1));
        b = b - 1;
    }
    let ghost tb = s@.subrange(a as int, b as int);
    assert(trim_end(tb) == tb);
    (a, b)
}

/// `str::trim` into an owned string.
pub fn trimmed(s: &str) -> (r: String)
    ensures
        r@ == trim(s@),
{
    let v = chars_of(s);
    let (a, b) = trim_range_vec(&v);
    string_of(&v, a, b)
}

/// Whether `s` is empty once trimmed.
pub fn is_blank_str(s: &str) -> (r: bool)
    ensures
        r == is_blank(s@),
{
    let v = chars_of(s);
    let (a, b) = trim_range_vec(&v);
    a == b
}

} // verus!

verus! {

/// Leading run of `s` whose characters satisfy `p` is removed.
pub open spec fn drop_while(s: Seq<char>, p: spec_fn(char) -> bool) -> Seq<char>
    decreases s.len(),
{
    if s.len() > 0 && p(s[0]) {
        drop_while(s.drop_first(), p)
    } else {
        s
    }
}

/// Longest prefix of `s` whose characters satisfy `p`.
pub open spec fn take_while(s: Seq<char>, p: spec_fn(char) -> bool) -> Seq<char>
    decreases s.len(),
{
    if s.len() > 0 && p(s[0]) {
        seq![s[0]] + take_while(s.drop_first(), p)
    } else {
        Seq::<char>::empty()
    }
}

/// Trailing run of `s` whose characters satisfy `p` is removed.
pub open spec fn drop_while_end(s: Seq<char>, p: spec_fn(char) -> bool) -> Seq<char>
    decreases s.len(),
{
    if s.len() > 0 && p(s.last()) {
        drop_while_end(s.drop_last(), p)
    } else {
        s
    }
}

pub proof fn lemma_drop_take_while(s: Seq<char>, p: spec_fn(char) -> bool, k: int)
    requires
        0 <= k <= s.len(),
        forall|i: int| 0 <= i < k ==> p(s[i]),
        k == s.len() || !p(s[k]),
    ensures
        drop_while(s, p) == s.subrange(k, s.len() as int),
        take_while(s, p) == s.subrange(0, k),
    decreases k,
{
    if k > 0 {
        let t = s.drop_first();
        assert forall|i: int| 0 <= i < k - 1 implies p(t[i]) by {
            assert(t[i] == s[i + 1]);
        }
        if k < s.len() {
            assert(t[k - 1] == s[k]);
        }
        lemma_drop_take_while(t, p, k - 1);
        assert(t.subrange(k - 1, t.len() as int) == s.subrange(k, s.len() as int));
        assert(seq![s[0]] + t.subrange(0, k - 1) == s.subrange(0, k));
    } else {
        assert(s.subrange(0, s.len() as int) == s);
    }
}

pub proof fn lemma_drop_while_end(s: Seq<char>, p: spec_fn(char) -> bool, k: int)
    requires
        0 <= k <= s.len(),
        forall|i: int| k <= i < s.len() ==> p(s[i]),
        k == 0 || !p(s[k - 1]),
    ensures
        drop_while_end(s, p) == s.subrange(0, k),
    decreases s.len() - k,
{
    if k < s.len() {
        let t = s.drop_last();
        assert forall|i: int| k <= i < t.len() implies p(t[i]) by {
            assert(t[i] == s[i]);
        }
        if k > 0 {
            assert(t[k - 1] == s[k - 1]);
        }
        lemma_drop_while_end(t, p, k);
        assert(t.subrange(0, k) == s.subrange(0, k));
    } else {
        assert(s.subrange(0, k) == s);
    }
}

/// The views of a vector of character vectors.
pub open spec fn vviews(v: Seq<Vec<char>>) -> Seq<Seq<char>> {
    Seq::new(v.len(), |i: int| v[i]@)
}

/// Numeric value of a string of decimal digits.
pub open spec fn decimal(s: Seq<char>) -> int
    decreases s.len(),
{
    if s.len() == 0 {
        0
    } else {
        decimal(s.drop_last()) * 10 + (s.last() as int - '0' as int)
    }
}

pub open spec fn all_digits(s: Seq<char>) -> bool {
    forall|i: int| 0 <= i < s.len() ==> is_digit(#[trigger] s[i])
}

/// `s` is accepted by `str::parse::<u64>` without a sign.
pub open spec fn valid_u64_digits(s: Seq<char>) -> bool {
    s.len() > 0 && all_digits(s) && decimal(s) <= u64::MAX
}

pub proof fn lemma_decimal_nonneg(s: Seq<char>)
    requires
        all_digits(s),
    ensures
        decimal(s) >= 0,
    decreases s.len(),
{
    if s.len() > 0 {
        lemma_decimal_nonneg(s.drop_last());
    }
}

/// Appending digits never decreases the value of a digit string.
pub proof fn lemma_decimal_monotonic(s: Seq<char>, k: int)
    requires
        all_digits(s),
        0 <= k <= s.len(),
    ensures
        decimal(s.subrange(0, k)) <= decimal(s),
    decreases s.len() - k,
{
    if k < s.len() {
        lemma_decimal_monotonic(s.drop_last(), k);
        assert(s.drop_last().subrange(0, k) == s.subrange(0, k));
        lemma_decimal_nonneg(s.drop_last());
        assert(is_digit(s[s.len() - 1]));
    } else {
        assert(s.subrange(0, k) == s);
    }
}

/// `s[from..to]` parsed as an unsigned decimal number (digits only).
pub fn parse_u64_digits(s: &Vec<char>, from: usize, to: usize) -> (r: Option<u64>)
    requires
        from <= to <= s@.len(),
    ensures
        match r {
            Some(n) => valid_u64_digits(s@.subrange(from as int, to as int)) && n == decimal(
                s@.subrange(from as int, to as int),
            ),
            None => !valid_u64_digits(s@.subrange(from as int, to as int)),
        },
{
    let ghost t = s@.subrange(from as int, to as int);
    if from == to {
        return None;
    }
    let mut v: u64 = 0;
    let mut i = from;
    while i < to
        invariant
            from <= i <= to <= s@.len(),
            t == s@.subrange(from as int, to as int),
            all_digits(s@.subrange(from as int, i as int)),
            v == decimal(s@.subrange(from as int, i as int)),
        decreases to - i,
    {
        let c = s[i];
        let ghost p = s@.subrange(from as int, i + 1);
        assert(p.drop_last() == s@.subrange(from as int, i as int));
        assert(p.last() == c);
        if !('0' <= c && c <= '9') {
            assert(t[i - from] == c);
            return None;
        }
        let d: u64 = (c as u32 - '0' as u32) as u64;
        match v.checked_mul(10) {
            Some(m) => match m.checked_add(d) {
                Some(nv) => {
                    v = nv;
                },
                None => {
                    proof {
                        assert(all_digits(p));
                        if all_digits(t) {
                            assert(p == t.subrange(0, i + 1 - from));
                            lemma_decimal_monotonic(t, i + 1 - from);
                        }
                    }
                    return None;
                },
            },
            None => {
                proof {
                    assert(all_digits(p));
                    lemma_decimal_nonneg(s@.subrange(from as int, i as int));
                    if all_digits(t) {
                        assert(p == t.subrange(0, i + 1 - from));
                        lemma_decimal_monotonic(t, i + 1 - from);
                    }
                }
                return None;
            },
        }
        i = i + 1;
    }
    Some(v)
}

/// Splits `s` at every occurrence of `c`, as `str::split` with a character.
pub fn split_char_vec(s: &Vec<char>, c: char) -> (r: Vec<Vec<char>>)
    ensures
        vviews(r@) == split_char(s@, c),
{
    let mut parts: Vec<Vec<char>> = Vec::new();
    let mut cur: Vec<char> = Vec::new();
    let mut i: usize = 0;
    assert(s@.subrange(0, 0) =~= Seq::<char>::empty());
    assert(vviews(parts@).push(cur@) =~= seq![Seq::<char>::empty()]);
    while i < s.len()
        invariant
            i <= s@.len(),
            vviews(parts@).push(cur@) == split_char(s@.subrange(0, i as int), c),
        decreases s.len() - i,
    {
        proof {
            lemma_split_by_step(s@, is_char(c), i as int);
        }
        if s[i] == c {
            let done = cur;
            parts.push(done);
            cur = Vec::new();
            assert(vviews(parts@).push(cur@) =~= split_char(s@.subrange(0, i + 1), c));
        } else {
            let ghost old_cur = cur@;
            cur.push(s[i]);
            assert(vviews(parts@).push(cur@) =~= split_char(s@.subrange(0, i + 1), c));
        }
        i = i + 1;
    }
    assert(s@.subrange(0, s@.len() as int) == s@);
    parts.push(cur);
    assert(vviews(parts@) =~= split_char(s@, c));
    parts
}

/// Splits `s` at ASCII whitespace, keeping empty pieces.
pub fn split_ascii_ws_vec(s: &Vec<char>) -> (r: Vec<Vec<char>>)
    ensures
        vviews(r@) == split_by(s@, |x: char| is_ascii_ws(x)),
{
    let ghost sep = |x: char| is_ascii_ws(x);
    let mut parts: Vec<Vec<char>> = Vec::new();
    let mut cur: Vec<char> = Vec::new();
    let mut i: usize = 0;
    assert(s@.subrange(0, 0) =~= Seq::<char>::empty());
    assert(vviews(parts@).push(cur@) =~= seq![Seq::<char>::empty()]);
    while i < s.len()
        invariant
            i <= s@.len(),
            sep == (|x: char| is_ascii_ws(x)),
            vviews(parts@).push(cur@) == split_by(s@.subrange(0, i as int), sep),
        decreases s.len() - i,
    {
        proof {
            lemma_split_by_step(s@, sep, i as int);
        }
        if is_ascii_whitespace_char(s[i]) {
            let done = cur;
            parts.push(done);
            cur = Vec::new();
            assert(vviews(parts@).push(cur@) =~= split_by(s@.subrange(0, i + 1), sep));
        } else {
            cur.push(s[i]);
            assert(vviews(parts@).push(cur@) =~= split_by(s@.subrange(0, i + 1), sep));
        }
        i = i + 1;
    }
    assert(s@.subrange(0, s@.len() as int) == s@);
    parts.push(cur);
    assert(vviews(parts@) =~= split_by(s@, sep));
    parts
}

} // verus!

verus! {

/// A vector holding `v[from..to]`.
pub fn subvec(v: &Vec<char>, from: usize, to: usize) -> (r: Vec<char>)
    requires
        from <= to <= v@.len(),
    ensures
        r@ == v@.subrange(from as int, to as int),
{
    let mut r: Vec<char> = Vec::new();
    let mut i = from;
    while i < to
        invariant
            from <= i <= to <= v@.len(),
            r@ == v@.subrange(from as int, i as int),
        decreases to - i,
    {
        r.push(v[i]);
        assert(v@.subrange(from as int, i + 1) == v@.subrange(from as int, i as int).push(v@[i as int]));
        i = i + 1;
    }
    r
}

/// First index at or after `i` where `p` occurs in `s`.
pub open spec fn find_at_or_after(s: Seq<char>, p: Seq<char>, i: int) -> Option<int>
    decreases s.len() + 1 - i,
{
    if i < 0 || i > s.len() {
        None
    } else if occurs_at(s, p, i) {
        Some(i)
    } else {
        find_at_or_after(s, p, i + 1)
    }
}

/// Index of the first occurrence of `p` in `s` (`str::find` / `split_once`).
pub open spec fn first_occurrence(s: Seq<char>, p: Seq<char>) -> Option<int> {
    find_at_or_after(s, p, 0)
}

pub proof fn lemma_find_at_or_after(s: Seq<char>, p: Seq<char>, from: int, r: Option<int>)
    requires
        0 <= from,
        match r {
            Some(i) => from <= i && occurs_at(s, p, i) && forall|k: int|
                from <= k < i ==> !occurs_at(s, p, k),
            None => forall|k: int| from <= k ==> !occurs_at(s, p, k),
        },
    ensures
        find_at_or_after(s, p, from) == r,
    decreases s.len() + 1 - from,
{
    if from <= s.len() {
        match r {
            Some(i) => {
                if i > from {
                    lemma_find_at_or_after(s, p, from + 1, r);
                }
            },
            None => {
                lemma_find_at_or_after(s, p, from + 1, r);
            },
        }
    } else {
        match r {
            Some(i) => {
                assert(occurs_at(s, p, i));
            },
            None => {},
        }
    }
}

} // verus!

verus! {

pub fn contains_vec(s: &Vec<char>, p: &Vec<char>) -> (r: bool)
    ensures
        r == contains(s@, p@),
{
    match find_from_vec(s, p, 0) {
        Some(i) => true,
        None => {
            assert forall|k: int| !occurs_at(s@, p@, k) by {
                if k >= 0 {
                }
            }
            false
        },
    }
}

pub fn ends_with_vec(s: &Vec<char>, p: &Vec<char>) -> (r: bool)
    ensures
        r == ends_with(s@, p@),
{
    if p.len() > s.len() {
        return false;
    }
    occurs_at_vec(s, p, s.len() - p.len())
}

pub fn starts_with_vec(s: &Vec<char>, p: &Vec<char>) -> (r: bool)
    ensures
        r == starts_with(s@, p@),
{
    occurs_at_vec(s, p, 0)
}

/// Whether `s` contains the literal `p`.
pub fn has(s: &Vec<char>, p: &str) -> (r: bool)
    ensures
        r == contains(s@, p@),
{
    let pv = chars_of(p);
    contains_vec(s, &pv)
}

/// Whether `s` ends with the literal `p`.
pub fn ends(s: &Vec<char>, p: &str) -> (r: bool)
    ensures
        r == ends_with(s@, p@),
{
    let pv = chars_of(p);
    ends_with_vec(s, &pv)
}

/// Whether `s` starts with the literal `p`.
pub fn starts(s: &Vec<char>, p: &str) -> (r: bool)
    ensures
        r == starts_with(s@, p@),
{
    let pv = chars_of(p);
    starts_with_vec(s, &pv)
}

/// The characters `a`, then `t`, then `b`.
pub fn surround(a: char, t: &str, b: char) -> (r: Vec<char>)
    ensures
        r@ == seq![a] + t@ + seq![b],
{
    let mut r: Vec<char> = Vec::new();
    r.push(a);
    let tv = chars_of(t);
    let mut i: usize = 0;
    while i < tv.len()
        invariant
            tv@ == t@,
            i <= tv@.len(),
            r@ == seq![a] + t@.subrange(0, i as int),
        decreases tv.len() - i,
    {
        r.push(tv[i]);
        assert(t@.subrange(0, i + 1) == t@.subrange(0, i as int).push(t@[i as int]));
        i = i + 1;
    }
    assert(t@.subrange(0, t@.len() as int) == t@);
    r.push(b);
    r
}

/// Characters of the string, lowercased in the ASCII range.
pub fn lower_vec(s: &str) -> (r: Vec<char>)
    ensures
        r@ == lower(s@),
{
    let v = chars_of(s);
    let mut r: Vec<char> = Vec::new();
    let mut i: usize = 0;
    while i < v.len()
        invariant
            v@ == s@,
            i <= v@.len(),
            r@ == lower(s@.subrange(0, i as int)),
        decreases v.len() - i,
    {
        let c = lower_char_exec(v[i]);
        r.push(c);
        assert(lower(s@.subrange(0, i + 1)) =~= lower(s@.subrange(0, i as int)).push(c));
        i = i + 1;
    }
    assert(s@.subrange(0, v@.len() as int) == s@);
    r
}

} // verus!

verus! {

/// Whether the characters of `v` are exactly those of `s`.
pub fn vec_eq_str(v: &Vec<char>, s: &str) -> (r: bool)
    ensures
        r == (v@ == s@),
{
    let sv = chars_of(s);
    if sv.len() != v.len() {
        return false;
    }
    let mut i: usize = 0;
    while i < v.len()
        invariant
            sv@ == s@,
            sv@.len() == v@.len(),
            i <= v@.len(),
            forall|k: int| 0 <= k < i ==> v@[k] == sv@[k],
        decreases v.len() - i,
    {
        if v[i] != sv[i] {
            return false;
        }
        i = i + 1;
    }
    assert(v@ =~= sv@);
    true
}

/// Index range of `v` that `drop_while`/`drop_while_end` with quote characters keep.
pub open spec fn is_quote(c: char) -> bool {
    c == '\'' || c == '"'
}

pub open spec fn quote_pred() -> spec_fn(char) -> bool {
    |c: char| is_quote(c)
}

/// `str::trim_matches` with single and double quotes.
pub open spec fn strip_quotes(s: Seq<char>) -> Seq<char> {
    drop_while_end(drop_while(s, quote_pred()), quote_pred())
}

pub fn strip_quotes_vec(v: &Vec<char>) -> (r: Vec<char>)
    ensures
        r@ == strip_quotes(v@),
{
    let n = v.len();
    let mut a: usize = 0;
    while a < n && (v[a] == '\'' || v[a] == '"')
        invariant
            n == v@.len(),
            a <= n,
            forall|k: int| 0 <= k < a ==> is_quote(v@[k]),
        decreases n - a,
    {
        a = a + 1;
    }
    proof {
        lemma_drop_take_while(v@, quote_pred(), a as int);
    }
    let ghost t = v@.subrange(a as int, n as int);
    let mut b: usize = n;
    while b > a && (v[b - 1] == '\'' || v[b - 1] == '"')
        invariant
            n == v@.len(),
            a <= b <= n,
            forall|k: int| b <= k < n ==> is_quote(v@[k]),
        decreases b - a,
    {
        b = b - 1;
    }
    proof {
        assert forall|k: int| b - a <= k < t.len() implies quote_pred()(t[k]) by {
            assert(t[k] == v@[a + k]);
        }
        if b > a {
            assert(t[b - a - 1] == v@[b - 1]);
        }
        lemma_drop_while_end(t, quote_pred(), b - a);
        assert(t.subrange(0, b - a) == v@.subrange(a as int, b as int));
    }
    subvec(v, a, b)
}

/// `str::trim` on a character vector.
pub fn trim_vec(v: &Vec<char>) -> (r: Vec<char>)
    ensures
        r@ == trim(v@),
{
    let (a, b) = trim_range_vec(v);
    subvec(v, a, b)
}

pub open spec fn strip_cr(l: Seq<char>) -> Seq<char> {
    if l.len() > 0 && l.last() == '\r' {
        l.drop_last()
    } else {
        l
    }
}

/// `str::lines`: pieces between `\n`, each without a trailing `\r`, and no
/// final empty piece after a trailing newline.
pub open spec fn text_lines(s: Seq<char>) -> Seq<Seq<char>> {
    let p = split_char(s, '\n');
    let body = Seq::new((p.len() - 1) as nat, |i: int| strip_cr(p[i]));
    if p.last().len() == 0 {
        body
    } else {
        body.push(p.last())
    }
}

pub fn text_lines_vec(s: &Vec<char>) -> (r: Vec<Vec<char>>)
    ensures
        vviews(r@) == text_lines(s@),
{
    let pieces = split_char_vec(s, '\n');
    proof {
        lemma_split_by_nonempty(s@, is_char('\n'));
    }
    let ghost p = split_char(s@, '\n');
    assert(pieces@.len() == p.len());
    let mut out: Vec<Vec<char>> = Vec::new();
    let mut k: usize = 0;
    let last_index = pieces.len() - 1;
    while k < last_index
        invariant
            vviews(pieces@) == p,
            p.len() >= 1,
            last_index == pieces@.len() - 1,
            k <= last_index,
            out@.len() == k,
            forall|i: int| 0 <= i < k ==> #[trigger] out@[i]@ == strip_cr(p[i]),
        decreases last_index - k,
    {
        let piece = &pieces[k];
        assert(piece@ == p[k as int]);
        let line = if piece.len() > 0 && piece[piece.len() - 1] == '\r' {
            subvec(piece, 0, piece.len() - 1)
        } else {
            subvec(piece, 0, piece.len())
        };
        assert(line@ == strip_cr(p[k as int]));
        out.push(line);
        k = k + 1;
    }
    let last = &pieces[last_index];
    assert(last@ == p.last());
    let ghost body = Seq::new((p.len() - 1) as nat, |i: int| strip_cr(p[i]));
    if last.len() > 0 {
        let copy = subvec(last, 0, last.len());
        assert(last@.subrange(0, last@.len() as int) == last@);
        assert(copy@ == p.last());
        out.push(copy);
        assert(vviews(out@) =~= body.push(p.last()));
    } else {
        assert(vviews(out@) =~= body);
    }
    out
}

} // verus!

verus! {

pub open spec fn digit_char(d: int) -> char {
    (d + 48) as char
}

/// Decimal representation of `n`, without leading zeros.
pub open spec fn decimal_text(n: nat) -> Seq<char>
    decreases n,
{
    if n < 10 {
        seq![digit_char(n as int)]
    } else {
        decimal_text(n / 10) + seq![digit_char((n % 10) as int)]
    }
}

/// `n.to_string()`.
pub fn decimal_string(n: u64) -> (s: String)
    ensures
        s@ == decimal_text(n as nat),
    decreases n,
{
    if n < 10 {
        let mut s = String::new();
        let c = char_from_ascii((n + 48) as u32);
        push_char(&mut s, c);
        assert(s@ =~= seq![digit_char(n as int)]);
        s
    } else {
        let mut s = decimal_string(n / 10);
        let c = char_from_ascii((n % 10 + 48) as u32);
        push_char(&mut s, c);
        s
    }
}

} // verus!
