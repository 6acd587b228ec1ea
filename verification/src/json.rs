//! A JSON document model that the library's logic reads and builds.
//!
//! `Json` is the executable value; `JsonValue` is its mathematical view, with
//! strings as `Seq<char>` and objects as sequences of key/value entries in
//! insertion order.

use vstd::prelude::*;
use crate::text::str_eq;

verus! {

/// An executable JSON value. Numbers keep the shape they had when parsed:
/// a non-negative integer, a negative integer, or the text of any other number.
#[derive(Debug, PartialEq)]
pub enum Json {
    Null,
    Bool(bool),
    UInt(u64),
    Int(i64),
    Float(String),
    Str(String),
    Array(Vec<Json>),
    Object(Vec<(String, Json)>),
}

/// The view of a [`Json`] value.
pub enum JsonValue {
    Null,
    Bool(bool),
    UInt(u64),
    Int(i64),
    Float(Seq<char>),
    Str(Seq<char>),
    Array(Seq<JsonValue>),
    Object(Seq<(Seq<char>, JsonValue)>),
}

pub open spec fn json_view(j: Json) -> JsonValue
    decreases j,
{
    match j {
        Json::Null => JsonValue::Null,
        Json::Bool(b) => JsonValue::Bool(b),
        Json::UInt(n) => JsonValue::UInt(n),
        Json::Int(n) => JsonValue::Int(n),
        Json::Float(s) => JsonValue::Float(s@),
        Json::Str(s) => JsonValue::Str(s@),
        Json::Array(v) => JsonValue::Array(
            Seq::new(
                v@.len(),
                |i: int|
                    if 0 <= i < v@.len() {
                        json_view(v@[i])
                    } else {
                        JsonValue::Null
                    },
            ),
        ),
        Json::Object(v) => JsonValue::Object(
            Seq::new(
                v@.len(),
                |i: int|
                    if 0 <= i < v@.len() {
                        (v@[i].0@, json_view(v@[i].1))
                    } else {
                        (Seq::<char>::empty(), JsonValue::Null)
                    },
            ),
        ),
    }
}

impl View for Json {
    type V = JsonValue;

    open spec fn view(&self) -> JsonValue {
        json_view(*self)
    }
}

/// The views of a vector of values.
pub open spec fn views(v: Seq<Json>) -> Seq<JsonValue> {
    Seq::new(v.len(), |i: int| json_view(v[i]))
}

/// The views of a vector of object entries.
pub open spec fn entry_views(v: Seq<(String, Json)>) -> Seq<(Seq<char>, JsonValue)> {
    Seq::new(v.len(), |i: int| (v[i].0@, json_view(v[i].1)))
}

/// The value of the first entry with key `k`.
pub open spec fn entries_get(es: Seq<(Seq<char>, JsonValue)>, k: Seq<char>) -> Option<JsonValue>
    decreases es.len(),
{
    if es.len() == 0 {
        None
    } else if es[0].0 == k {
        Some(es[0].1)
    } else {
        entries_get(es.drop_first(), k)
    }
}

/// Index of the first entry with key `k`.
pub open spec fn entries_find(es: Seq<(Seq<char>, JsonValue)>, k: Seq<char>) -> Option<int>
    decreases es.len(),
{
    if es.len() == 0 {
        None
    } else if es[0].0 == k {
        Some(0)
    } else {
        match entries_find(es.drop_first(), k) {
            Some(i) => Some(i + 1),
            None => None,
        }
    }
}

/// Object field lookup (`Value::get` with a string key).
pub open spec fn get(j: JsonValue, k: Seq<char>) -> Option<JsonValue> {
    match j {
        JsonValue::Object(es) => entries_get(es, k),
        _ => None,
    }
}

pub open spec fn as_str(j: JsonValue) -> Option<Seq<char>> {
    match j {
        JsonValue::Str(s) => Some(s),
        _ => None,
    }
}

pub open spec fn as_array(j: JsonValue) -> Option<Seq<JsonValue>> {
    match j {
        JsonValue::Array(a) => Some(a),
        _ => None,
    }
}

pub open spec fn as_u64(j: JsonValue) -> Option<u64> {
    match j {
        JsonValue::UInt(n) => Some(n),
        _ => None,
    }
}

pub open spec fn as_bool(j: JsonValue) -> Option<bool> {
    match j {
        JsonValue::Bool(b) => Some(b),
        _ => None,
    }
}

/// `get(key).and_then(as_str)`.
pub open spec fn get_str(j: JsonValue, k: Seq<char>) -> Option<Seq<char>> {
    match get(j, k) {
        Some(v) => as_str(v),
        None => None,
    }
}

/// Setting key `k` of an entry list: replaces the first entry with that key,
/// or appends a new entry.
pub open spec fn entries_set(es: Seq<(Seq<char>, JsonValue)>, k: Seq<char>, v: JsonValue) -> Seq<
    (Seq<char>, JsonValue),
> {
    match entries_find(es, k) {
        Some(i) => es.update(i, (k, v)),
        None => es.push((k, v)),
    }
}

pub proof fn lemma_entries_find_get(es: Seq<(Seq<char>, JsonValue)>, k: Seq<char>)
    ensures
        match entries_find(es, k) {
            Some(i) => 0 <= i < es.len() && es[i].0 == k && entries_get(es, k) == Some(es[i].1)
                && forall|j: int| 0 <= j < i ==> es[j].0 != k,
            None => entries_get(es, k) is None && forall|j: int| 0 <= j < es.len() ==> es[j].0 != k,
        },
    decreases es.len(),
{
    if es.len() > 0 && es[0].0 != k {
        lemma_entries_find_get(es.drop_first(), k);
        match entries_find(es.drop_first(), k) {
            Some(i) => {
                assert forall|j: int| 0 <= j < i + 1 implies es[j].0 != k by {
                    if j > 0 {
                        assert(es[j] == es.drop_first()[j - 1]);
                    }
                }
            },
            None => {
                assert forall|j: int| 0 <= j < es.len() implies es[j].0 != k by {
                    if j > 0 {
                        assert(es[j] == es.drop_first()[j - 1]);
                    }
                }
            },
        }
    }
}

/// The first index with key `k`, characterised by its position.
pub proof fn lemma_entries_find_unique(es: Seq<(Seq<char>, JsonValue)>, k: Seq<char>, i: int)
    requires
        0 <= i < es.len(),
        es[i].0 == k,
        forall|j: int| 0 <= j < i ==> es[j].0 != k,
    ensures
        entries_find(es, k) == Some(i),
        entries_get(es, k) == Some(es[i].1),
{
    lemma_entries_find_get(es, k);
    match entries_find(es, k) {
        Some(m) => {
            if m < i {
                assert(es[m].0 != k);
            } else if m > i {
            }
        },
        None => {
            assert(es[i].0 != k);
        },
    }
}

pub proof fn lemma_entries_absent(es: Seq<(Seq<char>, JsonValue)>, k: Seq<char>)
    requires
        forall|j: int| 0 <= j < es.len() ==> es[j].0 != k,
    ensures
        entries_find(es, k) is None,
        entries_get(es, k) is None,
{
    lemma_entries_find_get(es, k);
    match entries_find(es, k) {
        Some(m) => {
            assert(es[m].0 == k);
        },
        None => {},
    }
}

/// Looking a key up after appending an entry: an earlier entry with the key
/// wins; otherwise the appended entry answers if its key matches.
pub proof fn lemma_entries_get_push(
    es: Seq<(Seq<char>, JsonValue)>,
    e: (Seq<char>, JsonValue),
    k: Seq<char>,
)
    ensures
        entries_get(es.push(e), k) == (match entries_get(es, k) {
            Some(v) => Some(v),
            None => if e.0 == k {
                Some(e.1)
            } else {
                None
            },
        }),
{
    let es2 = es.push(e);
    lemma_entries_find_get(es, k);
    match entries_find(es, k) {
        Some(i) => {
            lemma_entries_find_unique(es2, k, i);
        },
        None => {
            if e.0 == k {
                lemma_entries_find_unique(es2, k, es.len() as int);
            } else {
                assert forall|j: int| 0 <= j < es2.len() implies es2[j].0 != k by {
                    if j < es.len() {
                        assert(es2[j] == es[j]);
                    }
                }
                lemma_entries_absent(es2, k);
            }
        },
    }
}

/// Reading a key right after setting it gives the value set; every other key
/// reads as before.
pub proof fn lemma_entries_set_get(
    es: Seq<(Seq<char>, JsonValue)>,
    k: Seq<char>,
    v: JsonValue,
    k2: Seq<char>,
)
    ensures
        entries_get(entries_set(es, k, v), k) == Some(v),
        k2 != k ==> entries_get(entries_set(es, k, v), k2) == entries_get(es, k2),
{
    let es2 = entries_set(es, k, v);
    lemma_entries_find_get(es, k);
    lemma_entries_find_get(es, k2);
    match entries_find(es, k) {
        Some(i) => {
            assert(es2 == es.update(i, (k, v)));
            lemma_entries_find_unique(es2, k, i);
            if k2 != k {
                match entries_find(es, k2) {
                    Some(m) => {
                        assert(m != i);
                        lemma_entries_find_unique(es2, k2, m);
                    },
                    None => {
                        lemma_entries_absent(es2, k2);
                    },
                }
            }
        },
        None => {
            assert(es2 == es.push((k, v)));
            lemma_entries_find_unique(es2, k, es.len() as int);
            if k2 != k {
                match entries_find(es, k2) {
                    Some(m) => {
                        lemma_entries_find_unique(es2, k2, m);
                    },
                    None => {
                        lemma_entries_absent(es2, k2);
                    },
                }
            }
        },
    }
}

pub proof fn lemma_object_view(v: Vec<(String, Json)>)
    ensures
        json_view(Json::Object(v)) == JsonValue::Object(entry_views(v@)),
{
    match json_view(Json::Object(v)) {
        JsonValue::Object(x) => {
            assert(x =~= entry_views(v@));
        },
        _ => {},
    }
}

pub proof fn lemma_array_view(v: Vec<Json>)
    ensures
        json_view(Json::Array(v)) == JsonValue::Array(views(v@)),
{
    match json_view(Json::Array(v)) {
        JsonValue::Array(x) => {
            assert(x =~= views(v@));
        },
        _ => {},
    }
}

impl Json {
    /// `Value::get` for a string key.
    pub fn get<'a>(&'a self, key: &str) -> (r: Option<&'a Json>)
        ensures
            match r {
                Some(v) => get(self@, key@) == Some(v@),
                None => get(self@, key@) is None,
            },
    {
        match self {
            Json::Object(entries) => {
                proof {
                    lemma_object_view(*entries);
                }
                let ghost es = entry_views(entries@);
                let mut i: usize = 0;
                while i < entries.len()
                    invariant
                        es == entry_views(entries@),
                        self@ == JsonValue::Object(es),
                        i <= entries@.len(),
                        forall|j: int| 0 <= j < i ==> es[j].0 != key@,
                    decreases entries.len() - i,
                {
                    if str_eq(entries[i].0.as_str(), key) {
                        proof {
                            assert(es[i as int].0 == entries@[i as int].0@);
                            lemma_entries_find_unique(es, key@, i as int);
                            assert(es[i as int].1 == entries@[i as int].1@);
                            assert(get(self@, key@) == entries_get(es, key@));
                        }
                        return Some(&entries[i].1);
                    }
                    i = i + 1;
                }
                proof {
                    lemma_entries_absent(es, key@);
                }
                None
            },
            _ => None,
        }
    }

    pub fn as_str(&self) -> (r: Option<&String>)
        ensures
            match r {
                Some(s) => as_str(self@) == Some(s@),
                None => as_str(self@) is None,
            },
    {
        match self {
            Json::Str(s) => Some(s),
            _ => None,
        }
    }

    pub fn as_array(&self) -> (r: Option<&Vec<Json>>)
        ensures
            match r {
                Some(a) => as_array(self@) == Some(views(a@)),
                None => as_array(self@) is None,
            },
    {
        match self {
            Json::Array(a) => {
                proof {
                    lemma_array_view(*a);
                }
                Some(a)
            },
            _ => None,
        }
    }

    pub fn as_u64(&self) -> (r: Option<u64>)
        ensures
            r == as_u64(self@),
    {
        match self {
            Json::UInt(n) => Some(*n),
            _ => None,
        }
    }

    pub fn as_bool(&self) -> (r: Option<bool>)
        ensures
            r == as_bool(self@),
    {
        match self {
            Json::Bool(b) => Some(*b),
            _ => None,
        }
    }

    /// `get(key).and_then(Value::as_str)`.
    pub fn get_str<'a>(&'a self, key: &str) -> (r: Option<&'a String>)
        ensures
            match r {
                Some(s) => get_str(self@, key@) == Some(s@),
                None => get_str(self@, key@) is None,
            },
    {
        match self.get(key) {
            Some(v) => v.as_str(),
            None => None,
        }
    }

    /// A copy with the same view.
    pub fn deep_clone(&self) -> (r: Json)
        ensures
            r@ == self@,
        decreases self,
    {
        match self {
            Json::Null => Json::Null,
            Json::Bool(b) => Json::Bool(*b),
            Json::UInt(n) => Json::UInt(*n),
            Json::Int(n) => Json::Int(*n),
            Json::Float(s) => Json::Float(s.clone()),
            Json::Str(s) => Json::Str(s.clone()),
            Json::Array(a) => {
                let mut out: Vec<Json> = Vec::new();
                let mut i: usize = 0;
                while i < a.len()
                    invariant
                        *self == Json::Array(*a),
                        i <= a@.len(),
                        out@.len() == i,
                        forall|j: int| 0 <= j < i ==> out@[j]@ == a@[j]@,
                    decreases a.len() - i,
                {
                    proof {
                        assert(*self == Json::Array(*a));
                        assert(decreases_to!(*self => (*self)->Array_0));
                        assert(decreases_to!(*a => a@));
                        assert(decreases_to!(a@ => a@[i as int]));
                    }
                    let c = a[i].deep_clone();
                    out.push(c);
                    i = i + 1;
                }
                proof {
                    lemma_array_view(*a);
                    lemma_array_view(out);
                    assert(views(out@) =~= views(a@));
                }
                Json::Array(out)
            },
            Json::Object(es) => {
                let mut out: Vec<(String, Json)> = Vec::new();
                let mut i: usize = 0;
                while i < es.len()
                    invariant
                        *self == Json::Object(*es),
                        i <= es@.len(),
                        out@.len() == i,
                        forall|j: int| 0 <= j < i ==> out@[j].0@ == es@[j].0@ && out@[j].1@ == es@[j].1@,
                    decreases es.len() - i,
                {
                    let k = es[i].0.clone();
                    proof {
                        assert(*self == Json::Object(*es));
                        assert(decreases_to!(*self => (*self)->Object_0));
                        assert(decreases_to!(*es => es@));
                        assert(decreases_to!(es@ => es@[i as int]));
                        assert(decreases_to!(es@[i as int] => es@[i as int].1));
                    }
                    let c = es[i].1.deep_clone();
                    out.push((k, c));
                    i = i + 1;
                }
                proof {
                    lemma_object_view(*es);
                    lemma_object_view(out);
                    assert(entry_views(out@) =~= entry_views(es@));
                }
                Json::Object(out)
            },
        }
    }
}

/// A JSON string holding the characters of `s`.
pub fn json_str(s: &str) -> (r: Json)
    ensures
        r@ == JsonValue::Str(s@),
{
    Json::Str(s.to_owned())
}

} // verus!

verus! {

pub open spec fn as_object(j: JsonValue) -> Option<Seq<(Seq<char>, JsonValue)>> {
    match j {
        JsonValue::Object(es) => Some(es),
        _ => None,
    }
}

impl Json {
    pub fn as_object(&self) -> (r: Option<&Vec<(String, Json)>>)
        ensures
            match r {
                Some(es) => as_object(self@) == Some(entry_views(es@)),
                None => as_object(self@) is None,
            },
    {
        match self {
            Json::Object(es) => {
                proof {
                    lemma_object_view(*es);
                }
                Some(es)
            },
            _ => None,
        }
    }
}

/// Sets `key` in an entry list: the first entry with that key is replaced, or a
/// new entry is appended.
pub fn entries_set_exec(es: &mut Vec<(String, Json)>, key: String, value: Json)
    ensures
        entry_views(final(es)@) == entries_set(entry_views(old(es)@), key@, value@),
{
    let ghost ev = entry_views(es@);
    let mut i: usize = 0;
    while i < es.len()
        invariant
            ev == entry_views(es@),
            es@ == old(es)@,
            i <= es@.len(),
            forall|j: int| 0 <= j < i ==> ev[j].0 != key@,
        decreases es.len() - i,
    {
        if str_eq(es[i].0.as_str(), key.as_str()) {
            proof {
                lemma_entries_find_unique(ev, key@, i as int);
            }
            let ghost kv = key@;
            let ghost vv = value@;
            es.set(i, (key, value));
            assert(entry_views(es@) =~= ev.update(i as int, (kv, vv)));
            return;
        }
        i = i + 1;
    }
    proof {
        lemma_entries_absent(ev, key@);
    }
    let ghost kv = key@;
    let ghost vv = value@;
    es.push((key, value));
    assert(entry_views(es@) =~= ev.push((kv, vv)));
}

/// An object built from its entries.
pub fn json_object(es: Vec<(String, Json)>) -> (r: Json)
    ensures
        r@ == JsonValue::Object(entry_views(es@)),
{
    proof {
        lemma_object_view(es);
    }
    Json::Object(es)
}

} // verus!

verus! {

/// An array built from its elements.
pub fn json_array(vs: Vec<Json>) -> (r: Json)
    ensures
        r@ == JsonValue::Array(views(vs@)),
{
    proof {
        lemma_array_view(vs);
    }
    Json::Array(vs)
}

/// Appends the entry `k: v` to an entry list.
pub fn push_entry(es: &mut Vec<(String, Json)>, k: &str, v: Json)
    ensures
        entry_views(final(es)@) == entry_views(old(es)@).push((k@, v@)),
{
    let ghost before = entry_views(es@);
    let ghost vv = v@;
    es.push((k.to_owned(), v));
    assert(entry_views(es@) =~= before.push((k@, vv)));
}

/// Appends `v` to a list of values.
pub fn push_value(vs: &mut Vec<Json>, v: Json)
    ensures
        views(final(vs)@) == views(old(vs)@).push(v@),
{
    let ghost before = views(vs@);
    let ghost vv = v@;
    vs.push(v);
    assert(views(vs@) =~= before.push(vv));
}

} // verus!

verus! {

/// An empty entry list.
pub fn new_entries() -> (es: Vec<(String, Json)>)
    ensures
        entry_views(es@) == Seq::<(Seq<char>, JsonValue)>::empty(),
        es@.len() == 0,
{
    let es: Vec<(String, Json)> = Vec::new();
    assert(entry_views(es@) =~= Seq::<(Seq<char>, JsonValue)>::empty());
    es
}

/// An empty list of values.
pub fn new_values() -> (vs: Vec<Json>)
    ensures
        views(vs@) == Seq::<JsonValue>::empty(),
        vs@.len() == 0,
{
    let vs: Vec<Json> = Vec::new();
    assert(views(vs@) =~= Seq::<JsonValue>::empty());
    vs
}

} // verus!

verus! {

/// The view of an optional value.
pub open spec fn opt_json_view(o: Option<&Json>) -> Option<JsonValue> {
    match o {
        Some(j) => Some(j@),
        None => None,
    }
}

} // verus!
