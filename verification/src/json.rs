//! A JSON document model (the library's own stand-in for a parsed JSON
//! value), its mathematical view, and the lookups the hook handlers make on
//! it. Object entries keep the order the parser produced; keys are compared
//! as character sequences and the first entry with a key wins.
use vstd::prelude::*;
use crate::text::{chars_of, chars_eq};

verus! {

/// The mathematical view of a JSON value.
pub enum Json {
    Null,
    Bool(bool),
    Number(Seq<char>),
    Str(Seq<char>),
    Array(Seq<Json>),
    Object(Seq<(Seq<char>, Json)>),
}

/// A JSON value. Numbers keep the exact text the parser gave them.
pub enum JsonValue {
    Null,
    Bool(bool),
    Number(String),
    Str(String),
    Array(Vec<JsonValue>),
    Object(Vec<(String, JsonValue)>),
}

impl JsonValue {
    /// The mathematical view of this value.
    pub open spec fn j(&self) -> Json
        decreases self,
    {
        match self {
            JsonValue::Null => Json::Null,
            JsonValue::Bool(b) => Json::Bool(*b),
            JsonValue::Number(n) => Json::Number(n@),
            JsonValue::Str(s) => Json::Str(s@),
            JsonValue::Array(v) => Json::Array(items_j(v@)),
            JsonValue::Object(v) => Json::Object(entries_j(v@)),
        }
    }
}

pub open spec fn items_j(s: Seq<JsonValue>) -> Seq<Json>
    decreases s,
{
    if s.len() == 0 {
        Seq::empty()
    } else {
        items_j(s.drop_last()).push(s.last().j())
    }
}

pub open spec fn entries_j(s: Seq<(String, JsonValue)>) -> Seq<(Seq<char>, Json)>
    decreases s,
{
    if s.len() == 0 {
        Seq::empty()
    } else {
        entries_j(s.drop_last()).push((s.last().0@, s.last().1.j()))
    }
}

/// A copy of `v`.
pub fn deep_clone(v: &JsonValue) -> (r: JsonValue)
    ensures r.j() == v.j(),
    decreases v,
{
    match v {
        JsonValue::Null => JsonValue::Null,
        JsonValue::Bool(b) => JsonValue::Bool(*b),
        JsonValue::Number(n) => JsonValue::Number(n.clone()),
        JsonValue::Str(s) => JsonValue::Str(s.clone()),
        JsonValue::Array(items) => {
            let mut out: Vec<JsonValue> = Vec::new();
            let n = items.len();
            let mut i: usize = 0;
            while i < n
                invariant
                    n == items@.len(),
                    i <= n,
                    out@.len() == i,
                    items_j(out@) == items_j(items@.take(i as int)),
                    *v == JsonValue::Array(*items),
                decreases n - i,
            {
                proof {
                    assert(decreases_to!(*v => v->Array_0));
                    assert(decreases_to!(*items => items@));
                    assert(decreases_to!(items@ => items@[i as int]));
                }
                let c = deep_clone(&items[i]);
                let ghost before = out@;
                out.push(c);
                proof {
                    assert(out@.drop_last() =~= before);
                    assert(items@.take(i + 1).drop_last() =~= items@.take(i as int));
                }
                i += 1;
            }
            assert(items@.take(n as int) =~= items@);
            JsonValue::Array(out)
        },
        JsonValue::Object(entries) => {
            let mut out: Vec<(String, JsonValue)> = Vec::new();
            let n = entries.len();
            let mut i: usize = 0;
            while i < n
                invariant
                    n == entries@.len(),
                    i <= n,
                    out@.len() == i,
                    entries_j(out@) == entries_j(entries@.take(i as int)),
                    *v == JsonValue::Object(*entries),
                decreases n - i,
            {
                proof {
                    assert(decreases_to!(*v => v->Object_0));
                    assert(decreases_to!(*entries => entries@));
                    assert(decreases_to!(entries@ => entries@[i as int]));
                    assert(decreases_to!(entries@[i as int] => entries@[i as int].1));
                }
                let c = deep_clone(&entries[i].1);
                let k = entries[i].0.clone();
                let ghost before = out@;
                out.push((k, c));
                proof {
                    assert(out@.drop_last() =~= before);
                    assert(entries@.take(i + 1).drop_last() =~= entries@.take(i as int));
                }
                i += 1;
            }
            assert(entries@.take(n as int) =~= entries@);
            JsonValue::Object(out)
        },
    }
}

/// The view of a list of values has one entry per value.
pub proof fn lemma_items_j(s: Seq<JsonValue>)
    ensures
        items_j(s).len() == s.len(),
        forall|i: int| 0 <= i < s.len() ==> #[trigger] items_j(s)[i] == s[i].j(),
    decreases s.len(),
{
    if s.len() > 0 {
        lemma_items_j(s.drop_last());
    }
}

/// The view of a list of entries has one entry per entry.
pub proof fn lemma_entries_j(s: Seq<(String, JsonValue)>)
    ensures
        entries_j(s).len() == s.len(),
        forall|i: int| 0 <= i < s.len() ==> #[trigger] entries_j(s)[i] == (s[i].0@, s[i].1.j()),
    decreases s.len(),
{
    if s.len() > 0 {
        lemma_entries_j(s.drop_last());
    }
}

/// Index of the first entry whose key is `key`.
pub open spec fn first_key_index(es: Seq<(Seq<char>, Json)>, key: Seq<char>) -> Option<int>
    decreases es.len(),
{
    if es.len() == 0 {
        None
    } else {
        match first_key_index(es.drop_last(), key) {
            Some(i) => Some(i),
            None => if es.last().0 == key { Some(es.len() - 1) } else { None },
        }
    }
}

/// `first_key_index` finds the first matching key.
pub proof fn lemma_first_key_index(es: Seq<(Seq<char>, Json)>, key: Seq<char>)
    ensures
        match first_key_index(es, key) {
            Some(i) => 0 <= i < es.len() && es[i].0 == key
                && forall|k: int| 0 <= k < i ==> es[k].0 != key,
            None => forall|k: int| 0 <= k < es.len() ==> es[k].0 != key,
        },
    decreases es.len(),
{
    if es.len() > 0 {
        let d = es.drop_last();
        lemma_first_key_index(d, key);
        assert forall|k: int| 0 <= k < d.len() implies d[k] == es[k] by {}
    }
}

/// `first_key_index` is fixed by what it finds: the first entry with the key.
pub proof fn lemma_first_key_index_char(es: Seq<(Seq<char>, Json)>, key: Seq<char>, r: Option<int>)
    requires
        match r {
            Some(i) => 0 <= i < es.len() && es[i].0 == key
                && forall|k: int| 0 <= k < i ==> es[k].0 != key,
            None => forall|k: int| 0 <= k < es.len() ==> es[k].0 != key,
        },
    ensures
        first_key_index(es, key) == r,
{
    lemma_first_key_index(es, key);
    match first_key_index(es, key) {
        Some(f) => match r {
            Some(i) => {
                if f < i {
                    assert(es[f].0 != key);
                } else if i < f {
                    assert(es[i].0 != key);
                }
            },
            None => {
                assert(es[f].0 != key);
            },
        },
        None => match r {
            Some(i) => {
                assert(es[i].0 != key);
            },
            None => {},
        },
    }
}

/// Replacing the value of an entry keeps every key lookup.
pub proof fn lemma_first_key_index_update(es: Seq<(Seq<char>, Json)>, i: int, v: Json, key: Seq<char>)
    requires
        0 <= i < es.len(),
    ensures
        first_key_index(es.update(i, (es[i].0, v)), key) == first_key_index(es, key),
{
    let u = es.update(i, (es[i].0, v));
    lemma_first_key_index(es, key);
    assert forall|k: int| 0 <= k < es.len() implies u[k].0 == es[k].0 by {}
    lemma_first_key_index_char(u, key, first_key_index(es, key));
}

/// Appending an entry with a new key makes it the one found for that key.
pub proof fn lemma_first_key_index_push(es: Seq<(Seq<char>, Json)>, key: Seq<char>, v: Json)
    requires
        first_key_index(es, key) is None,
    ensures
        first_key_index(es.push((key, v)), key) == Some(es.len() as int),
{
    lemma_first_key_index(es, key);
    let p = es.push((key, v));
    assert forall|k: int| 0 <= k < es.len() implies p[k].0 != key by {
        assert(p[k] == es[k]);
    }
    lemma_first_key_index_char(p, key, Some(es.len() as int));
}

/// The member `key` of an object (first entry with that key); `None` for a
/// missing key or a value that is not an object.
pub open spec fn jget(j: Json, key: Seq<char>) -> Option<Json> {
    match j {
        Json::Object(es) => match first_key_index(es, key) {
            Some(i) => Some(es[i].1),
            None => None,
        },
        _ => None,
    }
}

/// The text of a string value.
pub open spec fn jstr(o: Option<Json>) -> Option<Seq<char>> {
    match o {
        Some(Json::Str(s)) => Some(s),
        _ => None,
    }
}

/// The elements of an array value.
pub open spec fn jarray(o: Option<Json>) -> Option<Seq<Json>> {
    match o {
        Some(Json::Array(a)) => Some(a),
        _ => None,
    }
}

/// The flag of a boolean value.
pub open spec fn jbool(o: Option<Json>) -> Option<bool> {
    match o {
        Some(Json::Bool(b)) => Some(b),
        _ => None,
    }
}

/// The view of an optional reference to a value.
pub open spec fn opt_j(o: Option<&JsonValue>) -> Option<Json> {
    match o {
        Some(v) => Some(v.j()),
        None => None,
    }
}

/// Index of the first entry of `entries` whose key is `key`.
pub fn find_key(entries: &Vec<(String, JsonValue)>, key: &Vec<char>) -> (r: Option<usize>)
    ensures
        match r {
            Some(i) => i < entries@.len() && Some(i as int) == first_key_index(entries_j(entries@), key@),
            None => first_key_index(entries_j(entries@), key@) is None,
        },
{
    proof {
        lemma_entries_j(entries@);
        lemma_first_key_index(entries_j(entries@), key@);
    }
    let n = entries.len();
    let mut i: usize = 0;
    while i < n
        invariant
            n == entries@.len(),
            i <= n,
            forall|k: int| 0 <= k < i ==> entries@[k].0@ != key@,
        decreases n - i,
    {
        let k = chars_of(entries[i].0.as_str());
        if chars_eq(&k, key) {
            proof {
                lemma_entries_j(entries@);
                lemma_first_key_index(entries_j(entries@), key@);
                let es = entries_j(entries@);
                assert(es[i as int].0 == key@);
                match first_key_index(es, key@) {
                    Some(f) => {
                        if f < i {
                            assert(es[f].0 == entries@[f].0@);
                        } else if f > i {
                            assert(es[i as int].0 != key@);
                        }
                    },
                    None => {
                        assert(es[i as int].0 != key@);
                    },
                }
            }
            return Some(i);
        }
        i += 1;
    }
    proof {
        let es = entries_j(entries@);
        match first_key_index(es, key@) {
            Some(f) => {
                assert(es[f].0 == entries@[f].0@);
            },
            None => {},
        }
    }
    None
}

/// The member `key` of `v` when `v` is an object.
pub fn get<'a>(v: &'a JsonValue, key: &str) -> (r: Option<&'a JsonValue>)
    ensures
        opt_j(r) == jget(v.j(), key@),
{
    match v {
        JsonValue::Object(entries) => {
            let k = chars_of(key);
            proof {
                lemma_entries_j(entries@);
            }
            match find_key(entries, &k) {
                Some(i) => {
                    assert(entries_j(entries@)[i as int] == (entries@[i as int].0@, entries@[i as int].1.j()));
                    Some(&entries[i].1)
                },
                None => None,
            }
        },
        _ => None,
    }
}

/// The member `key` of an optional value (`None` stays `None`).
pub fn get_opt<'a>(v: Option<&'a JsonValue>, key: &str) -> (r: Option<&'a JsonValue>)
    ensures
        opt_j(r) == match opt_j(v) {
            Some(j) => jget(j, key@),
            None => None,
        },
{
    match v {
        Some(x) => get(x, key),
        None => None,
    }
}

/// The string inside a string value.
pub fn as_str<'a>(v: Option<&'a JsonValue>) -> (r: Option<&'a String>)
    ensures
        match r {
            Some(s) => jstr(opt_j(v)) == Some(s@),
            None => jstr(opt_j(v)) is None,
        },
{
    match v {
        Some(JsonValue::Str(s)) => Some(s),
        _ => None,
    }
}

/// The elements of an array value.
pub fn as_array<'a>(v: Option<&'a JsonValue>) -> (r: Option<&'a Vec<JsonValue>>)
    ensures
        match r {
            Some(a) => jarray(opt_j(v)) == Some(items_j(a@)),
            None => jarray(opt_j(v)) is None,
        },
{
    match v {
        Some(JsonValue::Array(a)) => Some(a),
        _ => None,
    }
}

/// The flag of a boolean value.
pub fn as_bool(v: Option<&JsonValue>) -> (r: Option<bool>)
    ensures
        r == jbool(opt_j(v)),
{
    match v {
        Some(JsonValue::Bool(b)) => Some(*b),
        _ => None,
    }
}

/// A string value holding the characters of `lit`.
pub fn str_value(lit: &str) -> (v: JsonValue)
    ensures
        v.j() == Json::Str(lit@),
{
    JsonValue::Str(crate::text::string_of(&chars_of(lit)))
}

/// Replaces the member `key` of an object's entries (keeping its position),
/// or appends it when the key is new.
pub open spec fn jinsert(es: Seq<(Seq<char>, Json)>, key: Seq<char>, val: Json) -> Seq<(Seq<char>, Json)> {
    match first_key_index(es, key) {
        Some(i) => es.update(i, (key, val)),
        None => es.push((key, val)),
    }
}

/// Sets member `key` of an object's entries to `value`: an existing entry
/// keeps its position, a new key is appended.
pub fn insert(entries: &mut Vec<(String, JsonValue)>, key: String, value: JsonValue)
    ensures
        entries_j(final(entries)@) == jinsert(entries_j(old(entries)@), key@, value.j()),
{
    let k = chars_of(key.as_str());
    proof {
        lemma_entries_j(entries@);
    }
    match find_key(entries, &k) {
        Some(i) => {
            let ghost before = entries@;
            entries.set(i, (key, value));
            proof {
                lemma_entries_j(entries@);
                assert(entries_j(entries@) =~= entries_j(before).update(i as int, (k@, value.j())));
            }
        },
        None => {
            let ghost before = entries@;
            entries.push((key, value));
            proof {
                assert(entries@.drop_last() =~= before);
            }
        },
    }
}

} // verus!
