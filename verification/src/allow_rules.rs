//! Persisting "Allow, don't ask again" picks: merging permission strings into
//! a project's local settings document under `permissions.allow`, the same
//! place the CLI's own local-settings suggestions target.
use vstd::prelude::*;
use vstd::utf8::{valid_utf8, decode_utf8};
use crate::json_io::{parsed_json, pretty_json, parse_json, pretty_text, utf8_text};
use crate::json::{
    Json, JsonValue, lemma_first_key_index_update, lemma_first_key_index_push, entries_j, items_j, lemma_entries_j, lemma_items_j, first_key_index,
    lemma_first_key_index, find_key,
};
use crate::text::{chars_of, chars_eq};
use crate::permission::{views, string_lit, AlwaysRules};

verus! {

/// The allow list after adding each rule that is not yet listed (as a
/// string), in order.
pub open spec fn merged_allow(arr: Seq<Json>, rules: Seq<Seq<char>>) -> Seq<Json>
    decreases rules.len(),
{
    if rules.len() == 0 {
        arr
    } else {
        let a = merged_allow(arr, rules.drop_last());
        if a.contains(Json::Str(rules.last())) {
            a
        } else {
            a.push(Json::Str(rules.last()))
        }
    }
}

/// The `permissions` object's entries with its `allow` list merged: a
/// missing list is appended, one that is not an array starts over empty.
pub open spec fn with_allow(pes: Seq<(Seq<char>, Json)>, rules: Seq<Seq<char>>) -> Seq<(Seq<char>, Json)> {
    match first_key_index(pes, "allow"@) {
        Some(j) => pes.update(j, ("allow"@, Json::Array(merged_allow(
            match pes[j].1 {
                Json::Array(a) => a,
                _ => Seq::empty(),
            },
            rules,
        )))),
        None => pes.push(("allow"@, Json::Array(merged_allow(Seq::empty(), rules)))),
    }
}

/// The settings document after merging `rules`; `None` when `permissions`
/// exists but is not an object (nothing is written then). A document that is
/// missing, unreadable or not an object starts over as an empty object.
pub open spec fn spec_merge(existing: Option<Json>, rules: Seq<Seq<char>>) -> Option<Json> {
    let es = match existing {
        Some(Json::Object(es)) => es,
        _ => Seq::empty(),
    };
    match first_key_index(es, "permissions"@) {
        Some(i) => match es[i].1 {
            Json::Object(pes) => Some(Json::Object(es.update(i, ("permissions"@, Json::Object(with_allow(pes, rules)))))),
            _ => None,
        },
        None => Some(Json::Object(es.push(("permissions"@, Json::Object(with_allow(Seq::empty(), rules)))))),
    }
}

/// The view of an optional document.
pub open spec fn opt_doc(o: Option<JsonValue>) -> Option<Json> {
    match o {
        Some(v) => Some(v.j()),
        None => None,
    }
}

fn is_listed(arr: &Vec<JsonValue>, rule: &Vec<char>) -> (r: bool)
    ensures
        r == items_j(arr@).contains(Json::Str(rule@)),
{
    proof {
        lemma_items_j(arr@);
    }
    let n = arr.len();
    let mut k: usize = 0;
    while k < n
        invariant
            n == arr@.len(),
            k <= n,
            items_j(arr@).len() == n,
            forall|m: int| 0 <= m < n ==> #[trigger] items_j(arr@)[m] == arr@[m].j(),
            forall|m: int| 0 <= m < k ==> items_j(arr@)[m] != Json::Str(rule@),
        decreases n - k,
    {
        match &arr[k] {
            JsonValue::Str(s) => {
                if chars_eq(&chars_of(s.as_str()), rule) {
                    assert(items_j(arr@)[k as int] == Json::Str(rule@));
                    return true;
                }
            },
            _ => {},
        }
        k += 1;
    }
    false
}

fn merge_list(arr: &mut Vec<JsonValue>, rules: &Vec<String>)
    ensures
        items_j(final(arr)@) == merged_allow(items_j(old(arr)@), views(rules@)),
{
    let ghost start = items_j(arr@);
    let n = rules.len();
    let mut i: usize = 0;
    while i < n
        invariant
            n == rules@.len(),
            i <= n,
            items_j(arr@) == merged_allow(start, views(rules@).take(i as int)),
        decreases n - i,
    {
        let rule = chars_of(rules[i].as_str());
        proof {
            assert(views(rules@).take(i + 1).drop_last() =~= views(rules@).take(i as int));
            assert(views(rules@).take(i + 1).last() == rules@[i as int]@);
        }
        if !is_listed(arr, &rule) {
            let ghost before = arr@;
            arr.push(JsonValue::Str(rules[i].clone()));
            proof {
                assert(arr@.drop_last() =~= before);
                assert(items_j(arr@) == items_j(arr@.drop_last()).push(arr@.last().j()));
                assert(arr@.last().j() == Json::Str(rules@[i as int]@));
            }
        }
        i += 1;
    }
    assert(views(rules@).take(n as int) =~= views(rules@));
}

fn merge_permissions(pes: &mut Vec<(String, JsonValue)>, rules: &Vec<String>)
    ensures
        entries_j(final(pes)@) == with_allow(entries_j(old(pes)@), views(rules@)),
{
    let key = chars_of("allow");
    proof {
        lemma_entries_j(pes@);
    }
    match find_key(pes, &key) {
        Some(j) => {
            let ghost before = pes@;
            let (k, v) = pes.remove(j);
            let mut arr = match v {
                JsonValue::Array(a) => a,
                _ => Vec::new(),
            };
            let ghost base = items_j(arr@);
            proof {
                lemma_items_j(arr@);
                if !(before[j as int].1 is Array) {
                    assert(base =~= Seq::empty());
                }
            }
            merge_list(&mut arr, rules);
            pes.insert(j, (k, JsonValue::Array(arr)));
            proof {
                lemma_entries_j(before);
                lemma_entries_j(pes@);
                lemma_first_key_index(entries_j(before), key@);
                assert(k@ == "allow"@);
                assert(pes@ =~= before.update(j as int, (k, JsonValue::Array(arr))));
                assert(entries_j(pes@) =~= entries_j(before).update(j as int, ("allow"@, Json::Array(items_j(arr@)))));
                assert(first_key_index(entries_j(before), "allow"@) == Some(j as int));
                assert(entries_j(before)[j as int].1 == before[j as int].1.j());
                assert(entries_j(pes@) == with_allow(entries_j(before), views(rules@)));
            }
        },
        None => {
            let mut arr: Vec<JsonValue> = Vec::new();
            proof {
                lemma_items_j(arr@);
                assert(items_j(arr@) =~= Seq::empty());
            }
            merge_list(&mut arr, rules);
            let ghost before = pes@;
            let ghost av = items_j(arr@);
            let k = string_lit("allow");
            let val = JsonValue::Array(arr);
            assert(val.j() == Json::Array(av));
            pes.push((k, val));
            proof {
                assert(pes@.drop_last() =~= before);
                assert(pes@.last() == (k, val));
                assert(entries_j(pes@) == entries_j(before).push(("allow"@, Json::Array(av))));
                assert(first_key_index(entries_j(before), "allow"@) is None);
                assert(entries_j(pes@) == with_allow(entries_j(before), views(rules@)));
            }
        },
    }
}

/// Merges "always allow" rules into a local settings document (`existing`
/// is `None` when the file is missing, unreadable or not JSON). Returns the
/// document to write, or `None` when nothing is to be written: no rules or
/// no project directory, or a `permissions` member that is not an object.
pub fn merge_allow_rules(existing: Option<JsonValue>, always: &AlwaysRules) -> (r: Option<JsonValue>)
    ensures
        always.cwd@.len() == 0 || always.rules@.len() == 0 ==> r is None,
        always.cwd@.len() > 0 && always.rules@.len() > 0 ==> opt_doc(r) == spec_merge(opt_doc(existing), views(always.rules@)),
{
    if always.cwd.as_str().is_empty() || always.rules.len() == 0 {
        return None;
    }
    let ghost ex = opt_doc(existing);
    let mut es = match existing {
        Some(JsonValue::Object(es)) => es,
        _ => Vec::new(),
    };
    proof {
        lemma_entries_j(es@);
        if !(ex matches Some(Json::Object(_))) {
            assert(entries_j(es@) =~= Seq::empty());
        }
    }
    let key = chars_of("permissions");
    match find_key(&es, &key) {
        Some(i) => {
            let ghost before = es@;
            let (k, v) = es.remove(i);
            match v {
                JsonValue::Object(mut pes) => {
                    merge_permissions(&mut pes, &always.rules);
                    es.insert(i, (k, JsonValue::Object(pes)));
                    proof {
                        lemma_entries_j(before);
                        lemma_entries_j(es@);
                        lemma_first_key_index(entries_j(before), key@);
                        assert(k@ == "permissions"@);
                        assert(es@ =~= before.update(i as int, (k, JsonValue::Object(pes))));
                        assert(entries_j(es@) =~= entries_j(before).update(i as int, ("permissions"@, Json::Object(entries_j(pes@)))));
                    }
                    Some(JsonValue::Object(es))
                },
                _ => None,
            }
        },
        None => {
            let mut pes: Vec<(String, JsonValue)> = Vec::new();
            proof {
                lemma_entries_j(pes@);
                assert(entries_j(pes@) =~= Seq::empty());
            }
            merge_permissions(&mut pes, &always.rules);
            let ghost before = es@;
            let ghost pv = entries_j(pes@);
            let k = string_lit("permissions");
            let val = JsonValue::Object(pes);
            assert(val.j() == Json::Object(pv));
            es.push((k, val));
            proof {
                assert(es@.drop_last() =~= before);
                assert(es@.last() == (k, val));
                assert(entries_j(es@) == entries_j(before).push(("permissions"@, Json::Object(pv))));
            }
            Some(JsonValue::Object(es))
        },
    }
}

/// Merging adds every rule, keeps the list's existing entries in front
/// and only ever appends.
pub proof fn lemma_merged_allow(arr: Seq<Json>, rules: Seq<Seq<char>>)
    ensures
        merged_allow(arr, rules).len() >= arr.len(),
        merged_allow(arr, rules).take(arr.len() as int) == arr,
        forall|i: int| 0 <= i < rules.len() ==> merged_allow(arr, rules).contains(Json::Str(#[trigger] rules[i])),
    decreases rules.len(),
{
    if rules.len() > 0 {
        let d = rules.drop_last();
        lemma_merged_allow(arr, d);
        let a = merged_allow(arr, d);
        let m = merged_allow(arr, rules);
        assert forall|i: int| 0 <= i < rules.len() implies m.contains(Json::Str(#[trigger] rules[i])) by {
            if i < d.len() {
                assert(d[i] == rules[i]);
                assert(a.contains(Json::Str(d[i])));
                let k = choose|k: int| 0 <= k < a.len() && a[k] == Json::Str(d[i]);
                if !a.contains(Json::Str(rules.last())) {
                    assert(m[k] == a[k]);
                }
            } else {
                if !a.contains(Json::Str(rules.last())) {
                    assert(m[a.len() as int] == Json::Str(rules.last()));
                }
            }
        }
        if !a.contains(Json::Str(rules.last())) {
            assert(m.take(arr.len() as int) =~= a.take(arr.len() as int));
        }
    }
}

/// Merging rules that are all listed already changes nothing.
pub proof fn lemma_merged_allow_noop(arr: Seq<Json>, rules: Seq<Seq<char>>)
    requires
        forall|i: int| 0 <= i < rules.len() ==> arr.contains(Json::Str(#[trigger] rules[i])),
    ensures
        merged_allow(arr, rules) == arr,
    decreases rules.len(),
{
    if rules.len() > 0 {
        let d = rules.drop_last();
        assert forall|i: int| 0 <= i < d.len() implies arr.contains(Json::Str(#[trigger] d[i])) by {
            assert(d[i] == rules[i]);
        }
        lemma_merged_allow_noop(arr, d);
        assert(arr.contains(Json::Str(rules[rules.len() - 1])));
    }
}

/// Merging the same rules a second time changes nothing.
pub proof fn lemma_merged_allow_twice(arr: Seq<Json>, rules: Seq<Seq<char>>)
    ensures
        merged_allow(merged_allow(arr, rules), rules) == merged_allow(arr, rules),
{
    lemma_merged_allow(arr, rules);
    lemma_merged_allow_noop(merged_allow(arr, rules), rules);
}

/// Merging into `permissions` twice is merging once.
pub proof fn lemma_with_allow_twice(pes: Seq<(Seq<char>, Json)>, rules: Seq<Seq<char>>)
    ensures
        with_allow(with_allow(pes, rules), rules) == with_allow(pes, rules),
{
    lemma_first_key_index(pes, "allow"@);
    let w = with_allow(pes, rules);
    match first_key_index(pes, "allow"@) {
        Some(j) => {
            let base = match pes[j].1 {
                Json::Array(a) => a,
                _ => Seq::empty(),
            };
            let m = merged_allow(base, rules);
            lemma_first_key_index_update(pes, j, Json::Array(m), "allow"@);
            lemma_merged_allow_twice(base, rules);
            assert(w.update(j, ("allow"@, Json::Array(merged_allow(m, rules)))) =~= w);
        },
        None => {
            let m = merged_allow(Seq::empty(), rules);
            lemma_first_key_index_push(pes, "allow"@, Json::Array(m));
            lemma_merged_allow_twice(Seq::empty(), rules);
            assert(w.update(pes.len() as int, ("allow"@, Json::Array(merged_allow(m, rules)))) =~= w);
        },
    }
}

/// Remembering the same "always allow" rules twice leaves the settings
/// document exactly as remembering them once: no rule is ever listed twice
/// by a repeat.
pub proof fn law_merge_idempotent(existing: Option<Json>, rules: Seq<Seq<char>>)
    ensures
        match spec_merge(existing, rules) {
            Some(d) => spec_merge(Some(d), rules) == Some(d),
            None => true,
        },
{
    let es = match existing {
        Some(Json::Object(es)) => es,
        _ => Seq::empty(),
    };
    lemma_first_key_index(es, "permissions"@);
    match first_key_index(es, "permissions"@) {
        Some(i) => match es[i].1 {
            Json::Object(pes) => {
                let w = with_allow(pes, rules);
                lemma_first_key_index_update(es, i, Json::Object(w), "permissions"@);
                lemma_with_allow_twice(pes, rules);
                let d = es.update(i, ("permissions"@, Json::Object(w)));
                assert(d.update(i, ("permissions"@, Json::Object(with_allow(w, rules)))) =~= d);
            },
            _ => {},
        },
        None => {
            let w = with_allow(Seq::empty(), rules);
            lemma_first_key_index_push(es, "permissions"@, Json::Object(w));
            lemma_with_allow_twice(Seq::empty(), rules);
            let d = es.push(("permissions"@, Json::Object(w)));
            assert(d.update(es.len() as int, ("permissions"@, Json::Object(with_allow(w, rules)))) =~= d);
        },
    }
}

/// After a merge every rule is listed under `permissions.allow`, and every
/// entry the list held before is still there, in front, in its order.
pub proof fn law_merge_keeps_and_adds(arr: Seq<Json>, rules: Seq<Seq<char>>)
    ensures
        merged_allow(arr, rules).take(arr.len() as int) == arr,
        forall|i: int| 0 <= i < rules.len() ==> merged_allow(arr, rules).contains(Json::Str(#[trigger] rules[i])),
{
    lemma_merged_allow(arr, rules);
}

/// What a local settings file holds (`None` for no file): the JSON parse of
/// its text; `None` when it is not UTF-8 text or not JSON.
pub open spec fn local_doc(file: Option<Seq<u8>>) -> Option<Json> {
    match file {
        Some(b) => if valid_utf8(b) { parsed_json(decode_utf8(b)) } else { None },
        None => None,
    }
}

/// Merges "always allow" rules into a local settings file given by its
/// bytes (`None` when there is none) and returns the text to write, printed
/// indented; `None` when nothing is to be written (see `merge_allow_rules`).
pub fn merge_allow_rules_file(existing: Option<&[u8]>, always: &AlwaysRules) -> (r: Option<String>)
    ensures
        always.cwd@.len() == 0 || always.rules@.len() == 0 ==> r is None,
        always.cwd@.len() > 0 && always.rules@.len() > 0 ==> match spec_merge(
            local_doc(crate::claude_hooks::opt_bytes(existing)),
            views(always.rules@),
        ) {
            Some(d) => r matches Some(t) && t@ == pretty_json(d),
            None => r is None,
        },
{
    let doc = match existing {
        Some(b) => match utf8_text(b) {
            Some(t) => parse_json(t.as_str()),
            None => None,
        },
        None => None,
    };
    match merge_allow_rules(doc, always) {
        Some(d) => Some(pretty_text(&d)),
        None => None,
    }
}

} // verus!
