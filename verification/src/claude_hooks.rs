//! This app's own entries in the user-level settings of the coding CLI (`hooks`):
//! an `"http"` hook on `PermissionRequest` pointing at the permission
//! endpoint, and a `"command"` hook on a set of lifecycle events that pipes
//! the event into the hook bridge.
//!
//! The settings document is not ours. Everything in it is carried through
//! untouched except the inner hook objects recognised as ours — by the port
//! number in their url or command, so hand-written registrations are adopted
//! rather than duplicated — and hook groups left empty by removing them.
//! Installing twice changes nothing, and uninstalling removes exactly what
//! installing added. Reading and writing the file is the caller's part.
use vstd::prelude::*;
use vstd::utf8::{valid_utf8, decode_utf8, encode_utf8, encode_utf8_valid_utf8, encode_utf8_decode_utf8};
use crate::json_same::{printable, same_json};
use crate::json_io::{parsed_json, pretty_json, parse_json, pretty_text, utf8_text};
use crate::json::{
    Json, JsonValue, entries_j, lemma_entries_j, items_j, lemma_items_j, deep_clone, first_key_index,
    lemma_first_key_index, lemma_first_key_index_char, jget, jstr, jarray, opt_j, get, as_str, find_key,
    jinsert, insert, str_value,
};
use crate::text::{
    chars_of, chars_eq_str, chars_contain, contains_seq, occurs_at, decimal, decimal_chars, string_of,
    push_str, push_all,
};

verus! {

/// The port of the hook bridge's listener.
pub open spec fn bridge_port() -> nat {
    crate::hook_bridge::PORT as nat
}

/// The port of the permission endpoint.
pub open spec fn permission_port() -> nat {
    crate::permission::PORT as nat
}

/// Whether one inner hook object is ours: an `"http"` hook whose url
/// mentions the permission endpoint's port, or a `"command"` hook whose
/// command mentions the hook bridge's port.
pub open spec fn is_ours(h: Json) -> bool {
    match jstr(jget(h, "type"@)) {
        Some(t) => if t == "http"@ {
            match jstr(jget(h, "url"@)) {
                Some(u) => contains_seq(u, decimal(permission_port())),
                None => false,
            }
        } else if t == "command"@ {
            match jstr(jget(h, "command"@)) {
                Some(c) => contains_seq(c, decimal(bridge_port())),
                None => false,
            }
        } else {
            false
        },
        None => false,
    }
}

/// The inner hooks that are not ours, in order.
pub open spec fn foreign_hooks(inner: Seq<Json>) -> Seq<Json>
    decreases inner.len(),
{
    if inner.len() == 0 {
        Seq::empty()
    } else {
        let rest = foreign_hooks(inner.drop_last());
        if is_ours(inner.last()) { rest } else { rest.push(inner.last()) }
    }
}

/// One hook group with our inner hooks taken out: `None` when that leaves
/// its `hooks` array empty. A group that is not an object, or whose `hooks`
/// member is missing or not an array, is kept as it is.
pub open spec fn stripped_group(g: Json) -> Option<Json> {
    match g {
        Json::Object(es) => match first_key_index(es, "hooks"@) {
            Some(i) => match es[i].1 {
                Json::Array(inner) => if foreign_hooks(inner).len() == 0 {
                    None
                } else {
                    Some(Json::Object(es.update(i, ("hooks"@, Json::Array(foreign_hooks(inner))))))
                },
                _ => Some(g),
            },
            None => Some(g),
        },
        _ => Some(g),
    }
}

/// An event's hook groups with our inner hooks taken out and emptied groups
/// dropped.
pub open spec fn strip_groups(gs: Seq<Json>) -> Seq<Json>
    decreases gs.len(),
{
    if gs.len() == 0 {
        Seq::empty()
    } else {
        let rest = strip_groups(gs.drop_last());
        match stripped_group(gs.last()) {
            Some(g) => rest.push(g),
            None => rest,
        }
    }
}

/// Whether a hook group holds one of our inner hooks.
pub open spec fn group_has_ours(g: Json) -> bool {
    match jarray(jget(g, "hooks"@)) {
        Some(inner) => exists|k: int| 0 <= k < inner.len() && #[trigger] is_ours(inner[k]),
        None => false,
    }
}

/// Whether `event` carries one of our inner hooks in the `hooks` object
/// `hooks`.
pub open spec fn has_ours(hooks: Seq<(Seq<char>, Json)>, event: Seq<char>) -> bool {
    match jarray(jget(Json::Object(hooks), event)) {
        Some(gs) => exists|i: int| 0 <= i < gs.len() && #[trigger] group_has_ours(gs[i]),
        None => false,
    }
}

/// The two events whose groups are matched against a tool name.
pub open spec fn is_matched_event(event: Seq<char>) -> bool {
    event == "PreToolUse"@ || event == "PostToolUse"@
}

/// The group we register for `event`: `"matcher": "*"` on the tool events,
/// then a `hooks` array holding `hook` alone.
pub open spec fn our_group(event: Seq<char>, hook: Json) -> Json {
    if is_matched_event(event) {
        Json::Object(seq![("matcher"@, Json::Str("*"@)), ("hooks"@, Json::Array(seq![hook]))])
    } else {
        Json::Object(seq![("hooks"@, Json::Array(seq![hook]))])
    }
}

/// An event's new value once our group is registered for it: the existing
/// groups without ours, then our group; anything that is not an array is
/// replaced.
pub open spec fn with_our_group(current: Option<Json>, g: Json) -> Json {
    match current {
        Some(Json::Array(gs)) => Json::Array(strip_groups(gs).push(g)),
        _ => Json::Array(seq![g]),
    }
}

/// The `hooks` object after registering `hook` for `event`.
pub open spec fn add_hook(hooks: Seq<(Seq<char>, Json)>, event: Seq<char>, hook: Json) -> Seq<(Seq<char>, Json)> {
    jinsert(hooks, event, with_our_group(jget(Json::Object(hooks), event), our_group(event, hook)))
}

/// The entries of an object without any entry under `key`.
pub open spec fn without_key(es: Seq<(Seq<char>, Json)>, key: Seq<char>) -> Seq<(Seq<char>, Json)>
    decreases es.len(),
{
    if es.len() == 0 {
        Seq::empty()
    } else {
        let rest = without_key(es.drop_last(), key);
        if es.last().0 == key { rest } else { rest.push(es.last()) }
    }
}

/// The `hooks` object after removing our registration for `event`: the
/// event's groups lose our inner hooks, and the event goes away when no
/// group is left. An event whose value is not an array is left alone.
pub open spec fn remove_hook(hooks: Seq<(Seq<char>, Json)>, event: Seq<char>) -> Seq<(Seq<char>, Json)> {
    match jget(Json::Object(hooks), event) {
        Some(Json::Array(gs)) => if strip_groups(gs).len() == 0 {
            without_key(hooks, event)
        } else {
            jinsert(hooks, event, Json::Array(strip_groups(gs)))
        },
        _ => hooks,
    }
}

/// The events we register, `PermissionRequest` first, then the lifecycle
/// events forwarded to the hook bridge.
pub open spec fn registered_events() -> Seq<Seq<char>> {
    seq![
        "PermissionRequest"@,
        "SessionStart"@,
        "SessionEnd"@,
        "UserPromptSubmit"@,
        "PreToolUse"@,
        "PostToolUse"@,
        "Stop"@,
        "Notification"@,
        "PreCompact"@,
        "PostCompact"@,
    ]
}

/// How many events we register.
pub const REGISTRATIONS: usize = 10;

/// The url of the permission endpoint.
pub open spec fn permission_url_text() -> Seq<char> {
    "http://127.0.0.1:"@ + decimal(permission_port()) + "/permission"@
}

/// The first part of the event command, up to the port.
pub open spec fn command_head() -> Seq<char> {
    "$reader = New-Object System.IO.StreamReader([Console]::OpenStandardInput(), [System.Text.Encoding]::UTF8); $json = $reader.ReadToEnd(); try { $c = New-Object System.Net.Sockets.TcpClient('127.0.0.1', "@
}

/// The part of the event command after the port.
pub open spec fn command_tail() -> Seq<char> {
    "); $s = $c.GetStream(); $b = [System.Text.Encoding]::UTF8.GetBytes($json); $s.Write($b, 0, $b.Length); $s.Close(); $c.Close() } catch {}"@
}

/// The PowerShell one-liner that forwards an event, read from stdin as
/// UTF-8, to the hook bridge, swallowing connection errors.
pub open spec fn event_command_text() -> Seq<char> {
    command_head() + decimal(bridge_port()) + command_tail()
}

/// Our `PermissionRequest` hook.
pub open spec fn http_hook() -> Json {
    Json::Object(seq![("type"@, Json::Str("http"@)), ("url"@, Json::Str(permission_url_text()))])
}

/// Our lifecycle-event hook.
pub open spec fn command_hook() -> Json {
    Json::Object(seq![("type"@, Json::Str("command"@)), ("command"@, Json::Str(event_command_text()))])
}

/// The hook registered for the `i`-th registered event.
pub open spec fn registered_hook(i: int) -> Json {
    if i == 0 { http_hook() } else { command_hook() }
}

/// The `hooks` object after registering the first `n` events.
pub open spec fn add_first(hooks: Seq<(Seq<char>, Json)>, n: nat) -> Seq<(Seq<char>, Json)>
    decreases n,
{
    if n == 0 {
        hooks
    } else {
        let i = n - 1;
        add_hook(add_first(hooks, i as nat), registered_events()[i], registered_hook(i))
    }
}

/// The `hooks` object after removing the first `n` registered events.
pub open spec fn remove_first(hooks: Seq<(Seq<char>, Json)>, n: nat) -> Seq<(Seq<char>, Json)>
    decreases n,
{
    if n == 0 {
        hooks
    } else {
        remove_hook(remove_first(hooks, (n - 1) as nat), registered_events()[n - 1])
    }
}

/// The `hooks` member of a settings object, as an object (empty when
/// missing or not an object).
pub open spec fn hooks_of(root: Seq<(Seq<char>, Json)>) -> Seq<(Seq<char>, Json)> {
    match jget(Json::Object(root), "hooks"@) {
        Some(Json::Object(h)) => h,
        _ => Seq::empty(),
    }
}

/// Whether the settings carry a `hooks` member that is not an object: a
/// shape we do not understand, which is never clobbered.
pub open spec fn hooks_foreign(root: Seq<(Seq<char>, Json)>) -> bool {
    match jget(Json::Object(root), "hooks"@) {
        Some(Json::Object(_)) => false,
        Some(_) => true,
        None => false,
    }
}

/// The settings object after installing (`enabled`) or uninstalling our
/// hooks: only the `hooks` member changes, and it goes away when nothing
/// is left in it. A `hooks` member that is not an object is kept as it
/// is, and then nothing changes.
pub open spec fn settings_after(root: Seq<(Seq<char>, Json)>, enabled: bool) -> Seq<(Seq<char>, Json)> {
    if hooks_foreign(root) {
        root
    } else {
        updated_settings(root, enabled)
    }
}

/// `settings_after` for settings whose `hooks` member is an object or
/// missing.
pub open spec fn updated_settings(root: Seq<(Seq<char>, Json)>, enabled: bool) -> Seq<(Seq<char>, Json)> {
    let h = if enabled {
        add_first(hooks_of(root), REGISTRATIONS as nat)
    } else {
        remove_first(hooks_of(root), REGISTRATIONS as nat)
    };
    if h.len() == 0 {
        without_key(root, "hooks"@)
    } else {
        jinsert(root, "hooks"@, Json::Object(h))
    }
}

/// The view of an optional owned value.
pub open spec fn opt_jv(o: Option<JsonValue>) -> Option<Json> {
    match o {
        Some(v) => Some(v.j()),
        None => None,
    }
}

/// The url of the permission endpoint.
pub fn permission_url() -> (s: String)
    ensures
        s@ == permission_url_text(),
{
    let mut v: Vec<char> = Vec::new();
    push_str(&mut v, "http://127.0.0.1:");
    let port = decimal_chars(crate::permission::PORT as u64);
    push_all(&mut v, &port);
    push_str(&mut v, "/permission");
    string_of(&v)
}

/// The PowerShell one-liner registered on the lifecycle events. It reads
/// stdin as explicit UTF-8 (the default encoding corrupts non-ASCII
/// payloads) and forwards the bytes verbatim to the hook bridge.
pub fn event_command() -> (s: String)
    ensures
        s@ == event_command_text(),
{
    let mut v: Vec<char> = Vec::new();
    push_str(&mut v, "$reader = New-Object System.IO.StreamReader([Console]::OpenStandardInput(), [System.Text.Encoding]::UTF8); $json = $reader.ReadToEnd(); try { $c = New-Object System.Net.Sockets.TcpClient('127.0.0.1', ");
    let port = decimal_chars(crate::hook_bridge::PORT as u64);
    push_all(&mut v, &port);
    push_str(&mut v, "); $s = $c.GetStream(); $b = [System.Text.Encoding]::UTF8.GetBytes($json); $s.Write($b, 0, $b.Length); $s.Close(); $c.Close() } catch {}");
    string_of(&v)
}

/// A string value holding `s`.
fn str_of_string(s: String) -> (v: JsonValue)
    ensures
        v.j() == Json::Str(s@),
{
    JsonValue::Str(s)
}

/// Our `PermissionRequest` hook object.
pub fn permission_hook() -> (h: JsonValue)
    ensures
        h.j() == http_hook(),
{
    let mut es: Vec<(String, JsonValue)> = Vec::new();
    es.push((string_of(&chars_of("type")), str_value("http")));
    es.push((string_of(&chars_of("url")), str_of_string(permission_url())));
    proof {
        lemma_entries_j(es@);
        assert(entries_j(es@) =~= seq![("type"@, Json::Str("http"@)), ("url"@, Json::Str(permission_url_text()))]);
    }
    JsonValue::Object(es)
}

/// Our lifecycle-event hook object.
pub fn bridge_hook() -> (h: JsonValue)
    ensures
        h.j() == command_hook(),
{
    let mut es: Vec<(String, JsonValue)> = Vec::new();
    es.push((string_of(&chars_of("type")), str_value("command")));
    es.push((string_of(&chars_of("command")), str_of_string(event_command())));
    proof {
        lemma_entries_j(es@);
        assert(entries_j(es@) =~= seq![("type"@, Json::Str("command"@)), ("command"@, Json::Str(event_command_text()))]);
    }
    JsonValue::Object(es)
}

/// Whether one inner hook object is ours (see `is_ours`).
pub fn is_ours_hook(h: &JsonValue) -> (r: bool)
    ensures
        r == is_ours(h.j()),
{
    match as_str(get(h, "type")) {
        Some(t) => {
            let tc = chars_of(t.as_str());
            if chars_eq_str(&tc, "http") {
                match as_str(get(h, "url")) {
                    Some(u) => {
                        let uc = chars_of(u.as_str());
                        let port = decimal_chars(crate::permission::PORT as u64);
                        chars_contain(&uc, &port)
                    },
                    None => false,
                }
            } else if chars_eq_str(&tc, "command") {
                match as_str(get(h, "command")) {
                    Some(c) => {
                        let cc = chars_of(c.as_str());
                        let port = decimal_chars(crate::hook_bridge::PORT as u64);
                        chars_contain(&cc, &port)
                    },
                    None => false,
                }
            } else {
                false
            }
        },
        None => false,
    }
}

/// The inner hooks that are not ours.
fn keep_foreign(inner: &Vec<JsonValue>) -> (r: Vec<JsonValue>)
    ensures
        items_j(r@) == foreign_hooks(items_j(inner@)),
{
    let mut out: Vec<JsonValue> = Vec::new();
    let n = inner.len();
    let mut i: usize = 0;
    proof {
        lemma_items_j(inner@);
    }
    while i < n
        invariant
            n == inner@.len(),
            i <= n,
            items_j(inner@).len() == n,
            forall|k: int| 0 <= k < n ==> #[trigger] items_j(inner@)[k] == inner@[k].j(),
            items_j(out@) == foreign_hooks(items_j(inner@).take(i as int)),
        decreases n - i,
    {
        let ghost before = out@;
        let ours = is_ours_hook(&inner[i]);
        proof {
            assert(items_j(inner@).take(i + 1).drop_last() =~= items_j(inner@).take(i as int));
        }
        if !ours {
            let c = deep_clone(&inner[i]);
            out.push(c);
            proof {
                assert(out@.drop_last() =~= before);
            }
        }
        i += 1;
    }
    assert(items_j(inner@).take(n as int) =~= items_j(inner@));
    out
}

/// One group with our inner hooks taken out (see `stripped_group`).
fn strip_group(g: &JsonValue) -> (r: Option<JsonValue>)
    ensures
        opt_jv(r) == stripped_group(g.j()),
{
    match g {
        JsonValue::Object(es) => {
            let key = chars_of("hooks");
            proof {
                lemma_entries_j(es@);
            }
            match find_key(es, &key) {
                Some(i) => {
                    assert(entries_j(es@)[i as int] == (es@[i as int].0@, es@[i as int].1.j()));
                    match &es[i].1 {
                        JsonValue::Array(inner) => {
                            let kept = keep_foreign(inner);
                            if kept.len() == 0 {
                                None
                            } else {
                                let mut es2: Vec<(String, JsonValue)> = Vec::new();
                                let c = deep_clone(g);
                                match c {
                                    JsonValue::Object(e2) => {
                                        es2 = e2;
                                    },
                                    _ => {},
                                }
                                proof {
                                    lemma_entries_j(es2@);
                                }
                                let ghost before = es2@;
                                es2.set(i, (string_of(&key), JsonValue::Array(kept)));
                                proof {
                                    lemma_entries_j(es2@);
                                    assert(entries_j(es2@) =~= entries_j(es@).update(
                                        i as int,
                                        ("hooks"@, Json::Array(foreign_hooks(items_j(inner@)))),
                                    ));
                                }
                                Some(JsonValue::Object(es2))
                            }
                        },
                        _ => Some(deep_clone(g)),
                    }
                },
                None => Some(deep_clone(g)),
            }
        },
        _ => Some(deep_clone(g)),
    }
}

/// An event's groups with our inner hooks taken out (see `strip_groups`).
fn strip_ours(groups: &Vec<JsonValue>) -> (r: Vec<JsonValue>)
    ensures
        items_j(r@) == strip_groups(items_j(groups@)),
{
    let mut out: Vec<JsonValue> = Vec::new();
    let n = groups.len();
    let mut i: usize = 0;
    proof {
        lemma_items_j(groups@);
    }
    while i < n
        invariant
            n == groups@.len(),
            i <= n,
            items_j(groups@).len() == n,
            forall|k: int| 0 <= k < n ==> #[trigger] items_j(groups@)[k] == groups@[k].j(),
            items_j(out@) == strip_groups(items_j(groups@).take(i as int)),
        decreases n - i,
    {
        let ghost before = out@;
        let s = strip_group(&groups[i]);
        proof {
            assert(items_j(groups@).take(i + 1).drop_last() =~= items_j(groups@).take(i as int));
        }
        match s {
            Some(g) => {
                out.push(g);
                proof {
                    assert(out@.drop_last() =~= before);
                }
            },
            None => {},
        }
        i += 1;
    }
    assert(items_j(groups@).take(n as int) =~= items_j(groups@));
    out
}

/// A group whose `hooks` array holds one of our hooks has ours.
pub proof fn lemma_group_has_ours(g: Json, inner: Seq<Json>, k: int)
    requires
        jarray(jget(g, "hooks"@)) == Some(inner),
        0 <= k < inner.len(),
        is_ours(inner[k]),
    ensures
        group_has_ours(g),
{
    let i2 = jarray(jget(g, "hooks"@))->0;
    assert(i2 == inner);
    assert(is_ours(i2[k]));
    assert(exists|j: int| 0 <= j < i2.len() && #[trigger] is_ours(i2[j]));
}

/// An event with a group that has ours has ours.
pub proof fn lemma_has_ours(hooks: Seq<(Seq<char>, Json)>, event: Seq<char>, gs: Seq<Json>, k: int)
    requires
        jarray(jget(Json::Object(hooks), event)) == Some(gs),
        0 <= k < gs.len(),
        group_has_ours(gs[k]),
    ensures
        has_ours(hooks, event),
{
    let g2 = jarray(jget(Json::Object(hooks), event))->0;
    assert(g2 == gs);
    assert(group_has_ours(g2[k]));
    assert(exists|j: int| 0 <= j < g2.len() && #[trigger] group_has_ours(g2[j]));
}

/// Whether a hook group holds one of our inner hooks.
fn group_holds_ours(g: &JsonValue) -> (r: bool)
    ensures
        r == group_has_ours(g.j()),
{
    match get(g, "hooks") {
        Some(JsonValue::Array(inner)) => {
            proof {
                lemma_items_j(inner@);
            }
            let n = inner.len();
            let mut k: usize = 0;
            while k < n
                invariant
                    n == inner@.len(),
                    k <= n,
                    items_j(inner@).len() == n,
                    forall|j: int| 0 <= j < n ==> #[trigger] items_j(inner@)[j] == inner@[j].j(),
                    forall|j: int| 0 <= j < k ==> !is_ours(#[trigger] items_j(inner@)[j]),
                    jarray(jget(g.j(), "hooks"@)) == Some(items_j(inner@)),
                decreases n - k,
            {
                if is_ours_hook(&inner[k]) {
                    proof {
                        lemma_group_has_ours(g.j(), items_j(inner@), k as int);
                    }
                    return true;
                }
                k += 1;
            }
            false
        },
        _ => false,
    }
}

/// Whether `event` carries one of our inner hooks in the `hooks` object
/// `hooks` (see `has_ours`).
pub fn has_ours_hook(hooks: &Vec<(String, JsonValue)>, event: &str) -> (r: bool)
    ensures
        r == has_ours(entries_j(hooks@), event@),
{
    let key = chars_of(event);
    proof {
        lemma_entries_j(hooks@);
    }
    match find_key(hooks, &key) {
        Some(i) => {
            assert(entries_j(hooks@)[i as int] == (hooks@[i as int].0@, hooks@[i as int].1.j()));
            match &hooks[i].1 {
                JsonValue::Array(groups) => {
                    proof {
                        lemma_items_j(groups@);
                    }
                    let n = groups.len();
                    let mut k: usize = 0;
                    while k < n
                        invariant
                            n == groups@.len(),
                            k <= n,
                            items_j(groups@).len() == n,
                            forall|j: int| 0 <= j < n ==> #[trigger] items_j(groups@)[j] == groups@[j].j(),
                            forall|j: int| 0 <= j < k ==> !group_has_ours(#[trigger] items_j(groups@)[j]),
                            jarray(jget(Json::Object(entries_j(hooks@)), event@)) == Some(items_j(groups@)),
                        decreases n - k,
                    {
                        if group_holds_ours(&groups[k]) {
                            assert(jarray(jget(Json::Object(entries_j(hooks@)), event@)) == Some(items_j(groups@)));
                            proof {
                                lemma_has_ours(entries_j(hooks@), event@, items_j(groups@), k as int);
                            }
                            return true;
                        }
                        k += 1;
                    }
                    false
                },
                _ => false,
            }
        },
        None => false,
    }
}

/// Our group for `event`, holding `hook`.
fn make_group(event: &str, hook: JsonValue) -> (g: JsonValue)
    ensures
        g.j() == our_group(event@, hook.j()),
{
    let ghost hj = hook.j();
    let ev = chars_of(event);
    let matched = chars_eq_str(&ev, "PreToolUse") || chars_eq_str(&ev, "PostToolUse");
    let mut es: Vec<(String, JsonValue)> = Vec::new();
    if matched {
        es.push((string_of(&chars_of("matcher")), str_value("*")));
    }
    let mut inner: Vec<JsonValue> = Vec::new();
    inner.push(hook);
    proof {
        lemma_items_j(inner@);
        assert(items_j(inner@) =~= seq![hj]);
    }
    es.push((string_of(&chars_of("hooks")), JsonValue::Array(inner)));
    proof {
        lemma_entries_j(es@);
        if matched {
            assert(entries_j(es@) =~= seq![("matcher"@, Json::Str("*"@)), ("hooks"@, Json::Array(seq![hj]))]);
        } else {
            assert(entries_j(es@) =~= seq![("hooks"@, Json::Array(seq![hj]))]);
        }
    }
    JsonValue::Object(es)
}

/// Registers `hook` for `event`: the event's existing groups lose our inner
/// hooks, then our group is appended (a value that is not an array is
/// replaced by a list holding our group alone).
pub fn add(hooks: &mut Vec<(String, JsonValue)>, event: &str, hook: JsonValue)
    ensures
        entries_j(final(hooks)@) == add_hook(entries_j(old(hooks)@), event@, hook.j()),
{
    let g = make_group(event, hook);
    let key = chars_of(event);
    proof {
        lemma_entries_j(hooks@);
    }
    let newv = match find_key(hooks, &key) {
        Some(i) => {
            assert(entries_j(hooks@)[i as int] == (hooks@[i as int].0@, hooks@[i as int].1.j()));
            match &hooks[i].1 {
                JsonValue::Array(gs) => {
                    let mut s = strip_ours(gs);
                    let ghost before = s@;
                    s.push(g);
                    proof {
                        assert(s@.drop_last() =~= before);
                    }
                    JsonValue::Array(s)
                },
                _ => {
                    let mut s: Vec<JsonValue> = Vec::new();
                    s.push(g);
                    proof {
                        lemma_items_j(s@);
                        assert(items_j(s@) =~= seq![s@[0].j()]);
                    }
                    JsonValue::Array(s)
                },
            }
        },
        None => {
            let mut s: Vec<JsonValue> = Vec::new();
            s.push(g);
            proof {
                lemma_items_j(s@);
                assert(items_j(s@) =~= seq![s@[0].j()]);
            }
            JsonValue::Array(s)
        },
    };
    insert(hooks, string_of(&key), newv);
}

/// The entries of an object without any entry under `key`.
pub fn remove_key(entries: &Vec<(String, JsonValue)>, key: &str) -> (r: Vec<(String, JsonValue)>)
    ensures
        entries_j(r@) == without_key(entries_j(entries@), key@),
{
    let k = chars_of(key);
    let mut out: Vec<(String, JsonValue)> = Vec::new();
    let n = entries.len();
    let mut i: usize = 0;
    proof {
        lemma_entries_j(entries@);
    }
    while i < n
        invariant
            n == entries@.len(),
            i <= n,
            k@ == key@,
            entries_j(entries@).len() == n,
            forall|j: int| 0 <= j < n ==> #[trigger] entries_j(entries@)[j] == (entries@[j].0@, entries@[j].1.j()),
            entries_j(out@) == without_key(entries_j(entries@).take(i as int), key@),
        decreases n - i,
    {
        let ghost before = out@;
        let ek = chars_of(entries[i].0.as_str());
        proof {
            assert(entries_j(entries@).take(i + 1).drop_last() =~= entries_j(entries@).take(i as int));
        }
        if !crate::text::chars_eq(&ek, &k) {
            let name = entries[i].0.clone();
            let c = deep_clone(&entries[i].1);
            out.push((name, c));
            proof {
                assert(out@.drop_last() =~= before);
            }
        }
        i += 1;
    }
    assert(entries_j(entries@).take(n as int) =~= entries_j(entries@));
    out
}

/// Removes our registration for `event` (see `remove_hook`).
pub fn remove(hooks: &mut Vec<(String, JsonValue)>, event: &str)
    ensures
        entries_j(final(hooks)@) == remove_hook(entries_j(old(hooks)@), event@),
{
    let key = chars_of(event);
    proof {
        lemma_entries_j(hooks@);
    }
    match find_key(hooks, &key) {
        Some(i) => {
            assert(entries_j(hooks@)[i as int] == (hooks@[i as int].0@, hooks@[i as int].1.j()));
            let stripped = match &hooks[i].1 {
                JsonValue::Array(gs) => Some(strip_ours(gs)),
                _ => None,
            };
            match stripped {
                Some(s) => {
                    if s.len() == 0 {
                        let r = remove_key(hooks, event);
                        *hooks = r;
                    } else {
                        insert(hooks, string_of(&key), JsonValue::Array(s));
                    }
                },
                None => {},
            }
        },
        None => {},
    }
}

/// The `i`-th registered event.
pub fn registered_event(i: usize) -> (e: &'static str)
    requires
        i < REGISTRATIONS,
    ensures
        e@ == registered_events()[i as int],
{
    if i == 0 {
        "PermissionRequest"
    } else if i == 1 {
        "SessionStart"
    } else if i == 2 {
        "SessionEnd"
    } else if i == 3 {
        "UserPromptSubmit"
    } else if i == 4 {
        "PreToolUse"
    } else if i == 5 {
        "PostToolUse"
    } else if i == 6 {
        "Stop"
    } else if i == 7 {
        "Notification"
    } else if i == 8 {
        "PreCompact"
    } else {
        "PostCompact"
    }
}

/// The `hooks` member of a settings object as an object's entries (empty
/// when missing or not an object).
pub fn hooks_object(root: &Vec<(String, JsonValue)>) -> (r: Vec<(String, JsonValue)>)
    ensures
        entries_j(r@) == hooks_of(entries_j(root@)),
{
    let key = chars_of("hooks");
    proof {
        lemma_entries_j(root@);
    }
    match find_key(root, &key) {
        Some(i) => {
            assert(entries_j(root@)[i as int] == (root@[i as int].0@, root@[i as int].1.j()));
            match &root[i].1 {
                JsonValue::Object(_) => {
                    let c = deep_clone(&root[i].1);
                    match c {
                        JsonValue::Object(h) => h,
                        _ => Vec::new(),
                    }
                },
                _ => Vec::new(),
            }
        },
        None => Vec::new(),
    }
}

/// A copy of an object's entries.
fn clone_entries(es: &Vec<(String, JsonValue)>) -> (r: Vec<(String, JsonValue)>)
    ensures
        entries_j(r@) == entries_j(es@),
{
    let mut out: Vec<(String, JsonValue)> = Vec::new();
    let n = es.len();
    let mut i: usize = 0;
    proof {
        lemma_entries_j(es@);
    }
    while i < n
        invariant
            n == es@.len(),
            i <= n,
            entries_j(es@).len() == n,
            forall|j: int| 0 <= j < n ==> #[trigger] entries_j(es@)[j] == (es@[j].0@, es@[j].1.j()),
            entries_j(out@) == entries_j(es@).take(i as int),
        decreases n - i,
    {
        let ghost before = out@;
        let name = es[i].0.clone();
        let c = deep_clone(&es[i].1);
        out.push((name, c));
        proof {
            assert(out@.drop_last() =~= before);
            assert(entries_j(es@).take(i + 1) =~= entries_j(es@).take(i as int).push(entries_j(es@)[i as int]));
        }
        i += 1;
    }
    assert(entries_j(es@).take(n as int) =~= entries_j(es@));
    out
}

/// Whether the settings' `hooks` member is there but not an object.
fn hooks_member_foreign(root: &Vec<(String, JsonValue)>) -> (r: bool)
    ensures
        r == hooks_foreign(entries_j(root@)),
{
    let key = chars_of("hooks");
    proof {
        lemma_entries_j(root@);
    }
    match find_key(root, &key) {
        Some(i) => {
            assert(entries_j(root@)[i as int] == (root@[i as int].0@, root@[i as int].1.j()));
            match &root[i].1 {
                JsonValue::Object(_) => false,
                _ => true,
            }
        },
        None => false,
    }
}

/// The settings object after installing (`enabled`) or uninstalling our
/// hooks (see `settings_after`).
pub fn apply_hooks(root: &Vec<(String, JsonValue)>, enabled: bool) -> (r: Vec<(String, JsonValue)>)
    ensures
        entries_j(r@) == settings_after(entries_j(root@), enabled),
{
    if hooks_member_foreign(root) {
        return clone_entries(root);
    }
    let mut hooks = hooks_object(root);
    let ghost h0 = entries_j(hooks@);
    let mut i: usize = 0;
    while i < REGISTRATIONS
        invariant
            i <= REGISTRATIONS,
            entries_j(hooks@) == if enabled { add_first(h0, i as nat) } else { remove_first(h0, i as nat) },
        decreases REGISTRATIONS - i,
    {
        let event = registered_event(i);
        if enabled {
            let hook = if i == 0 { permission_hook() } else { bridge_hook() };
            self::add(&mut hooks, event, hook);
        } else {
            remove(&mut hooks, event);
        }
        i += 1;
    }
    let mut out: Vec<(String, JsonValue)>;
    if hooks.len() == 0 {
        out = remove_key(root, "hooks");
    } else {
        out = clone_entries(root);
        proof {
            lemma_entries_j(hooks@);
        }
        insert(&mut out, string_of(&chars_of("hooks")), JsonValue::Object(hooks));
    }
    out
}

/// What the preferences screen shows about our registrations.
pub struct ClaudeHooks {
    /// Absolute path of the settings file, whether or not it exists yet.
    pub path: String,
    pub settings_exist: bool,
    /// False when the file is present but is not a JSON object: the one case
    /// where installing would have to overwrite something it cannot
    /// understand, so it refuses instead.
    pub readable: bool,
    pub permission_hook: bool,
    /// How many of the lifecycle events currently carry our command hook.
    pub event_hooks: usize,
    pub event_total: usize,
    pub installed: bool,
}

/// How many lifecycle events there are (the registered events after
/// `PermissionRequest`).
pub const EVENT_TOTAL: usize = 9;

/// Whether a parsed settings document is an object.
pub open spec fn is_object(parsed: Option<Json>) -> bool {
    parsed matches Some(Json::Object(_))
}

/// The entries of a parsed settings object (empty otherwise).
pub open spec fn object_entries(parsed: Option<Json>) -> Seq<(Seq<char>, Json)> {
    match parsed {
        Some(Json::Object(es)) => es,
        _ => Seq::empty(),
    }
}

/// How many of the registered events `1..n` carry our hook.
pub open spec fn lifecycle_count(hooks: Seq<(Seq<char>, Json)>, n: nat) -> nat
    decreases n,
{
    if n <= 1 {
        0
    } else {
        lifecycle_count(hooks, (n - 1) as nat) + if has_ours(hooks, registered_events()[n - 1]) { 1nat } else { 0nat }
    }
}

/// Summarises what is registered in a settings document: `file_exists` says
/// whether the file exists, `parsed` what it parsed to (an empty or blank
/// file counts as an empty object).
pub fn describe(path: String, file_exists: bool, parsed: Option<&JsonValue>) -> (d: ClaudeHooks)
    ensures
        d.path@ == path@,
        d.settings_exist == file_exists,
        d.readable == (!file_exists || is_object(opt_j(parsed))),
        d.permission_hook == has_ours(hooks_of(object_entries(opt_j(parsed))), "PermissionRequest"@),
        d.event_hooks == lifecycle_count(hooks_of(object_entries(opt_j(parsed))), REGISTRATIONS as nat),
        d.event_total == EVENT_TOTAL,
        d.installed == (d.permission_hook && d.event_hooks == EVENT_TOTAL),
{
    let empty: Vec<(String, JsonValue)> = Vec::new();
    let (is_obj, hooks) = match parsed {
        Some(JsonValue::Object(es)) => (true, hooks_object(es)),
        _ => (false, empty),
    };
    let permission_hook = has_ours_hook(&hooks, "PermissionRequest");
    let mut count: usize = 0;
    let mut i: usize = 1;
    while i < REGISTRATIONS
        invariant
            1 <= i <= REGISTRATIONS,
            count <= i,
            count == lifecycle_count(entries_j(hooks@), i as nat),
        decreases REGISTRATIONS - i,
    {
        if has_ours_hook(&hooks, registered_event(i)) {
            count += 1;
        }
        i += 1;
    }
    let event_hooks = count;
    ClaudeHooks {
        path,
        settings_exist: file_exists,
        readable: !file_exists || is_obj,
        permission_hook,
        event_hooks,
        event_total: EVENT_TOTAL,
        installed: permission_hook && event_hooks == EVENT_TOTAL,
    }
}

/// What `claude_hooks_status` reports when no home directory can be found.
pub fn status_without_home() -> (d: ClaudeHooks)
    ensures
        d.path@ == Seq::<char>::empty(),
        !d.settings_exist,
        !d.readable,
        !d.permission_hook,
        d.event_hooks == 0,
        d.event_total == EVENT_TOTAL,
        !d.installed,
{
    ClaudeHooks {
        path: String::new(),
        settings_exist: false,
        readable: false,
        permission_hook: false,
        event_hooks: 0,
        event_total: EVENT_TOTAL,
        installed: false,
    }
}

/// What installing or uninstalling does to a settings document.
pub enum HooksUpdate {
    /// The file exists but is not a JSON object: refuse to touch it.
    NotAnObject,
    /// Uninstalling with no file: nothing to remove.
    NothingToRemove,
    /// Write this settings object.
    Write(Vec<(String, JsonValue)>),
}

/// Decides the update for `enabled` given whether the settings file
/// exists and what it parsed to (`None` when missing or unparsable).
pub fn plan_hooks_update(file_exists: bool, parsed: Option<JsonValue>, enabled: bool) -> (u: HooksUpdate)
    ensures
        if file_exists && !is_object(opt_jv(parsed)) {
            u is NotAnObject
        } else if !file_exists && !enabled {
            u is NothingToRemove
        } else {
            u matches HooksUpdate::Write(root)
                && entries_j(root@) == settings_after(object_entries(opt_jv(parsed)), enabled)
        },
{
    let is_obj = match &parsed {
        Some(JsonValue::Object(_)) => true,
        _ => false,
    };
    if file_exists && !is_obj {
        return HooksUpdate::NotAnObject;
    }
    if !file_exists && !enabled {
        return HooksUpdate::NothingToRemove;
    }
    let root: Vec<(String, JsonValue)> = match parsed {
        Some(JsonValue::Object(es)) => es,
        _ => Vec::new(),
    };
    HooksUpdate::Write(apply_hooks(&root, enabled))
}

/// The bytes of an optional file.
pub open spec fn opt_bytes(file: Option<&[u8]>) -> Option<Seq<u8>> {
    match file {
        Some(b) => Some(b@),
        None => None,
    }
}

/// What a settings file holds (`None` for no file): an empty object when
/// its text is blank, otherwise the JSON parse of its text; `None` when it
/// is not UTF-8 text or not JSON, which install and uninstall refuse.
pub open spec fn settings_doc(file: Option<Seq<u8>>) -> Option<Json> {
    match file {
        None => None,
        Some(b) => if !valid_utf8(b) {
            None
        } else if forall|i: int| 0 <= i < decode_utf8(b).len() ==> #[trigger] crate::text::is_white_space(decode_utf8(b)[i]) {
            Some(Json::Object(Seq::empty()))
        } else {
            parsed_json(decode_utf8(b))
        },
    }
}

/// Reads a settings file's bytes (`None` for no file) into a document
/// (see `settings_doc`).
pub fn read_settings(file: Option<&[u8]>) -> (r: Option<JsonValue>)
    ensures
        opt_jv(r) == settings_doc(opt_bytes(file)),
{
    let b = match file {
        Some(b) => b,
        None => return None,
    };
    let text = match utf8_text(b) {
        Some(t) => t,
        None => return None,
    };
    if crate::text::is_blank(text.as_str()) {
        return Some(JsonValue::Object(Vec::new()));
    }
    parse_json(text.as_str())
}

/// `describe` for a settings file given by its bytes (`None` when there is
/// no file).
pub fn describe_file(path: String, file: Option<&[u8]>) -> (d: ClaudeHooks)
    ensures
        d.path@ == path@,
        d.settings_exist == (file is Some),
        d.readable == (file is None || is_object(settings_doc(opt_bytes(file)))),
        d.permission_hook == has_ours(hooks_of(object_entries(settings_doc(opt_bytes(file)))), "PermissionRequest"@),
        d.event_hooks == lifecycle_count(hooks_of(object_entries(settings_doc(opt_bytes(file)))), REGISTRATIONS as nat),
        d.event_total == EVENT_TOTAL,
        d.installed == (d.permission_hook && d.event_hooks == EVENT_TOTAL),
{
    let parsed = read_settings(file);
    describe(path, file.is_some(), parsed.as_ref())
}

/// `plan_hooks_update` for a settings file given by its bytes (`None` when
/// there is no file): a file that is not UTF-8 JSON text holding an object
/// is refused.
pub fn plan_hooks_file(file: Option<&[u8]>, enabled: bool) -> (u: HooksUpdate)
    ensures
        if file is Some && !is_object(settings_doc(opt_bytes(file))) {
            u is NotAnObject
        } else if file is None && !enabled {
            u is NothingToRemove
        } else {
            u matches HooksUpdate::Write(root)
                && entries_j(root@) == settings_after(object_entries(settings_doc(opt_bytes(file))), enabled)
        },
{
    let parsed = read_settings(file);
    plan_hooks_update(file.is_some(), parsed, enabled)
}

/// Whether a settings file holding `text` (as UTF-8) reads as the same
/// document as `v`.
pub open spec fn reads_back(text: Seq<char>, v: Json) -> bool {
    settings_doc(Some(encode_utf8(text))) matches Some(w) && same_json(w, v)
}

/// The text written back to the settings file: the object printed
/// indented, then a newline. A printable object reads back from it as the
/// same document.
pub fn settings_file_text(root: Vec<(String, JsonValue)>) -> (s: String)
    ensures
        s@ == pretty_json(Json::Object(entries_j(root@))) + "\n"@,
        printable(Json::Object(entries_j(root@))) ==> reads_back(s@, Json::Object(entries_j(root@))),
{
    let ghost j = Json::Object(entries_j(root@));
    let doc = JsonValue::Object(root);
    let t = pretty_text(&doc);
    let mut v = chars_of(t.as_str());
    push_str(&mut v, "\n");
    let s = string_of(&v);
    proof {
        reveal_strlit("\n");
        assert("\n"@ == seq!['\n']);
        if printable(j) {
            let text = s@;
            assert(text[0] as u32 == 0x7B);
            assert(!crate::text::is_white_space(text[0]));
            encode_utf8_valid_utf8(text);
            encode_utf8_decode_utf8(text);
            assert(!(forall|i: int| 0 <= i < decode_utf8(encode_utf8(text)).len() ==> #[trigger] crate::text::is_white_space(decode_utf8(encode_utf8(text))[i])));
        }
    }
    s
}

} // verus!
