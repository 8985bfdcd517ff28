//! What installing and uninstalling our hook registrations promise of the
//! settings document as a whole: installing (or uninstalling) twice is
//! doing it once, uninstalling removes exactly what installing added and
//! gives clean settings back, only our entries ever change, a `hooks`
//! member that is not an object is never touched, and afterwards each event
//! carries exactly one hook of ours (or none).
use vstd::prelude::*;
use crate::json::{Json, first_key_index, lemma_first_key_index, lemma_first_key_index_char, lemma_first_key_index_update, lemma_first_key_index_push, jget, jarray, jstr, jinsert};
use crate::text::{contains_seq, occurs_at, decimal};
use crate::claude_hooks::{
    is_ours, foreign_hooks, stripped_group, strip_groups, group_has_ours, has_ours, is_matched_event, our_group,
    with_our_group, add_hook, without_key, remove_hook, registered_events, registered_hook, REGISTRATIONS,
    add_first, remove_first, hooks_of, settings_after, hooks_foreign, http_hook, command_hook, permission_url_text,
    event_command_text, command_head, command_tail, permission_port, bridge_port,
};

verus! {

/// Looking a key up after setting a member.
pub proof fn lemma_jget_jinsert(es: Seq<(Seq<char>, Json)>, k: Seq<char>, v: Json, k2: Seq<char>)
    ensures
        jget(Json::Object(jinsert(es, k, v)), k2) == if k2 == k { Some(v) } else { jget(Json::Object(es), k2) },
{
    lemma_first_key_index(es, k);
    lemma_first_key_index(es, k2);
    match first_key_index(es, k) {
        Some(i) => {
            lemma_first_key_index_update(es, i, v, k2);
            let u = es.update(i, (es[i].0, v));
            assert(u =~= es.update(i, (k, v)));
        },
        None => {
            if k2 == k {
                lemma_first_key_index_push(es, k, v);
            } else {
                let p = es.push((k, v));
                assert forall|j: int| 0 <= j < es.len() implies p[j] == es[j] by {}
                lemma_first_key_index_char(p, k2, first_key_index(es, k2));
            }
        },
    }
}

/// Looking a key up after appending an entry.
pub proof fn lemma_jget_push(es: Seq<(Seq<char>, Json)>, e: (Seq<char>, Json), k2: Seq<char>)
    ensures
        jget(Json::Object(es.push(e)), k2) == match jget(Json::Object(es), k2) {
            Some(x) => Some(x),
            None => if e.0 == k2 { Some(e.1) } else { None },
        },
{
    let p = es.push(e);
    assert(p.drop_last() =~= es);
    lemma_first_key_index(es, k2);
    match first_key_index(es, k2) {
        Some(i) => {
            assert(p[i] == es[i]);
        },
        None => {},
    }
}

/// Looking a key up after removing every entry under some key.
pub proof fn lemma_jget_without_key(es: Seq<(Seq<char>, Json)>, k: Seq<char>, k2: Seq<char>)
    ensures
        jget(Json::Object(without_key(es, k)), k2) == if k2 == k { None } else { jget(Json::Object(es), k2) },
    decreases es.len(),
{
    if es.len() == 0 {
        assert(without_key(es, k) =~= es);
    } else {
        let d = es.drop_last();
        let e = es.last();
        assert(es =~= d.push(e));
        lemma_jget_without_key(d, k, k2);
        lemma_jget_push(d, e, k2);
        if e.0 != k {
            lemma_jget_push(without_key(d, k), e, k2);
        }
    }
}

/// A lookup that finds something finds it in a non-empty object.
pub proof fn lemma_jget_some_nonempty(es: Seq<(Seq<char>, Json)>, k: Seq<char>)
    requires
        jget(Json::Object(es), k) is Some,
    ensures
        es.len() > 0,
{
    lemma_first_key_index(es, k);
}

/// Two objects whose lookups all agree are both empty or both non-empty.
pub proof fn lemma_same_lookups_empty(a: Seq<(Seq<char>, Json)>, b: Seq<(Seq<char>, Json)>)
    requires
        forall|k: Seq<char>| jget(Json::Object(a), k) == jget(Json::Object(b), k),
    ensures
        (a.len() == 0) == (b.len() == 0),
{
    if a.len() > 0 {
        lemma_first_key_index(a, a[0].0);
        assert(jget(Json::Object(a), a[0].0) == jget(Json::Object(b), a[0].0));
        lemma_jget_some_nonempty(b, a[0].0);
    }
    if b.len() > 0 {
        lemma_first_key_index(b, b[0].0);
        assert(jget(Json::Object(a), b[0].0) == jget(Json::Object(b), b[0].0));
        lemma_jget_some_nonempty(a, b[0].0);
    }
}

/// Setting a member to the value it already has changes nothing.
pub proof fn lemma_jinsert_same(es: Seq<(Seq<char>, Json)>, k: Seq<char>, v: Json)
    requires
        jget(Json::Object(es), k) == Some(v),
    ensures
        jinsert(es, k, v) == es,
{
    lemma_first_key_index(es, k);
    let i = first_key_index(es, k)->0;
    assert(es.update(i, (k, v)) =~= es);
}

/// The inner hooks kept are none of ours.
pub proof fn lemma_foreign_not_ours(inner: Seq<Json>)
    ensures
        forall|k: int| 0 <= k < foreign_hooks(inner).len() ==> !is_ours(#[trigger] foreign_hooks(inner)[k]),
    decreases inner.len(),
{
    if inner.len() > 0 {
        let d = inner.drop_last();
        lemma_foreign_not_ours(d);
        let f = foreign_hooks(d);
        assert forall|k: int| 0 <= k < foreign_hooks(inner).len() implies !is_ours(#[trigger] foreign_hooks(inner)[k]) by {
            if k < f.len() {
                assert(foreign_hooks(inner)[k] == f[k]);
            }
        }
    }
}

/// Keeping the foreign hooks of foreign hooks keeps them all.
pub proof fn lemma_foreign_idempotent(inner: Seq<Json>)
    ensures
        foreign_hooks(foreign_hooks(inner)) == foreign_hooks(inner),
    decreases inner.len(),
{
    if inner.len() > 0 {
        let d = inner.drop_last();
        lemma_foreign_idempotent(d);
        let f = foreign_hooks(d);
        if !is_ours(inner.last()) {
            assert(f.push(inner.last()).drop_last() =~= f);
        }
    }
}

/// Stripping a stripped group leaves it as it is.
pub proof fn lemma_stripped_group_idempotent(g: Json)
    ensures
        match stripped_group(g) {
            Some(g2) => stripped_group(g2) == Some(g2),
            None => true,
        },
{
    match g {
        Json::Object(es) => match first_key_index(es, "hooks"@) {
            Some(i) => match es[i].1 {
                Json::Array(inner) => {
                    let kept = foreign_hooks(inner);
                    if kept.len() > 0 {
                        lemma_first_key_index(es, "hooks"@);
                        let v = Json::Array(kept);
                        let es2 = es.update(i, ("hooks"@, v));
                        lemma_first_key_index_update(es, i, v, "hooks"@);
                        assert(es2 =~= es.update(i, (es[i].0, v)));
                        lemma_foreign_idempotent(inner);
                        assert(es2.update(i, ("hooks"@, v)) =~= es2);
                    }
                },
                _ => {},
            },
            None => {},
        },
        _ => {},
    }
}

/// Stripping twice is stripping once.
pub proof fn lemma_strip_idempotent(gs: Seq<Json>)
    ensures
        strip_groups(strip_groups(gs)) == strip_groups(gs),
    decreases gs.len(),
{
    if gs.len() > 0 {
        let d = gs.drop_last();
        lemma_strip_idempotent(d);
        lemma_stripped_group_idempotent(gs.last());
        let s = strip_groups(d);
        match stripped_group(gs.last()) {
            Some(g2) => {
                assert(s.push(g2).drop_last() =~= s);
            },
            None => {},
        }
    }
}

/// No group left after stripping holds one of our hooks.
pub proof fn lemma_strip_leaves_none(gs: Seq<Json>)
    ensures
        forall|i: int| 0 <= i < strip_groups(gs).len() ==> !group_has_ours(#[trigger] strip_groups(gs)[i]),
    decreases gs.len(),
{
    if gs.len() > 0 {
        let d = gs.drop_last();
        lemma_strip_leaves_none(d);
        let g = gs.last();
        match stripped_group(g) {
            Some(g2) => {
                let s = strip_groups(d);
                assert(strip_groups(gs) == s.push(g2));
                assert(!group_has_ours(g2)) by {
                    match g {
                        Json::Object(es) => match first_key_index(es, "hooks"@) {
                            Some(i) => match es[i].1 {
                                Json::Array(inner) => {
                                    let kept = foreign_hooks(inner);
                                    lemma_first_key_index(es, "hooks"@);
                                    let v = Json::Array(kept);
                                    lemma_first_key_index_update(es, i, v, "hooks"@);
                                    assert(es.update(i, ("hooks"@, v)) =~= es.update(i, (es[i].0, v)));
                                    lemma_foreign_not_ours(inner);
                                },
                                _ => {},
                            },
                            None => {},
                        },
                        _ => {},
                    }
                }
                assert forall|i: int| 0 <= i < strip_groups(gs).len() implies !group_has_ours(#[trigger] strip_groups(gs)[i]) by {
                    if i < s.len() {
                        assert(strip_groups(gs)[i] == s[i]);
                    }
                }
            },
            None => {
                assert(strip_groups(gs) == strip_groups(d));
            },
        }
    }
}

/// Facts about the literal keys and events that the proofs compare.
pub proof fn lemma_names()
    ensures
        "hooks"@ != "matcher"@,
        "type"@ != "url"@,
        "type"@ != "command"@,
        "http"@ != "command"@,
        forall|i: int, j: int| 0 <= i < j < 10 ==> registered_events()[i] != registered_events()[j],
        forall|i: int| 0 <= i < 10 && i != 4 && i != 5 ==> !is_matched_event(#[trigger] registered_events()[i]),
{
    reveal_strlit("hooks");
    reveal_strlit("matcher");
    reveal_strlit("type");
    reveal_strlit("url");
    reveal_strlit("command");
    reveal_strlit("http");
    reveal_strlit("PermissionRequest");
    reveal_strlit("SessionStart");
    reveal_strlit("SessionEnd");
    reveal_strlit("UserPromptSubmit");
    reveal_strlit("PreToolUse");
    reveal_strlit("PostToolUse");
    reveal_strlit("Stop");
    reveal_strlit("Notification");
    reveal_strlit("PreCompact");
    reveal_strlit("PostCompact");
    assert("hooks"@.len() == 5);
    assert("matcher"@.len() == 7);
    assert("type"@.len() == 4);
    assert("url"@.len() == 3);
    assert("command"@.len() == 7);
    let ev = registered_events();
    assert(ev[0].len() == 17);
    assert(ev[1].len() == 12);
    assert(ev[2].len() == 10);
    assert(ev[3].len() == 16);
    assert(ev[4].len() == 10);
    assert(ev[5].len() == 11);
    assert(ev[6].len() == 4);
    assert(ev[7].len() == 12);
    assert(ev[8].len() == 10);
    assert(ev[9].len() == 11);
    assert(ev[1][0] != ev[7][0]);
    assert(ev[2][0] != ev[4][0]);
    assert(ev[2][0] != ev[8][0]);
    assert(ev[4][3] != ev[8][3]);
    assert(ev[5][4] != ev[9][4]);
}

/// A group we register holds `hook` alone under `hooks`.
pub proof fn lemma_our_group(event: Seq<char>, hook: Json)
    ensures
        jget(our_group(event, hook), "hooks"@) == Some(Json::Array(seq![hook])),
{
    lemma_names();
    let inner = Json::Array(seq![hook]);
    if is_matched_event(event) {
        let es = seq![("matcher"@, Json::Str("*"@)), ("hooks"@, inner)];
        lemma_first_key_index_char(es, "hooks"@, Some(1));
    } else {
        let es = seq![("hooks"@, inner)];
        lemma_first_key_index_char(es, "hooks"@, Some(0));
    }
}

/// Our group is dropped whole when our hooks are stripped, and holds ours.
pub proof fn lemma_our_group_ours(event: Seq<char>, hook: Json)
    requires
        is_ours(hook),
    ensures
        stripped_group(our_group(event, hook)) is None,
        group_has_ours(our_group(event, hook)),
{
    lemma_our_group(event, hook);
    let inner = seq![hook];
    assert(foreign_hooks(Seq::<Json>::empty()) =~= Seq::<Json>::empty());
    assert(inner.drop_last() =~= Seq::<Json>::empty());
    assert(foreign_hooks(inner.drop_last()) =~= Seq::<Json>::empty());
    assert(foreign_hooks(inner) =~= Seq::<Json>::empty());
    crate::claude_hooks::lemma_group_has_ours(our_group(event, hook), inner, 0);
}

/// Stripping after appending our group is stripping without it.
pub proof fn lemma_strip_push_ours(s: Seq<Json>, event: Seq<char>, hook: Json)
    requires
        is_ours(hook),
    ensures
        strip_groups(s.push(our_group(event, hook))) == strip_groups(s),
{
    lemma_our_group_ours(event, hook);
    assert(s.push(our_group(event, hook)).drop_last() =~= s);
}

/// Both hooks we register are recognised as ours.
pub proof fn lemma_hooks_are_ours()
    ensures
        is_ours(http_hook()),
        is_ours(command_hook()),
{
    lemma_names();
    let h = seq![("type"@, Json::Str("http"@)), ("url"@, Json::Str(permission_url_text()))];
    lemma_first_key_index_char(h, "type"@, Some(0));
    lemma_first_key_index_char(h, "url"@, Some(1));
    let head = "http://127.0.0.1:"@;
    let port = decimal(permission_port());
    assert(permission_url_text().subrange(head.len() as int, (head.len() + port.len()) as int) =~= port);
    assert(occurs_at(permission_url_text(), port, head.len() as int));
    let c = seq![("type"@, Json::Str("command"@)), ("command"@, Json::Str(event_command_text()))];
    lemma_first_key_index_char(c, "type"@, Some(0));
    lemma_first_key_index_char(c, "command"@, Some(1));
    let chead = command_head();
    let bport = decimal(bridge_port());
    assert(event_command_text().subrange(chead.len() as int, (chead.len() + bport.len()) as int) =~= bport);
    assert(occurs_at(event_command_text(), bport, chead.len() as int));
}

/// The first of the first `n` registered events that is `k`.
pub open spec fn index_in_first(k: Seq<char>, n: nat) -> Option<int>
    decreases n,
{
    if n == 0 {
        None
    } else {
        match index_in_first(k, (n - 1) as nat) {
            Some(j) => Some(j),
            None => if registered_events()[n - 1] == k { Some(n - 1) } else { None },
        }
    }
}

/// `index_in_first` finds `k` exactly among the first `n` events.
pub proof fn lemma_index_in_first(k: Seq<char>, n: nat)
    requires
        n <= 10,
    ensures
        match index_in_first(k, n) {
            Some(j) => 0 <= j < n && registered_events()[j] == k,
            None => forall|j: int| 0 <= j < n ==> registered_events()[j] != k,
        },
    decreases n,
{
    if n > 0 {
        lemma_index_in_first(k, (n - 1) as nat);
    }
}

/// What an event's value becomes when our hook is removed from it.
pub open spec fn removed(cur: Option<Json>) -> Option<Json> {
    match cur {
        Some(Json::Array(gs)) => if strip_groups(gs).len() == 0 { None } else { Some(Json::Array(strip_groups(gs))) },
        _ => cur,
    }
}

/// Looking any key up after registering the first `n` events.
pub proof fn lemma_add_first_lookup(h: Seq<(Seq<char>, Json)>, n: nat, k: Seq<char>)
    requires
        n <= 10,
    ensures
        jget(Json::Object(add_first(h, n)), k) == match index_in_first(k, n) {
            Some(j) => Some(with_our_group(jget(Json::Object(h), k), our_group(k, registered_hook(j)))),
            None => jget(Json::Object(h), k),
        },
    decreases n,
{
    if n > 0 {
        let i = n - 1;
        let a = add_first(h, i as nat);
        lemma_add_first_lookup(h, i as nat, k);
        let e = registered_events()[i];
        lemma_jget_jinsert(a, e, with_our_group(jget(Json::Object(a), e), our_group(e, registered_hook(i))), k);
        if e == k {
            lemma_names();
            lemma_index_in_first(k, i as nat);
            match index_in_first(k, i as nat) {
                Some(j) => {
                    assert(registered_events()[j] != registered_events()[i]);
                },
                None => {},
            }
        }
    }
}

/// Looking any key up after removing one event.
pub proof fn lemma_remove_hook_lookup(h: Seq<(Seq<char>, Json)>, e: Seq<char>, k: Seq<char>)
    ensures
        jget(Json::Object(remove_hook(h, e)), k) == if k == e { removed(jget(Json::Object(h), e)) } else { jget(Json::Object(h), k) },
{
    match jget(Json::Object(h), e) {
        Some(Json::Array(gs)) => {
            if strip_groups(gs).len() == 0 {
                lemma_jget_without_key(h, e, k);
            } else {
                lemma_jget_jinsert(h, e, Json::Array(strip_groups(gs)), k);
            }
        },
        _ => {},
    }
}

/// Looking any key up after removing the first `n` events.
pub proof fn lemma_remove_first_lookup(h: Seq<(Seq<char>, Json)>, n: nat, k: Seq<char>)
    requires
        n <= 10,
    ensures
        jget(Json::Object(remove_first(h, n)), k) == match index_in_first(k, n) {
            Some(j) => removed(jget(Json::Object(h), k)),
            None => jget(Json::Object(h), k),
        },
    decreases n,
{
    if n > 0 {
        let i = n - 1;
        lemma_remove_first_lookup(h, i as nat, k);
        let e = registered_events()[i];
        lemma_remove_hook_lookup(remove_first(h, i as nat), e, k);
        if e == k {
            lemma_names();
            lemma_index_in_first(k, i as nat);
            match index_in_first(k, i as nat) {
                Some(j) => {
                    assert(registered_events()[j] != registered_events()[i]);
                },
                None => {},
            }
        }
    }
}

/// The `hooks` member of the settings after an update is what the update
/// computed.
pub proof fn lemma_hooks_after(root: Seq<(Seq<char>, Json)>, enabled: bool)
    requires
        !hooks_foreign(root),
    ensures
        !hooks_foreign(settings_after(root, enabled)),
        hooks_of(settings_after(root, enabled)) == if enabled {
            add_first(hooks_of(root), REGISTRATIONS as nat)
        } else {
            remove_first(hooks_of(root), REGISTRATIONS as nat)
        },
        forall|k: Seq<char>| k != "hooks"@ ==> #[trigger] jget(Json::Object(settings_after(root, enabled)), k) == jget(Json::Object(root), k),
        (jget(Json::Object(settings_after(root, enabled)), "hooks"@) is None) == (hooks_of(settings_after(root, enabled)).len() == 0),
{
    let h = if enabled {
        add_first(hooks_of(root), REGISTRATIONS as nat)
    } else {
        remove_first(hooks_of(root), REGISTRATIONS as nat)
    };
    if h.len() == 0 {
        lemma_jget_without_key(root, "hooks"@, "hooks"@);
        assert forall|k: Seq<char>| k != "hooks"@ implies #[trigger] jget(Json::Object(settings_after(root, enabled)), k) == jget(Json::Object(root), k) by {
            lemma_jget_without_key(root, "hooks"@, k);
        }
    } else {
        lemma_jget_jinsert(root, "hooks"@, Json::Object(h), "hooks"@);
        assert forall|k: Seq<char>| k != "hooks"@ implies #[trigger] jget(Json::Object(settings_after(root, enabled)), k) == jget(Json::Object(root), k) by {
            lemma_jget_jinsert(root, "hooks"@, Json::Object(h), k);
        }
    }
}

/// After registering, every registered event's value is a list ending in
/// our group, before which nothing is left to strip.
pub open spec fn settled(h: Seq<(Seq<char>, Json)>, i: int) -> bool {
    match jget(Json::Object(h), registered_events()[i]) {
        Some(Json::Array(v)) => v.len() > 0 && v.last() == our_group(registered_events()[i], registered_hook(i))
            && strip_groups(v.drop_last()) == v.drop_last(),
        _ => false,
    }
}

/// Registering all events settles each of them.
pub proof fn lemma_add_first_settles(h: Seq<(Seq<char>, Json)>, i: int)
    requires
        0 <= i < 10,
    ensures
        settled(add_first(h, REGISTRATIONS as nat), i),
{
    let e = registered_events()[i];
    lemma_add_first_lookup(h, REGISTRATIONS as nat, e);
    lemma_index_in_first(e, REGISTRATIONS as nat);
    lemma_names();
    let j = index_in_first(e, REGISTRATIONS as nat)->0;
    assert(j == i) by {
        if j != i {
            if j < i {
                assert(registered_events()[j] != registered_events()[i]);
            } else {
                assert(registered_events()[i] != registered_events()[j]);
            }
        }
    }
    let g = our_group(e, registered_hook(i));
    match jget(Json::Object(h), e) {
        Some(Json::Array(gs)) => {
            lemma_strip_idempotent(gs);
            let s = strip_groups(gs);
            assert(jget(Json::Object(add_first(h, REGISTRATIONS as nat)), e) == Some(Json::Array(s.push(g))));
            assert(s.push(g).drop_last() =~= s);
        },
        _ => {
            let s = Seq::<Json>::empty();
            assert(s.push(g) =~= seq![g]);
            assert(jget(Json::Object(add_first(h, REGISTRATIONS as nat)), e) == Some(Json::Array(s.push(g))));
            assert(s.push(g).drop_last() =~= s);
            assert(strip_groups(s) =~= s);
        },
    }
}

/// Registering an event that is already settled changes nothing.
pub proof fn lemma_add_settled(h: Seq<(Seq<char>, Json)>, i: int)
    requires
        0 <= i < 10,
        settled(h, i),
    ensures
        add_hook(h, registered_events()[i], registered_hook(i)) == h,
{
    let e = registered_events()[i];
    let hk = registered_hook(i);
    let g = our_group(e, hk);
    let v = jarray(jget(Json::Object(h), e))->0;
    let s = v.drop_last();
    assert(v =~= s.push(g));
    lemma_hooks_are_ours();
    lemma_strip_push_ours(s, e, hk);
    lemma_jinsert_same(h, e, Json::Array(s.push(g)));
}

/// Registering the first `n` events on a document where all are settled
/// changes nothing.
pub proof fn lemma_add_first_settled(h: Seq<(Seq<char>, Json)>, n: nat)
    requires
        n <= 10,
        forall|i: int| 0 <= i < 10 ==> settled(h, i),
    ensures
        add_first(h, n) == h,
    decreases n,
{
    if n > 0 {
        lemma_add_first_settled(h, (n - 1) as nat);
        lemma_add_settled(h, n - 1);
    }
}

/// Installing twice is installing once.
pub proof fn law_install_idempotent(root: Seq<(Seq<char>, Json)>)
    ensures
        settings_after(settings_after(root, true), true) == settings_after(root, true),
{
    if hooks_foreign(root) {
        return;
    }
    let r1 = settings_after(root, true);
    let h1 = add_first(hooks_of(root), REGISTRATIONS as nat);
    lemma_hooks_after(root, true);
    assert forall|i: int| 0 <= i < 10 implies settled(h1, i) by {
        lemma_add_first_settles(hooks_of(root), i);
    }
    lemma_add_first_settled(h1, REGISTRATIONS as nat);
    lemma_add_first_settles(hooks_of(root), 0);
    lemma_jget_some_nonempty(h1, registered_events()[0]);
    lemma_jget_jinsert(root, "hooks"@, Json::Object(h1), "hooks"@);
    lemma_jinsert_same(r1, "hooks"@, Json::Object(h1));
}

/// Each event's value is a list or missing.
pub open spec fn events_are_lists(h: Seq<(Seq<char>, Json)>) -> bool {
    forall|i: int| 0 <= i < 10 ==> match #[trigger] jget(Json::Object(h), registered_events()[i]) {
        Some(Json::Array(_)) => true,
        None => true,
        _ => false,
    }
}

/// Uninstalling after installing leaves the settings looking up exactly as
/// uninstalling alone would: install adds nothing that uninstall does not
/// take back. (An event whose value is neither a list nor missing is
/// replaced by install, so it is left out.)
pub proof fn law_uninstall_undoes_install(root: Seq<(Seq<char>, Json)>)
    requires
        events_are_lists(hooks_of(root)),
    ensures
        forall|k: Seq<char>| k != "hooks"@ ==>
            #[trigger] jget(Json::Object(settings_after(settings_after(root, true), false)), k)
                == jget(Json::Object(settings_after(root, false)), k),
        (jget(Json::Object(settings_after(settings_after(root, true), false)), "hooks"@) is None)
            == (jget(Json::Object(settings_after(root, false)), "hooks"@) is None),
        forall|k: Seq<char>|
            #[trigger] jget(Json::Object(hooks_of(settings_after(settings_after(root, true), false))), k)
                == jget(Json::Object(hooks_of(settings_after(root, false))), k),
{
    if hooks_foreign(root) {
        return;
    }
    let h = hooks_of(root);
    let r1 = settings_after(root, true);
    let ui = settings_after(r1, false);
    let u = settings_after(root, false);
    lemma_hooks_after(root, true);
    lemma_hooks_after(r1, false);
    lemma_hooks_after(root, false);
    let h1 = add_first(h, REGISTRATIONS as nat);
    assert forall|k: Seq<char>|
        #[trigger] jget(Json::Object(hooks_of(ui)), k) == jget(Json::Object(hooks_of(u)), k) by {
        lemma_add_first_lookup(h, REGISTRATIONS as nat, k);
        lemma_remove_first_lookup(h1, REGISTRATIONS as nat, k);
        lemma_remove_first_lookup(h, REGISTRATIONS as nat, k);
        lemma_index_in_first(k, REGISTRATIONS as nat);
        match index_in_first(k, REGISTRATIONS as nat) {
            Some(j) => {
                let g = our_group(k, registered_hook(j));
                lemma_hooks_are_ours();
                assert(jget(Json::Object(h), registered_events()[j]) == jget(Json::Object(h), k));
                match jget(Json::Object(h), k) {
                    Some(Json::Array(gs)) => {
                        lemma_strip_push_ours(strip_groups(gs), k, registered_hook(j));
                        lemma_strip_idempotent(gs);
                    },
                    _ => {
                        lemma_strip_push_ours(Seq::<Json>::empty(), k, registered_hook(j));
                        assert(Seq::<Json>::empty().push(g) =~= seq![g]);
                        assert(strip_groups(Seq::<Json>::empty()) =~= Seq::<Json>::empty());
                    },
                }
            },
            None => {},
        }
    }
    lemma_same_lookups_empty(hooks_of(ui), hooks_of(u));
    assert forall|k: Seq<char>| k != "hooks"@ implies
        #[trigger] jget(Json::Object(ui), k) == jget(Json::Object(u), k) by {
        assert(jget(Json::Object(ui), k) == jget(Json::Object(r1), k));
        assert(jget(Json::Object(r1), k) == jget(Json::Object(root), k));
    }
}

/// After installing, our hooks are registered for every event (unless the
/// `hooks` member is not an object, which is kept untouched).
pub proof fn law_install_registers_all(root: Seq<(Seq<char>, Json)>)
    requires
        !hooks_foreign(root),
    ensures
        forall|i: int| 0 <= i < 10 ==> has_ours(hooks_of(settings_after(root, true)), #[trigger] registered_events()[i]),
{
    lemma_hooks_after(root, true);
    let h1 = add_first(hooks_of(root), REGISTRATIONS as nat);
    assert forall|i: int| 0 <= i < 10 implies has_ours(h1, #[trigger] registered_events()[i]) by {
        lemma_add_first_settles(hooks_of(root), i);
        let e = registered_events()[i];
        let g = our_group(e, registered_hook(i));
        let v = jarray(jget(Json::Object(h1), e))->0;
        let s = v.drop_last();
        assert(v =~= s.push(g));
        lemma_hooks_are_ours();
        lemma_our_group_ours(e, registered_hook(i));
        crate::claude_hooks::lemma_has_ours(h1, e, s.push(g), s.len() as int);
    }
}

/// After uninstalling, none of our hooks is left on any event.
pub proof fn law_uninstall_leaves_none(root: Seq<(Seq<char>, Json)>)
    ensures
        forall|i: int| 0 <= i < 10 ==> !has_ours(hooks_of(settings_after(root, false)), #[trigger] registered_events()[i]),
{
    if hooks_foreign(root) {
        assert forall|i: int| 0 <= i < 10 implies !has_ours(hooks_of(settings_after(root, false)), #[trigger] registered_events()[i]) by {
            lemma_first_key_index(Seq::<(Seq<char>, Json)>::empty(), registered_events()[i]);
        }
        return;
    }
    lemma_hooks_after(root, false);
    let h = hooks_of(root);
    let hu = remove_first(h, REGISTRATIONS as nat);
    assert forall|i: int| 0 <= i < 10 implies !has_ours(hu, #[trigger] registered_events()[i]) by {
        let e = registered_events()[i];
        lemma_remove_first_lookup(h, REGISTRATIONS as nat, e);
        lemma_index_in_first(e, REGISTRATIONS as nat);
        match jget(Json::Object(h), e) {
            Some(Json::Array(gs)) => {
                lemma_strip_leaves_none(gs);
            },
            _ => {},
        }
    }
}

/// Installing or uninstalling changes nothing but our registrations: every
/// other member of the settings, and every other event under `hooks`, looks
/// up as before.
pub proof fn law_only_ours_change(root: Seq<(Seq<char>, Json)>, enabled: bool)
    ensures
        forall|k: Seq<char>| k != "hooks"@ ==> #[trigger] jget(Json::Object(settings_after(root, enabled)), k) == jget(Json::Object(root), k),
        forall|k: Seq<char>| !registered_events().contains(k) ==>
            #[trigger] jget(Json::Object(hooks_of(settings_after(root, enabled))), k) == jget(Json::Object(hooks_of(root)), k),
{
    if hooks_foreign(root) {
        return;
    }
    lemma_hooks_after(root, enabled);
    assert forall|k: Seq<char>| !registered_events().contains(k) implies
        #[trigger] jget(Json::Object(hooks_of(settings_after(root, enabled))), k) == jget(Json::Object(hooks_of(root)), k) by {
        lemma_index_in_first(k, REGISTRATIONS as nat);
        lemma_add_first_lookup(hooks_of(root), REGISTRATIONS as nat, k);
        lemma_remove_first_lookup(hooks_of(root), REGISTRATIONS as nat, k);
        match index_in_first(k, REGISTRATIONS as nat) {
            Some(j) => {
                assert(registered_events()[j] == k);
                assert(registered_events().contains(k));
            },
            None => {},
        }
    }
}

/// After installing, each registered event carries exactly one hook of
/// ours: its last group holds our hook alone, and no earlier group holds
/// any of ours, so a hand-written registration is adopted rather than
/// duplicated. (A `hooks` member that is not an object is kept untouched,
/// so it is left out.)
pub proof fn law_install_one_of_ours(root: Seq<(Seq<char>, Json)>)
    requires
        !hooks_foreign(root),
    ensures
        forall|i: int| 0 <= i < 10 ==> match #[trigger] jget(Json::Object(hooks_of(settings_after(root, true))), registered_events()[i]) {
            Some(Json::Array(gs)) => {
                &&& gs.len() > 0
                &&& jget(gs.last(), "hooks"@) == Some(Json::Array(seq![registered_hook(i)]))
                &&& is_ours(registered_hook(i))
                &&& forall|j: int| 0 <= j < gs.len() - 1 ==> !group_has_ours(#[trigger] gs[j])
            },
            _ => false,
        },
{
    lemma_hooks_after(root, true);
    lemma_hooks_are_ours();
    let h1 = add_first(hooks_of(root), REGISTRATIONS as nat);
    assert forall|i: int| 0 <= i < 10 implies match #[trigger] jget(Json::Object(h1), registered_events()[i]) {
        Some(Json::Array(gs)) => {
            &&& gs.len() > 0
            &&& jget(gs.last(), "hooks"@) == Some(Json::Array(seq![registered_hook(i)]))
            &&& is_ours(registered_hook(i))
            &&& forall|j: int| 0 <= j < gs.len() - 1 ==> !group_has_ours(#[trigger] gs[j])
        },
        _ => false,
    } by {
        lemma_add_first_settles(hooks_of(root), i);
        let e = registered_events()[i];
        let v = jarray(jget(Json::Object(h1), e))->0;
        let d = v.drop_last();
        lemma_our_group(e, registered_hook(i));
        lemma_strip_leaves_none(d);
        assert forall|j: int| 0 <= j < v.len() - 1 implies !group_has_ours(#[trigger] v[j]) by {
            assert(v[j] == d[j]);
            assert(strip_groups(d)[j] == d[j]);
        }
    }
}

/// Settings that installing and then uninstalling gives back: the `hooks`
/// member is missing or a non-empty object, and every registered event is
/// missing or a non-empty list of groups that stripping our hooks leaves as
/// they are (none of ours, no group with an empty `hooks` list).
pub open spec fn restorable(root: Seq<(Seq<char>, Json)>) -> bool {
    &&& match jget(Json::Object(root), "hooks"@) {
        None => true,
        Some(Json::Object(h)) => h.len() > 0,
        _ => false,
    }
    &&& forall|i: int| 0 <= i < 10 ==> match #[trigger] jget(Json::Object(hooks_of(root)), registered_events()[i]) {
        None => true,
        Some(Json::Array(gs)) => gs.len() > 0 && strip_groups(gs) == gs,
        _ => false,
    }
}

/// Installing and then uninstalling gives the settings back: every member,
/// and every event under `hooks`, looks up as it did before.
pub proof fn law_install_then_uninstall_restores(root: Seq<(Seq<char>, Json)>)
    requires
        restorable(root),
    ensures
        forall|k: Seq<char>| k != "hooks"@ ==>
            #[trigger] jget(Json::Object(settings_after(settings_after(root, true), false)), k) == jget(Json::Object(root), k),
        (jget(Json::Object(settings_after(settings_after(root, true), false)), "hooks"@) is None)
            == (jget(Json::Object(root), "hooks"@) is None),
        forall|k: Seq<char>|
            #[trigger] jget(Json::Object(hooks_of(settings_after(settings_after(root, true), false))), k)
                == jget(Json::Object(hooks_of(root)), k),
{
    let h = hooks_of(root);
    let r1 = settings_after(root, true);
    let ui = settings_after(r1, false);
    lemma_hooks_after(root, true);
    lemma_hooks_after(r1, false);
    let h1 = add_first(h, REGISTRATIONS as nat);
    assert forall|k: Seq<char>|
        #[trigger] jget(Json::Object(hooks_of(ui)), k) == jget(Json::Object(h), k) by {
        lemma_add_first_lookup(h, REGISTRATIONS as nat, k);
        lemma_remove_first_lookup(h1, REGISTRATIONS as nat, k);
        lemma_index_in_first(k, REGISTRATIONS as nat);
        match index_in_first(k, REGISTRATIONS as nat) {
            Some(j) => {
                let g = our_group(k, registered_hook(j));
                lemma_hooks_are_ours();
                assert(jget(Json::Object(h), registered_events()[j]) == jget(Json::Object(h), k));
                match jget(Json::Object(h), k) {
                    Some(Json::Array(gs)) => {
                        lemma_strip_push_ours(strip_groups(gs), k, registered_hook(j));
                    },
                    _ => {
                        lemma_strip_push_ours(Seq::<Json>::empty(), k, registered_hook(j));
                        assert(Seq::<Json>::empty().push(g) =~= seq![g]);
                        assert(strip_groups(Seq::<Json>::empty()) =~= Seq::<Json>::empty());
                    },
                }
            },
            None => {},
        }
    }
    lemma_same_lookups_empty(hooks_of(ui), h);
    assert forall|k: Seq<char>| k != "hooks"@ implies #[trigger] jget(Json::Object(ui), k) == jget(Json::Object(root), k) by {
        assert(jget(Json::Object(ui), k) == jget(Json::Object(r1), k));
        assert(jget(Json::Object(r1), k) == jget(Json::Object(root), k));
    }
}

/// Removing every entry under a key twice is removing them once.
pub proof fn lemma_without_key_twice(es: Seq<(Seq<char>, Json)>, k: Seq<char>)
    ensures
        without_key(without_key(es, k), k) == without_key(es, k),
    decreases es.len(),
{
    if es.len() > 0 {
        let d = es.drop_last();
        lemma_without_key_twice(d, k);
        let rest = without_key(d, k);
        if es.last().0 != k {
            assert(rest.push(es.last()).drop_last() =~= rest);
        }
    } else {
        assert(without_key(es, k) =~= es);
    }
}

/// An event that removing our hooks leaves as it is: missing, not a list,
/// or a non-empty list with none of ours to strip.
pub open spec fn unregistered(h: Seq<(Seq<char>, Json)>, i: int) -> bool {
    match jget(Json::Object(h), registered_events()[i]) {
        Some(Json::Array(gs)) => gs.len() > 0 && strip_groups(gs) == gs,
        _ => true,
    }
}

/// Removing the first `n` events where all are already unregistered
/// changes nothing.
pub proof fn lemma_remove_first_unregistered(h: Seq<(Seq<char>, Json)>, n: nat)
    requires
        n <= 10,
        forall|i: int| 0 <= i < 10 ==> unregistered(h, i),
    ensures
        remove_first(h, n) == h,
    decreases n,
{
    if n > 0 {
        lemma_remove_first_unregistered(h, (n - 1) as nat);
        let e = registered_events()[n - 1];
        assert(unregistered(h, n - 1));
        match jget(Json::Object(h), e) {
            Some(Json::Array(gs)) => {
                lemma_jinsert_same(h, e, Json::Array(gs));
            },
            _ => {},
        }
    }
}

/// Uninstalling twice is uninstalling once.
pub proof fn law_uninstall_idempotent(root: Seq<(Seq<char>, Json)>)
    ensures
        settings_after(settings_after(root, false), false) == settings_after(root, false),
{
    if hooks_foreign(root) {
        return;
    }
    let h = hooks_of(root);
    let hu = remove_first(h, REGISTRATIONS as nat);
    lemma_hooks_after(root, false);
    assert forall|i: int| 0 <= i < 10 implies unregistered(hu, i) by {
        let e = registered_events()[i];
        lemma_remove_first_lookup(h, REGISTRATIONS as nat, e);
        lemma_index_in_first(e, REGISTRATIONS as nat);
        match jget(Json::Object(h), e) {
            Some(Json::Array(gs)) => {
                lemma_strip_idempotent(gs);
            },
            _ => {},
        }
    }
    lemma_remove_first_unregistered(hu, REGISTRATIONS as nat);
    if hu.len() == 0 {
        lemma_without_key_twice(root, "hooks"@);
    } else {
        lemma_jget_jinsert(root, "hooks"@, Json::Object(hu), "hooks"@);
        lemma_jinsert_same(settings_after(root, false), "hooks"@, Json::Object(hu));
    }
}

} // verus!
