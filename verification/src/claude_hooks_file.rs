//! Turning our hooks on or off as a whole file update: from the settings
//! file's bytes to the text written back. Installing and uninstalling only
//! depend on the settings as a document (what every lookup finds), so the
//! document read back from the written file behaves as the one computed:
//! doing the same again writes the same document, and uninstalling after
//! installing gives the settings back.
use vstd::prelude::*;
use vstd::utf8::encode_utf8;
use crate::json::{Json, first_key_index, jget, jarray, jinsert, entries_j};
use crate::json_io::pretty_json;
use crate::json_same::{
    same_opt, same_json, same_seq, printable, lemma_same_refl, lemma_same_sym, lemma_same_trans, lemma_same_shape,
    lemma_same_jget, lemma_same_object, lemma_same_array, lemma_same_array_elim, lemma_same_object_elim,
    lemma_same_jstr, lemma_same_jarray, lemma_same_seq_push, lemma_same_seq_drop_last, lemma_same_object_empty,
    lemma_same_printable,
};
use crate::claude_hooks::{
    is_ours, group_has_ours, registered_events, registered_hook, our_group, foreign_hooks, stripped_group, strip_groups, with_our_group, add_hook, without_key, remove_hook,
    add_first, remove_first, hooks_of, hooks_foreign, settings_after, REGISTRATIONS, settings_doc, opt_bytes,
    is_object, object_entries, reads_back, plan_hooks_file, settings_file_text, HooksUpdate,
};
use crate::claude_hooks_laws::{
    lemma_jget_jinsert, lemma_jget_without_key, lemma_hooks_after, law_install_idempotent, law_uninstall_idempotent,
    law_install_then_uninstall_restores, law_install_one_of_ours, restorable,
};

verus! {

/// Whether a hook is ours depends on the document alone.
pub proof fn lemma_same_is_ours(h: Json, h2: Json)
    requires
        same_json(h, h2),
    ensures
        is_ours(h) == is_ours(h2),
{
    lemma_same_jget(h, h2, "type"@);
    lemma_same_jstr(jget(h, "type"@), jget(h2, "type"@));
    lemma_same_jget(h, h2, "url"@);
    lemma_same_jstr(jget(h, "url"@), jget(h2, "url"@));
    lemma_same_jget(h, h2, "command"@);
    lemma_same_jstr(jget(h, "command"@), jget(h2, "command"@));
}

/// The foreign hooks of the same lists are the same.
pub proof fn lemma_same_foreign(x: Seq<Json>, y: Seq<Json>)
    requires
        same_seq(x, y),
    ensures
        same_seq(foreign_hooks(x), foreign_hooks(y)),
    decreases x.len(),
{
    if x.len() > 0 {
        lemma_same_seq_drop_last(x, y);
        lemma_same_foreign(x.drop_last(), y.drop_last());
        lemma_same_is_ours(x.last(), y.last());
        if !is_ours(x.last()) {
            lemma_same_seq_push(foreign_hooks(x.drop_last()), foreign_hooks(y.drop_last()), x.last(), y.last());
        }
    }
}

/// Setting a member of the same objects to the same documents.
pub proof fn lemma_same_jinsert(x: Seq<(Seq<char>, Json)>, y: Seq<(Seq<char>, Json)>, k: Seq<char>, a: Json, b: Json)
    requires
        same_json(Json::Object(x), Json::Object(y)),
        same_json(a, b),
    ensures
        same_json(Json::Object(jinsert(x, k, a)), Json::Object(jinsert(y, k, b))),
{
    assert forall|k2: Seq<char>|
        #[trigger] same_opt(jget(Json::Object(jinsert(x, k, a)), k2), jget(Json::Object(jinsert(y, k, b)), k2)) by {
        lemma_jget_jinsert(x, k, a, k2);
        lemma_jget_jinsert(y, k, b, k2);
        if k2 != k {
            lemma_same_jget(Json::Object(x), Json::Object(y), k2);
        }
    }
    lemma_same_object(jinsert(x, k, a), jinsert(y, k, b));
}

/// Removing a key from the same objects.
pub proof fn lemma_same_without_key(x: Seq<(Seq<char>, Json)>, y: Seq<(Seq<char>, Json)>, k: Seq<char>)
    requires
        same_json(Json::Object(x), Json::Object(y)),
    ensures
        same_json(Json::Object(without_key(x, k)), Json::Object(without_key(y, k))),
{
    assert forall|k2: Seq<char>|
        #[trigger] same_opt(jget(Json::Object(without_key(x, k)), k2), jget(Json::Object(without_key(y, k)), k2)) by {
        lemma_jget_without_key(x, k, k2);
        lemma_jget_without_key(y, k, k2);
        if k2 != k {
            lemma_same_jget(Json::Object(x), Json::Object(y), k2);
        }
    }
    lemma_same_object(without_key(x, k), without_key(y, k));
}

/// Stripping our hooks from the same groups gives the same result.
pub proof fn lemma_same_stripped(g: Json, g2: Json)
    requires
        same_json(g, g2),
    ensures
        same_opt(stripped_group(g), stripped_group(g2)),
{
    lemma_same_shape(Some(g), Some(g2));
    match g {
        Json::Object(es) => {
            let es2 = g2->Object_0;
            lemma_same_jget(g, g2, "hooks"@);
            let o1 = jget(g, "hooks"@);
            let o2 = jget(g2, "hooks"@);
            lemma_same_shape(o1, o2);
            match first_key_index(es, "hooks"@) {
                Some(i) => {
                    let i2 = first_key_index(es2, "hooks"@)->0;
                    match es[i].1 {
                        Json::Array(inner) => {
                            lemma_same_array_elim(inner, o2);
                            let inner2 = es2[i2].1->Array_0;
                            lemma_same_foreign(inner, inner2);
                            if foreign_hooks(inner).len() > 0 {
                                lemma_same_array(foreign_hooks(inner), foreign_hooks(inner2));
                                lemma_same_jinsert(es, es2, "hooks"@, Json::Array(foreign_hooks(inner)), Json::Array(foreign_hooks(inner2)));
                            }
                        },
                        _ => {},
                    }
                },
                None => {},
            }
        },
        _ => {},
    }
}

/// Stripping the same lists of groups gives the same lists.
pub proof fn lemma_same_strip(x: Seq<Json>, y: Seq<Json>)
    requires
        same_seq(x, y),
    ensures
        same_seq(strip_groups(x), strip_groups(y)),
    decreases x.len(),
{
    if x.len() > 0 {
        lemma_same_seq_drop_last(x, y);
        lemma_same_strip(x.drop_last(), y.drop_last());
        lemma_same_stripped(x.last(), y.last());
        lemma_same_shape(stripped_group(x.last()), stripped_group(y.last()));
        match stripped_group(x.last()) {
            Some(g) => {
                lemma_same_seq_push(strip_groups(x.drop_last()), strip_groups(y.drop_last()), g, stripped_group(y.last())->0);
            },
            None => {},
        }
    }
}

/// Registering our group on the same event values.
pub proof fn lemma_same_with_group(c1: Option<Json>, c2: Option<Json>, g: Json)
    requires
        same_opt(c1, c2),
    ensures
        same_json(with_our_group(c1, g), with_our_group(c2, g)),
{
    lemma_same_shape(c1, c2);
    lemma_same_refl(Some(g));
    match c1 {
        Some(Json::Array(gs)) => {
            lemma_same_array_elim(gs, c2);
            let gs2 = c2->0->Array_0;
            lemma_same_strip(gs, gs2);
            lemma_same_seq_push(strip_groups(gs), strip_groups(gs2), g, g);
            lemma_same_array(strip_groups(gs).push(g), strip_groups(gs2).push(g));
        },
        _ => {
            lemma_same_refl(Some(with_our_group(c1, g)));
        },
    }
}

/// Registering one event in the same `hooks` objects.
pub proof fn lemma_same_add_hook(h: Seq<(Seq<char>, Json)>, h2: Seq<(Seq<char>, Json)>, e: Seq<char>, hook: Json)
    requires
        same_json(Json::Object(h), Json::Object(h2)),
    ensures
        same_json(Json::Object(add_hook(h, e, hook)), Json::Object(add_hook(h2, e, hook))),
{
    lemma_same_jget(Json::Object(h), Json::Object(h2), e);
    let g = our_group(e, hook);
    lemma_same_with_group(jget(Json::Object(h), e), jget(Json::Object(h2), e), g);
    lemma_same_jinsert(h, h2, e, with_our_group(jget(Json::Object(h), e), g), with_our_group(jget(Json::Object(h2), e), g));
}

/// Registering the first `n` events in the same `hooks` objects.
pub proof fn lemma_same_add_first(h: Seq<(Seq<char>, Json)>, h2: Seq<(Seq<char>, Json)>, n: nat)
    requires
        same_json(Json::Object(h), Json::Object(h2)),
    ensures
        same_json(Json::Object(add_first(h, n)), Json::Object(add_first(h2, n))),
    decreases n,
{
    if n > 0 {
        let i = n - 1;
        lemma_same_add_first(h, h2, i as nat);
        lemma_same_add_hook(
            add_first(h, i as nat),
            add_first(h2, i as nat),
            registered_events()[i],
            registered_hook(i),
        );
    }
}

/// Removing one event from the same `hooks` objects.
pub proof fn lemma_same_remove_hook(h: Seq<(Seq<char>, Json)>, h2: Seq<(Seq<char>, Json)>, e: Seq<char>)
    requires
        same_json(Json::Object(h), Json::Object(h2)),
    ensures
        same_json(Json::Object(remove_hook(h, e)), Json::Object(remove_hook(h2, e))),
{
    lemma_same_jget(Json::Object(h), Json::Object(h2), e);
    let o1 = jget(Json::Object(h), e);
    let o2 = jget(Json::Object(h2), e);
    lemma_same_shape(o1, o2);
    match o1 {
        Some(Json::Array(gs)) => {
            lemma_same_array_elim(gs, o2);
            let gs2 = o2->0->Array_0;
            lemma_same_strip(gs, gs2);
            if strip_groups(gs).len() == 0 {
                lemma_same_without_key(h, h2, e);
            } else {
                lemma_same_array(strip_groups(gs), strip_groups(gs2));
                lemma_same_jinsert(h, h2, e, Json::Array(strip_groups(gs)), Json::Array(strip_groups(gs2)));
            }
        },
        _ => {},
    }
}

/// Removing the first `n` events from the same `hooks` objects.
pub proof fn lemma_same_remove_first(h: Seq<(Seq<char>, Json)>, h2: Seq<(Seq<char>, Json)>, n: nat)
    requires
        same_json(Json::Object(h), Json::Object(h2)),
    ensures
        same_json(Json::Object(remove_first(h, n)), Json::Object(remove_first(h2, n))),
    decreases n,
{
    if n > 0 {
        lemma_same_remove_first(h, h2, (n - 1) as nat);
        lemma_same_remove_hook(
            remove_first(h, (n - 1) as nat),
            remove_first(h2, (n - 1) as nat),
            registered_events()[n - 1],
        );
    }
}

/// The same settings have the same `hooks` member.
pub proof fn lemma_same_hooks_of(r: Seq<(Seq<char>, Json)>, r2: Seq<(Seq<char>, Json)>)
    requires
        same_json(Json::Object(r), Json::Object(r2)),
    ensures
        hooks_foreign(r) == hooks_foreign(r2),
        same_json(Json::Object(hooks_of(r)), Json::Object(hooks_of(r2))),
{
    lemma_same_jget(Json::Object(r), Json::Object(r2), "hooks"@);
    let o1 = jget(Json::Object(r), "hooks"@);
    let o2 = jget(Json::Object(r2), "hooks"@);
    lemma_same_shape(o1, o2);
    match o1 {
        Some(Json::Object(h)) => {},
        _ => {
            lemma_same_refl(Some(Json::Object(Seq::empty())));
        },
    }
}

/// Installing or uninstalling depends on the settings as a document:
/// the same settings give the same settings back.
pub proof fn lemma_same_settings_after(r: Seq<(Seq<char>, Json)>, r2: Seq<(Seq<char>, Json)>, enabled: bool)
    requires
        same_json(Json::Object(r), Json::Object(r2)),
    ensures
        same_json(Json::Object(settings_after(r, enabled)), Json::Object(settings_after(r2, enabled))),
{
    lemma_same_hooks_of(r, r2);
    if hooks_foreign(r) {
        return;
    }
    let n = REGISTRATIONS as nat;
    let h = if enabled { add_first(hooks_of(r), n) } else { remove_first(hooks_of(r), n) };
    let h2 = if enabled { add_first(hooks_of(r2), n) } else { remove_first(hooks_of(r2), n) };
    if enabled {
        lemma_same_add_first(hooks_of(r), hooks_of(r2), n);
    } else {
        lemma_same_remove_first(hooks_of(r), hooks_of(r2), n);
    }
    lemma_same_object_empty(h, h2);
    if h.len() == 0 {
        lemma_same_without_key(r, r2, "hooks"@);
    } else {
        lemma_same_jinsert(r, r2, "hooks"@, Json::Object(h), Json::Object(h2));
    }
}

/// Installing and then uninstalling gives back the same settings document
/// (for settings that `restorable` describes).
pub proof fn lemma_restores_same(root: Seq<(Seq<char>, Json)>)
    requires
        restorable(root),
    ensures
        same_json(Json::Object(settings_after(settings_after(root, true), false)), Json::Object(root)),
{
    law_install_then_uninstall_restores(root);
    let r1 = settings_after(root, true);
    let ui = settings_after(r1, false);
    assert(!hooks_foreign(root));
    lemma_hooks_after(root, true);
    lemma_hooks_after(r1, false);
    assert forall|k: Seq<char>| #[trigger] same_opt(jget(Json::Object(ui), k), jget(Json::Object(root), k)) by {
        if k != "hooks"@ {
            lemma_same_refl(jget(Json::Object(root), k));
        } else {
            match jget(Json::Object(root), "hooks"@) {
                Some(Json::Object(h)) => {
                    assert forall|k2: Seq<char>|
                        #[trigger] same_opt(jget(Json::Object(hooks_of(ui)), k2), jget(Json::Object(h), k2)) by {
                        lemma_same_refl(jget(Json::Object(h), k2));
                    }
                    lemma_same_object(hooks_of(ui), h);
                },
                _ => {},
            }
        }
    }
    lemma_same_object(ui, root);
}

/// Whether a group holds one of our hooks depends on the document alone.
pub proof fn lemma_same_group_has_ours(g: Json, g2: Json)
    requires
        same_json(g, g2),
    ensures
        group_has_ours(g) == group_has_ours(g2),
{
    lemma_same_jget(g, g2, "hooks"@);
    lemma_same_jarray(jget(g, "hooks"@), jget(g2, "hooks"@));
    match jarray(jget(g, "hooks"@)) {
        Some(inner) => {
            let inner2 = jarray(jget(g2, "hooks"@))->0;
            if group_has_ours(g) {
                let k = choose|k: int| 0 <= k < inner.len() && #[trigger] is_ours(inner[k]);
                lemma_same_is_ours(inner[k], inner2[k]);
            }
            if group_has_ours(g2) {
                let k = choose|k: int| 0 <= k < inner2.len() && #[trigger] is_ours(inner2[k]);
                lemma_same_is_ours(inner[k], inner2[k]);
            }
        },
        None => {},
    }
}

/// Each registered event carries exactly one hook of ours in the `hooks`
/// object `h`: its last group holds our hook alone, and no earlier group
/// holds any of ours.
pub open spec fn one_of_ours_each(h: Seq<(Seq<char>, Json)>) -> bool {
    forall|i: int| 0 <= i < 10 ==> match #[trigger] jget(Json::Object(h), registered_events()[i]) {
        Some(Json::Array(gs)) => {
            &&& gs.len() > 0
            &&& same_opt(jget(gs.last(), "hooks"@), Some(Json::Array(seq![registered_hook(i)])))
            &&& is_ours(registered_hook(i))
            &&& forall|j: int| 0 <= j < gs.len() - 1 ==> !group_has_ours(#[trigger] gs[j])
        },
        _ => false,
    }
}

/// Carrying exactly one hook of ours on each event depends on the document
/// alone.
pub proof fn lemma_same_one_of_ours(h: Seq<(Seq<char>, Json)>, h2: Seq<(Seq<char>, Json)>)
    requires
        same_json(Json::Object(h), Json::Object(h2)),
        one_of_ours_each(h),
    ensures
        one_of_ours_each(h2),
{
    assert forall|i: int| 0 <= i < 10 implies match #[trigger] jget(Json::Object(h2), registered_events()[i]) {
        Some(Json::Array(gs)) => {
            &&& gs.len() > 0
            &&& same_opt(jget(gs.last(), "hooks"@), Some(Json::Array(seq![registered_hook(i)])))
            &&& is_ours(registered_hook(i))
            &&& forall|j: int| 0 <= j < gs.len() - 1 ==> !group_has_ours(#[trigger] gs[j])
        },
        _ => false,
    } by {
        let e = registered_events()[i];
        lemma_same_jget(Json::Object(h), Json::Object(h2), e);
        let o1 = jget(Json::Object(h), e);
        let o2 = jget(Json::Object(h2), e);
        assert(o1 is Some && o1->0 is Array);
        let gs = o1->0->Array_0;
        lemma_same_array_elim(gs, o2);
        let gs2 = o2->0->Array_0;
        lemma_same_seq_drop_last(gs, gs2);
        lemma_same_jget(gs.last(), gs2.last(), "hooks"@);
        lemma_same_sym(jget(gs.last(), "hooks"@), jget(gs2.last(), "hooks"@));
        lemma_same_trans(jget(gs2.last(), "hooks"@), jget(gs.last(), "hooks"@), Some(Json::Array(seq![registered_hook(i)])));
        assert forall|j: int| 0 <= j < gs2.len() - 1 implies !group_has_ours(#[trigger] gs2[j]) by {
            assert(same_json(gs[j], gs2[j]));
            lemma_same_group_has_ours(gs[j], gs2[j]);
        }
    }
}

/// Installing leaves exactly one hook of ours on each event (unless the
/// `hooks` member is not an object).
pub proof fn lemma_install_one_of_ours_each(root: Seq<(Seq<char>, Json)>)
    requires
        !hooks_foreign(root),
    ensures
        one_of_ours_each(hooks_of(settings_after(root, true))),
{
    law_install_one_of_ours(root);
    let h = hooks_of(settings_after(root, true));
    assert forall|i: int| 0 <= i < 10 implies match #[trigger] jget(Json::Object(h), registered_events()[i]) {
        Some(Json::Array(gs)) => {
            &&& gs.len() > 0
            &&& same_opt(jget(gs.last(), "hooks"@), Some(Json::Array(seq![registered_hook(i)])))
            &&& is_ours(registered_hook(i))
            &&& forall|j: int| 0 <= j < gs.len() - 1 ==> !group_has_ours(#[trigger] gs[j])
        },
        _ => false,
    } by {
        lemma_same_refl(Some(Json::Array(seq![registered_hook(i)])));
    }
}

/// What turning our hooks on or off does to the settings file.
pub enum SettingsUpdate {
    /// The file exists but is not a JSON object: refuse to touch it.
    NotAnObject,
    /// Uninstalling with no file: nothing to remove.
    NothingToRemove,
    /// Write this text to the file.
    Write(String),
}

/// The settings document a file update writes, given the file's bytes
/// (`None` for no file).
pub open spec fn written_doc(file: Option<Seq<u8>>, enabled: bool) -> Seq<(Seq<char>, Json)> {
    settings_after(object_entries(settings_doc(file)), enabled)
}

/// The text a file update writes: the document printed indented, then a
/// newline.
pub open spec fn written_text(file: Option<Seq<u8>>, enabled: bool) -> Seq<char> {
    pretty_json(Json::Object(written_doc(file, enabled))) + "\n"@
}

/// Installs (`enabled`) or uninstalls our hooks in a settings file given
/// by its bytes (`None` when there is no file): refuses a file that is not
/// a JSON object, does nothing when uninstalling with no file, and
/// otherwise gives the text to write. For a printable document the text
/// reads back as the document computed; updating that text again in the
/// same way writes the same document again; and uninstalling what
/// installing wrote gives back the settings it started from (when they
/// are `restorable`).
pub fn settings_update(file: Option<&[u8]>, enabled: bool) -> (u: SettingsUpdate)
    ensures
        if file is Some && !is_object(settings_doc(opt_bytes(file))) {
            u is NotAnObject
        } else if file is None && !enabled {
            u is NothingToRemove
        } else {
            u matches SettingsUpdate::Write(text) && text@ == written_text(opt_bytes(file), enabled)
        },
        u matches SettingsUpdate::Write(text) ==> (printable(Json::Object(written_doc(opt_bytes(file), enabled)))
            ==> reads_back(text@, Json::Object(written_doc(opt_bytes(file), enabled)))),
        u matches SettingsUpdate::Write(text) ==> (printable(Json::Object(written_doc(opt_bytes(file), enabled)))
            ==> is_object(settings_doc(Some(encode_utf8(text@))))
                && same_json(Json::Object(written_doc(Some(encode_utf8(text@)), enabled)), Json::Object(written_doc(opt_bytes(file), enabled)))
                && printable(Json::Object(written_doc(Some(encode_utf8(text@)), enabled)))),
        u matches SettingsUpdate::Write(text) ==> (enabled && printable(Json::Object(written_doc(opt_bytes(file), enabled)))
            && restorable(object_entries(settings_doc(opt_bytes(file))))
            ==> same_json(Json::Object(written_doc(Some(encode_utf8(text@)), false)), Json::Object(object_entries(settings_doc(opt_bytes(file)))))),
        u matches SettingsUpdate::Write(text) ==> (enabled && printable(Json::Object(written_doc(opt_bytes(file), enabled)))
            && !hooks_foreign(object_entries(settings_doc(opt_bytes(file))))
            ==> one_of_ours_each(hooks_of(object_entries(settings_doc(Some(encode_utf8(text@))))))),
{
    match plan_hooks_file(file, enabled) {
        HooksUpdate::NotAnObject => SettingsUpdate::NotAnObject,
        HooksUpdate::NothingToRemove => SettingsUpdate::NothingToRemove,
        HooksUpdate::Write(root) => {
            let ghost s0 = object_entries(settings_doc(opt_bytes(file)));
            let ghost v = entries_j(root@);
            let text = settings_file_text(root);
            proof {
                if printable(Json::Object(v)) {
                    let again = Some(encode_utf8(text@));
                    let w = settings_doc(again)->0;
                    lemma_same_sym(Some(w), Some(Json::Object(v)));
                    lemma_same_object_elim(v, Some(w));
                    let s1 = w->Object_0;
                    assert(object_entries(settings_doc(again)) == s1);
                    lemma_same_settings_after(s1, v, enabled);
                    if enabled {
                        law_install_idempotent(s0);
                    } else {
                        law_uninstall_idempotent(s0);
                    }
                    lemma_same_printable(Json::Object(v), Json::Object(settings_after(s1, enabled)));
                    if enabled && !hooks_foreign(s0) {
                        lemma_install_one_of_ours_each(s0);
                        lemma_same_hooks_of(s1, v);
                        lemma_same_sym(Some(Json::Object(hooks_of(s1))), Some(Json::Object(hooks_of(v))));
                        lemma_same_one_of_ours(hooks_of(v), hooks_of(s1));
                    }
                    if enabled && restorable(s0) {
                        lemma_same_settings_after(s1, v, false);
                        lemma_restores_same(s0);
                        lemma_same_trans(
                            Some(Json::Object(settings_after(s1, false))),
                            Some(Json::Object(settings_after(v, false))),
                            Some(Json::Object(s0)),
                        );
                    }
                }
            }
            SettingsUpdate::Write(text)
        },
    }
}

} // verus!
