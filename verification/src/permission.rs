//! Decisions of the HTTP permission endpoint that the CLI's
//! `PermissionRequest` hook posts to: reading a request's payload, the FIFO
//! of requests waiting for a pie-menu pick, what each pick or timeout answers,
//! and the response envelope sent back. The socket handling lives with the
//! caller; everything it decides is here.
use vstd::prelude::*;
use crate::json::{
    Json, JsonValue, entries_j, lemma_entries_j, deep_clone, jbool, as_bool, jinsert, insert, jget, jstr, jarray, opt_j, get, get_opt, as_str, as_array, items_j,
    lemma_items_j,
};
use crate::json_io::{compact_json, compact_text, parsed_json, lossy_utf8, parse_json, lossy_text};
use crate::text::{decimal, decimal_chars, chars_of, chars_eq, chars_eq_str, string_of, push_str, push_all};

verus! {

/// Port of the loopback HTTP endpoint that the CLI's `PermissionRequest`
/// hook posts to.
pub const PORT: u16 = 47216;

/// The characters of each string, in order.
pub open spec fn views(v: Seq<String>) -> Seq<Seq<char>> {
    Seq::new(v.len(), |i: int| v[i]@)
}

/// A string member of an object (`None` when missing or not a string).
pub open spec fn member_str(o: Option<Json>, key: Seq<char>) -> Option<Seq<char>> {
    match o {
        Some(j) => jstr(jget(j, key)),
        None => None,
    }
}

fn get_str<'a>(v: Option<&'a JsonValue>, key: &str) -> (r: Option<&'a String>)
    ensures
        match r {
            Some(s) => member_str(opt_j(v), key@) == Some(s@),
            None => member_str(opt_j(v), key@) is None,
        },
{
    as_str(get_opt(v, key))
}

fn clone_string(s: &String) -> (r: String)
    ensures
        r@ == s@,
{
    s.clone()
}

/// The requesting tool's name; `"A tool"` when the payload names none.
pub open spec fn spec_tool_name(p: Json) -> Seq<char> {
    match jstr(jget(p, "tool_name"@)) {
        Some(s) => s,
        None => "A tool"@,
    }
}

/// The requesting tool's name from a request payload.
pub fn tool_name(payload: &JsonValue) -> (r: String)
    ensures
        r@ == spec_tool_name(payload.j()),
{
    match get_str(Some(payload), "tool_name") {
        Some(s) => clone_string(s),
        None => string_of(&chars_of("A tool")),
    }
}

/// A short description of what is requested: a Bash `command`, else the
/// tool's `description`, else a `file_path`, else the compact JSON text of
/// the whole `tool_input` (empty when there is none).
pub open spec fn spec_request_detail(p: Json) -> Seq<char> {
    let input = jget(p, "tool_input"@);
    match member_str(input, "command"@) {
        Some(c) => c,
        None => match member_str(input, "description"@) {
            Some(d) => d,
            None => match member_str(input, "file_path"@) {
                Some(f) => f,
                None => match input {
                    Some(i) => compact_json(i),
                    None => Seq::empty(),
                },
            },
        },
    }
}

/// The human-readable detail line for a request payload.
pub fn request_detail(payload: &JsonValue) -> (r: String)
    ensures
        r@ == spec_request_detail(payload.j()),
{
    let input = get(payload, "tool_input");
    if let Some(c) = get_str(input, "command") {
        return clone_string(c);
    }
    if let Some(d) = get_str(input, "description") {
        return clone_string(d);
    }
    if let Some(f) = get_str(input, "file_path") {
        return clone_string(f);
    }
    match input {
        Some(i) => compact_text(i),
        None => String::new(),
    }
}

/// The permission string of one suggested rule: `Tool(content)`, or just
/// `Tool` when it has no content; `None` without a tool name.
pub open spec fn rule_text(r: Json) -> Option<Seq<char>> {
    match jstr(jget(r, "toolName"@)) {
        Some(t) => match jstr(jget(r, "ruleContent"@)) {
            Some(c) => Some(t + "("@ + c + ")"@),
            None => Some(t),
        },
        None => None,
    }
}

/// Permission strings of a list of rules, skipping the unusable ones.
pub open spec fn rules_texts(rs: Seq<Json>) -> Seq<Seq<char>>
    decreases rs.len(),
{
    if rs.len() == 0 {
        Seq::empty()
    } else {
        match rule_text(rs.last()) {
            Some(t) => rules_texts(rs.drop_last()).push(t),
            None => rules_texts(rs.drop_last()),
        }
    }
}

/// The rules of one suggestion: only `behavior: "allow"` suggestions with a
/// `rules` array contribute.
pub open spec fn suggestion_rules(s: Json) -> Seq<Seq<char>> {
    if jstr(jget(s, "behavior"@)) != Some("allow"@) {
        Seq::empty()
    } else {
        match jarray(jget(s, "rules"@)) {
            Some(rs) => rules_texts(rs),
            None => Seq::empty(),
        }
    }
}

/// The rules of all suggestions, in order.
pub open spec fn suggestions_rules(ss: Seq<Json>) -> Seq<Seq<char>>
    decreases ss.len(),
{
    if ss.len() == 0 {
        Seq::empty()
    } else {
        suggestions_rules(ss.drop_last()) + suggestion_rules(ss.last())
    }
}

/// `s` with every run of equal neighbours collapsed to its first element.
pub open spec fn dedup<T>(s: Seq<T>) -> Seq<T>
    decreases s.len(),
{
    if s.len() == 0 {
        Seq::empty()
    } else {
        let d = dedup(s.drop_last());
        if d.len() > 0 && d.last() == s.last() {
            d
        } else {
            d.push(s.last())
        }
    }
}

/// The "don't ask again" permission strings a payload suggests.
pub open spec fn spec_always_rules(p: Json) -> Seq<Seq<char>> {
    match jarray(jget(p, "permission_suggestions"@)) {
        Some(ss) => dedup(suggestions_rules(ss)),
        None => Seq::empty(),
    }
}

fn rule_text_exec(r: &JsonValue) -> (t: Option<Vec<char>>)
    ensures
        match t {
            Some(v) => rule_text(r.j()) == Some(v@),
            None => rule_text(r.j()) is None,
        },
{
    match get_str(Some(r), "toolName") {
        Some(tool) => {
            let mut out = chars_of(tool.as_str());
            match get_str(Some(r), "ruleContent") {
                Some(content) => {
                    push_str(&mut out, "(");
                    let c = chars_of(content.as_str());
                    push_all(&mut out, &c);
                    push_str(&mut out, ")");
                    Some(out)
                },
                None => Some(out),
            }
        },
        None => None,
    }
}

fn push_suggestion_rules(s: &JsonValue, out: &mut Vec<Vec<char>>)
    ensures
        views_chars(final(out)@) == views_chars(old(out)@) + suggestion_rules(s.j()),
{
    let behavior = get_str(Some(s), "behavior");
    let allow = match behavior {
        Some(b) => chars_eq_str(&chars_of(b.as_str()), "allow"),
        None => false,
    };
    if !allow {
        assert(views_chars(out@) =~= views_chars(out@) + Seq::<Seq<char>>::empty());
        return;
    }
    match as_array(get(s, "rules")) {
        Some(rules) => {
            proof {
                lemma_items_j(rules@);
            }
            let ghost start = views_chars(out@);
            let n = rules.len();
            let mut i: usize = 0;
            while i < n
                invariant
                    n == rules@.len(),
                    i <= n,
                    views_chars(out@) == start + rules_texts(items_j(rules@.take(i as int))),
                decreases n - i,
            {
                proof {
                    lemma_items_j(rules@.take(i + 1));
                    lemma_items_j(rules@.take(i as int));
                    assert(items_j(rules@.take(i + 1)).drop_last() =~= items_j(rules@.take(i as int)));
                    assert(items_j(rules@.take(i + 1)).last() == rules@[i as int].j());
                }
                let ghost before = out@;
                match rule_text_exec(&rules[i]) {
                    Some(t) => {
                        out.push(t);
                        assert(views_chars(out@) =~= views_chars(before).push(t@));
                    },
                    None => {},
                }
                i += 1;
            }
            assert(rules@.take(n as int) =~= rules@);
        },
        None => {
            assert(views_chars(out@) =~= views_chars(out@) + Seq::<Seq<char>>::empty());
        },
    }
}

/// The characters of each character vector, in order.
pub open spec fn views_chars(v: Seq<Vec<char>>) -> Seq<Seq<char>> {
    Seq::new(v.len(), |i: int| v[i]@)
}

/// Drops every element equal to the one before it (`Vec::dedup`).
pub fn dedup_chars(v: &Vec<Vec<char>>) -> (r: Vec<Vec<char>>)
    ensures
        views_chars(r@) == dedup(views_chars(v@)),
{
    let mut out: Vec<Vec<char>> = Vec::new();
    let n = v.len();
    let mut i: usize = 0;
    while i < n
        invariant
            n == v@.len(),
            i <= n,
            views_chars(out@) == dedup(views_chars(v@.take(i as int))),
        decreases n - i,
    {
        let ghost before = out@;
        assert(views_chars(v@.take(i + 1)).drop_last() =~= views_chars(v@.take(i as int)));
        assert(views_chars(v@.take(i + 1)).last() == v@[i as int]@);
        let keep = if out.len() == 0 {
            true
        } else {
            !chars_eq(&out[out.len() - 1], &v[i])
        };
        if keep {
            let mut copy: Vec<char> = Vec::new();
            push_all(&mut copy, &v[i]);
            out.push(copy);
            assert(views_chars(out@) =~= views_chars(before).push(v@[i as int]@));
        }
        i += 1;
    }
    assert(v@.take(n as int) =~= v@);
    out
}

/// The "don't ask again" permission strings a request payload suggests, as
/// the CLI's `permissions.allow` entries, consecutive duplicates dropped.
pub fn collect_always_rules(payload: &JsonValue) -> (r: Vec<String>)
    ensures
        views(r@) == spec_always_rules(payload.j()),
{
    let mut raw: Vec<Vec<char>> = Vec::new();
    match as_array(get(payload, "permission_suggestions")) {
        Some(suggestions) => {
            proof {
                lemma_items_j(suggestions@);
            }
            let n = suggestions.len();
            let mut i: usize = 0;
            while i < n
                invariant
                    n == suggestions@.len(),
                    i <= n,
                    views_chars(raw@) == suggestions_rules(items_j(suggestions@.take(i as int))),
                decreases n - i,
            {
                proof {
                    lemma_items_j(suggestions@.take(i + 1));
                    lemma_items_j(suggestions@.take(i as int));
                    assert(items_j(suggestions@.take(i + 1)).drop_last() =~= items_j(suggestions@.take(i as int)));
                    assert(items_j(suggestions@.take(i + 1)).last() == suggestions@[i as int].j());
                }
                push_suggestion_rules(&suggestions[i], &mut raw);
                i += 1;
            }
            assert(suggestions@.take(n as int) =~= suggestions@);
            let d = dedup_chars(&raw);
            strings_of(&d)
        },
        None => {
            let r: Vec<String> = Vec::new();
            assert(views(r@) =~= Seq::<Seq<char>>::empty());
            r
        },
    }
}

/// `String`s holding the characters of each vector.
pub fn strings_of(v: &Vec<Vec<char>>) -> (r: Vec<String>)
    ensures
        views(r@) == views_chars(v@),
{
    let mut out: Vec<String> = Vec::new();
    let n = v.len();
    let mut i: usize = 0;
    while i < n
        invariant
            n == v@.len(),
            i <= n,
            views(out@) == views_chars(v@.take(i as int)),
        decreases n - i,
    {
        let ghost before = out@;
        out.push(string_of(&v[i]));
        assert(views(out@) =~= views(before).push(v@[i as int]@));
        assert(views_chars(v@.take(i + 1)) =~= views_chars(v@.take(i as int)).push(v@[i as int]@));
        i += 1;
    }
    assert(v@.take(n as int) =~= v@);
    out
}

/// A `String` holding the characters of `lit`.
pub fn string_lit(lit: &str) -> (s: String)
    ensures
        s@ == lit@,
{
    string_of(&chars_of(lit))
}

/// The response body the CLI's `PermissionRequest` hook expects:
/// `{"hookSpecificOutput": {"hookEventName": "PermissionRequest", "decision":
/// {"behavior": .., "updatedInput": .., "message": ..}}}`, the last two only
/// when given.
pub open spec fn response_j(behavior: Seq<char>, updated: Option<Json>, message: Option<Seq<char>>) -> Json {
    let d0 = seq![("behavior"@, Json::Str(behavior))];
    let d1 = match updated {
        Some(u) => d0.push(("updatedInput"@, u)),
        None => d0,
    };
    let d2 = match message {
        Some(m) => d1.push(("message"@, Json::Str(m))),
        None => d1,
    };
    Json::Object(seq![("hookSpecificOutput"@, Json::Object(seq![
        ("hookEventName"@, Json::Str("PermissionRequest"@)),
        ("decision"@, Json::Object(d2)),
    ]))])
}

/// Builds the response envelope; `updated_input` is only ever sent with
/// `"allow"`, `message` is the reason shown for a `"deny"`.
pub fn build_response(behavior: &str, updated_input: Option<&JsonValue>, message: Option<&str>) -> (r: JsonValue)
    ensures
        r.j() == response_j(behavior@, opt_j(updated_input), match message {
            Some(m) => Some(m@),
            None => None,
        }),
{
    let mut decision: Vec<(String, JsonValue)> = Vec::new();
    decision.push((string_lit("behavior"), JsonValue::Str(string_lit(behavior))));
    if let Some(input) = updated_input {
        decision.push((string_lit("updatedInput"), deep_clone(input)));
    }
    if let Some(msg) = message {
        decision.push((string_lit("message"), JsonValue::Str(string_lit(msg))));
    }
    let mut inner: Vec<(String, JsonValue)> = Vec::new();
    inner.push((string_lit("hookEventName"), JsonValue::Str(string_lit("PermissionRequest"))));
    let ghost dview = entries_j(decision@);
    inner.push((string_lit("decision"), JsonValue::Object(decision)));
    let mut outer: Vec<(String, JsonValue)> = Vec::new();
    let ghost iview = entries_j(inner@);
    outer.push((string_lit("hookSpecificOutput"), JsonValue::Object(inner)));
    proof {
        lemma_entries_j(decision@);
        lemma_entries_j(inner@);
        lemma_entries_j(outer@);
        let m = match message {
            Some(m) => Some(m@),
            None => None,
        };
        let expect = response_j(behavior@, opt_j(updated_input), m);
        assert(dview =~= (match expect {
            Json::Object(o) => match o[0].1 {
                Json::Object(i) => match i[1].1 {
                    Json::Object(d) => d,
                    _ => Seq::empty(),
                },
                _ => Seq::empty(),
            },
            _ => Seq::empty(),
        }));
        assert(iview =~= seq![("hookEventName"@, Json::Str("PermissionRequest"@)), ("decision"@, Json::Object(dview))]);
        assert(entries_j(outer@) =~= seq![("hookSpecificOutput"@, Json::Object(iview))]);
    }
    JsonValue::Object(outer)
}

/// The plain allow sent when a request cannot be read or parsed, or needs
/// no interactive answer.
pub fn allow_response() -> (r: JsonValue)
    ensures
        r.j() == response_j("allow"@, None, None),
{
    build_response("allow", None, None)
}

/// The decision a pie-menu slot maps to for a plain permission request.
/// `AllowAlways` additionally persists the request's suggested rules.
#[derive(Clone, Copy, Debug, PartialEq, Eq, Structural)]
pub enum Decision {
    Allow,
    AllowAlways,
    Deny,
}

/// Rules to persist on "Allow, don't ask again", and the project directory
/// whose local settings receive them.
pub struct AlwaysRules {
    pub cwd: String,
    pub rules: Vec<String>,
}

/// A plain tool permission, or an `AskUserQuestion` whose answer goes back
/// through the response's `updatedInput`.
pub enum RequestKind {
    Simple,
    Question { question_text: String, options: Vec<String> },
}

/// What a pick (or a timeout) resolves a request with: a plain decision, or
/// the index of the chosen listed option (`None` = answer in the terminal).
#[derive(Clone, Copy, Debug, PartialEq, Eq, Structural)]
pub enum Resolution {
    Simple(Decision),
    Question(Option<u32>),
}

/// One request from arrival until it is answered or times out.
pub struct PendingRequest {
    pub id: u64,
    pub tool_name: String,
    pub detail: String,
    pub always: Option<AlwaysRules>,
    pub kind: RequestKind,
}

/// What the overlay is asked to show for the request at the front.
pub enum PromptCard {
    Permission { tool_name: String, detail: String },
    Question { question_text: String, options: Vec<String> },
}

/// The prompt a request shows, as character sequences.
pub open spec fn card_of(r: PendingRequest) -> (Seq<char>, Seq<char>, Option<Seq<Seq<char>>>) {
    match r.kind {
        RequestKind::Simple => (r.tool_name@, r.detail@, None),
        RequestKind::Question { question_text, options } => (question_text@, Seq::empty(), Some(views(options@))),
    }
}

/// A card's content as character sequences.
pub open spec fn card_view(c: PromptCard) -> (Seq<char>, Seq<char>, Option<Seq<Seq<char>>>) {
    match c {
        PromptCard::Permission { tool_name, detail } => (tool_name@, detail@, None),
        PromptCard::Question { question_text, options } => (question_text@, Seq::empty(), Some(views(options@))),
    }
}

/// The card to show for what is at the front of `q` (`None` when empty).
pub open spec fn front_card_view(q: Seq<PendingRequest>) -> Option<(Seq<char>, Seq<char>, Option<Seq<Seq<char>>>)> {
    if q.len() == 0 {
        None
    } else {
        Some(card_of(q[0]))
    }
}

/// The view of an optional card.
pub open spec fn opt_card_view(c: Option<PromptCard>) -> Option<(Seq<char>, Seq<char>, Option<Seq<Seq<char>>>)> {
    match c {
        Some(card) => Some(card_view(card)),
        None => None,
    }
}

/// Every request whose id is not `id`, in order.
pub open spec fn without_id(q: Seq<PendingRequest>, id: u64) -> Seq<PendingRequest>
    decreases q.len(),
{
    if q.len() == 0 {
        Seq::empty()
    } else if q.last().id == id {
        without_id(q.drop_last(), id)
    } else {
        without_id(q.drop_last(), id).push(q.last())
    }
}

/// What resolving the front request produced.
pub struct Resolved {
    /// The request that received the resolution.
    pub id: u64,
    pub resolution: Resolution,
    /// Rules to persist: the request's own, on an "always allow" pick.
    pub persist: Option<AlwaysRules>,
    /// The card to show next, for the new front.
    pub next: Option<PromptCard>,
}

/// What a timed-out request's removal asks of the overlay.
pub struct Expired {
    /// The expired request was the one on screen.
    pub was_front: bool,
    /// Dismiss the overlay: the shown request expired and nothing is left.
    pub close_overlay: bool,
    /// The card to show instead, when the shown request expired and others wait.
    pub next: Option<PromptCard>,
}

fn copy_strings(v: &Vec<String>) -> (r: Vec<String>)
    ensures
        views(r@) == views(v@),
{
    let mut out: Vec<String> = Vec::new();
    let n = v.len();
    let mut i: usize = 0;
    while i < n
        invariant
            n == v@.len(),
            i <= n,
            views(out@) == views(v@.take(i as int)),
        decreases n - i,
    {
        let ghost before = out@;
        out.push(clone_string(&v[i]));
        assert(views(out@) =~= views(before).push(v@[i as int]@));
        assert(views(v@.take(i + 1)) =~= views(v@.take(i as int)).push(v@[i as int]@));
        i += 1;
    }
    assert(v@.take(n as int) =~= v@);
    out
}

fn card_for(r: &PendingRequest) -> (c: PromptCard)
    ensures
        card_view(c) == card_of(*r),
{
    match &r.kind {
        RequestKind::Simple => PromptCard::Permission {
            tool_name: clone_string(&r.tool_name),
            detail: clone_string(&r.detail),
        },
        RequestKind::Question { question_text, options } => PromptCard::Question {
            question_text: clone_string(question_text),
            options: copy_strings(options),
        },
    }
}

/// Every request that has arrived and is neither answered nor timed out,
/// oldest first. Only the front one is ever on screen.
pub struct PermissionQueue {
    items: std::collections::VecDeque<PendingRequest>,
    next_id: u64,
}

impl PermissionQueue {
    /// The waiting requests, oldest first.
    pub closed spec fn requests(&self) -> Seq<PendingRequest> {
        self.items@
    }

    /// The id the next arrival receives.
    pub closed spec fn next_id(&self) -> u64 {
        self.next_id
    }

    /// Ids of waiting requests increase from front to back and are all
    /// below the next id to hand out.
    pub open spec fn ids_ordered(&self) -> bool {
        &&& forall|i: int, j: int| 0 <= i < j < self.requests().len()
            ==> self.requests()[i].id < self.requests()[j].id
        &&& forall|i: int| 0 <= i < self.requests().len() ==> self.requests()[i].id < self.next_id()
    }

    /// An empty queue; ids start at 1.
    pub fn new() -> (q: PermissionQueue)
        ensures
            q.requests() == Seq::<PendingRequest>::empty(),
            q.next_id() == 1,
            q.ids_ordered(),
    {
        PermissionQueue { items: std::collections::VecDeque::new(), next_id: 1 }
    }

    /// The card for the request at the front, if any.
    pub fn front_card(&self) -> (c: Option<PromptCard>)
        ensures
            opt_card_view(c) == front_card_view(self.requests()),
    {
        if self.items.len() == 0 {
            None
        } else {
            Some(card_for(&self.items[0]))
        }
    }

    /// Queues an arriving request under the next id (the counter wraps like
    /// the atomic counter it models). Returns that id and, when the queue was
    /// empty, the card to show now; a request arriving behind others waits
    /// its turn without touching the screen.
    pub fn push(
        &mut self,
        tool_name: String,
        detail: String,
        always: Option<AlwaysRules>,
        kind: RequestKind,
    ) -> (r: (u64, Option<PromptCard>))
        ensures
            r.0 == old(self).next_id(),
            final(self).next_id() == old(self).next_id().wrapping_add(1),
            final(self).requests() == old(self).requests().push(PendingRequest {
                id: r.0, tool_name, detail, always, kind,
            }),
            old(self).requests().len() == 0 ==> opt_card_view(r.1) == front_card_view(final(self).requests()),
            old(self).requests().len() > 0 ==> r.1 is None,
            old(self).ids_ordered() && old(self).next_id() < u64::MAX ==> final(self).ids_ordered(),
    {
        let id = self.next_id;
        self.next_id = self.next_id.wrapping_add(1);
        self.items.push_back(PendingRequest { id, tool_name, detail, always, kind });
        let card = if self.items.len() == 1 {
            self.front_card()
        } else {
            None
        };
        (id, card)
    }

    /// Removes the request `id` after its wait timed out, wherever it is in
    /// the queue. Only a request that was on screen needs the overlay to
    /// react: it closes when nothing is left, or moves on to the new front.
    pub fn expire(&mut self, id: u64) -> (r: Expired)
        ensures
            final(self).requests() == without_id(old(self).requests(), id),
            r.was_front == (old(self).requests().len() > 0 && old(self).requests()[0].id == id),
            r.close_overlay == (r.was_front && final(self).requests().len() == 0),
            r.was_front ==> opt_card_view(r.next) == front_card_view(final(self).requests()),
            !r.was_front ==> r.next is None,
            final(self).next_id() == old(self).next_id(),
            old(self).ids_ordered() ==> final(self).ids_ordered(),
    {
        let was_front = self.items.len() > 0 && self.items[0].id == id;
        let mut kept: std::collections::VecDeque<PendingRequest> = std::collections::VecDeque::new();
        let ghost orig = self.items@;
        while self.items.len() > 0
            invariant
                without_id(orig, id) == kept@ + without_id(self.items@, id),
                self.next_id == old(self).next_id,
                orig == old(self).items@,
            decreases self.items@.len(),
        {
            let ghost rest = self.items@;
            let r = self.items.pop_front().unwrap();
            proof {
                lemma_without_id_front(rest, id);
                assert(self.items@ =~= rest.drop_first());
            }
            if r.id != id {
                let ghost kb = kept@;
                kept.push_back(r);
                proof {
                    assert(kept@ == kb.push(rest[0]));
                    assert(kb + (seq![rest[0]] + without_id(self.items@, id)) =~= kept@ + without_id(self.items@, id));
                }
            }
        }
        assert(without_id(self.items@, id) =~= Seq::<PendingRequest>::empty());
        assert(kept@ =~= without_id(orig, id));
        self.items = kept;
        proof {
            if old(self).ids_ordered() {
                lemma_without_id_ordered(orig, id, self.next_id);
            }
        }
        let close_overlay = was_front && self.items.len() == 0;
        let next = if was_front && self.items.len() > 0 {
            self.front_card()
        } else {
            None
        };
        Expired { was_front, close_overlay, next }
    }
}

/// True if at least one request is waiting (shown or queued).
pub fn is_pending(queue: &PermissionQueue) -> (r: bool)
    ensures
        r == (queue.requests().len() > 0),
{
    queue.items.len() > 0
}

/// The overlay shows the front request's own content in place: a plain
/// request's card is titled with its tool and shows its detail line; a
/// question's card shows its question text and its options in order.
pub proof fn law_front_card_shows_front(q: Seq<PendingRequest>)
    requires
        q.len() > 0,
    ensures
        q[0].kind is Simple ==> front_card_view(q) == Some((q[0].tool_name@, q[0].detail@, None::<Seq<Seq<char>>>)),
        q[0].kind matches RequestKind::Question { question_text, options }
            ==> front_card_view(q) == Some((question_text@, Seq::<char>::empty(), Some(views(options@)))),
{
}

/// A plain request arriving at an empty queue is shown at once, titled
/// with its own tool name and showing its own detail line.
pub proof fn law_push_shows_arrival(before: Seq<PendingRequest>, arrived: PendingRequest)
    requires
        before.len() == 0,
        arrived.kind is Simple,
    ensures
        front_card_view(before.push(arrived)) == Some((arrived.tool_name@, arrived.detail@, None::<Seq<Seq<char>>>)),
{
    law_front_card_shows_front(before.push(arrived));
}

/// Hands `resolution` to the request at the front and removes it; the
/// card of the new front (if any) is shown next. `None` when nothing was
/// waiting (a stale or double pick). An "always allow" pick hands back
/// the request's own rules to persist.
pub fn resolve_with(queue: &mut PermissionQueue, resolution: Resolution) -> (r: Option<Resolved>)
    ensures
        old(queue).requests().len() == 0 ==> r is None && final(queue).requests() == old(queue).requests(),
        old(queue).requests().len() > 0 ==> {
            &&& r matches Some(res)
            &&& res.id == old(queue).requests()[0].id
            &&& res.resolution == resolution
            &&& res.persist == (if resolution == Resolution::Simple(Decision::AllowAlways) {
                    old(queue).requests()[0].always
                } else {
                    None
                })
            &&& final(queue).requests() == old(queue).requests().drop_first()
            &&& opt_card_view(res.next) == front_card_view(final(queue).requests())
        },
        final(queue).next_id() == old(queue).next_id(),
        old(queue).ids_ordered() ==> final(queue).ids_ordered(),
{
    if queue.items.len() == 0 {
        return None;
    }
    let front = match queue.items.pop_front() {
        Some(f) => f,
        None => return None,
    };
    assert(queue.items@ =~= old(queue).items@.drop_first());
    let persist = match resolution {
        Resolution::Simple(Decision::AllowAlways) => front.always,
        _ => None,
    };
    let next = queue.front_card();
    Some(Resolved { id: front.id, resolution, persist, next })
}

/// Delivers a plain permission pick to the front request.
pub fn resolve(queue: &mut PermissionQueue, decision: Decision) -> (r: Option<Resolved>)
    ensures
        old(queue).requests().len() == 0 ==> r is None && final(queue).requests() == old(queue).requests(),
        old(queue).requests().len() > 0 ==> {
            &&& r matches Some(res)
            &&& res.id == old(queue).requests()[0].id
            &&& res.resolution == Resolution::Simple(decision)
            &&& res.persist == (if decision == Decision::AllowAlways {
                    old(queue).requests()[0].always
                } else {
                    None
                })
            &&& final(queue).requests() == old(queue).requests().drop_first()
            &&& opt_card_view(res.next) == front_card_view(final(queue).requests())
        },
        final(queue).next_id() == old(queue).next_id(),
        old(queue).ids_ordered() ==> final(queue).ids_ordered(),
{
    resolve_with(queue, Resolution::Simple(decision))
}

/// Delivers an `AskUserQuestion` pick to the front request: `Some(i)` is
/// listed option `i`, `None` is "answer in terminal instead".
pub fn resolve_question(queue: &mut PermissionQueue, pick: Option<u32>) -> (r: Option<Resolved>)
    ensures
        old(queue).requests().len() == 0 ==> r is None && final(queue).requests() == old(queue).requests(),
        old(queue).requests().len() > 0 ==> {
            &&& r matches Some(res)
            &&& res.id == old(queue).requests()[0].id
            &&& res.resolution == Resolution::Question(pick)
            &&& res.persist is None
            &&& final(queue).requests() == old(queue).requests().drop_first()
            &&& opt_card_view(res.next) == front_card_view(final(queue).requests())
        },
        final(queue).next_id() == old(queue).next_id(),
        old(queue).ids_ordered() ==> final(queue).ids_ordered(),
{
    resolve_with(queue, Resolution::Question(pick))
}


/// How an arriving request is handled: an `AskUserQuestion` goes down the
/// question path; any other tool becomes a plain permission request carrying
/// its detail line and, when it suggests any, its "always allow" rules.
pub enum Incoming {
    AskUserQuestion,
    Simple { tool_name: String, detail: String, always: Option<AlwaysRules> },
}

/// The working directory a payload names (empty when none).
pub open spec fn spec_cwd(p: Json) -> Seq<char> {
    match jstr(jget(p, "cwd"@)) {
        Some(c) => c,
        None => Seq::empty(),
    }
}

/// Sorts an arriving request by its tool, gathering what a plain request
/// needs to be shown and answered.
pub fn classify_request(payload: &JsonValue) -> (r: Incoming)
    ensures
        spec_tool_name(payload.j()) == "AskUserQuestion"@ ==> r is AskUserQuestion,
        spec_tool_name(payload.j()) != "AskUserQuestion"@ ==> match r {
            Incoming::Simple { tool_name, detail, always } => {
                &&& tool_name@ == spec_tool_name(payload.j())
                &&& detail@ == spec_request_detail(payload.j())
                &&& match always {
                    Some(a) => spec_always_rules(payload.j()).len() > 0
                        && views(a.rules@) == spec_always_rules(payload.j())
                        && a.cwd@ == spec_cwd(payload.j()),
                    None => spec_always_rules(payload.j()).len() == 0,
                }
            },
            _ => false,
        },
{
    let name = tool_name(payload);
    if chars_eq_str(&chars_of(name.as_str()), "AskUserQuestion") {
        return Incoming::AskUserQuestion;
    }
    let detail = request_detail(payload);
    let cwd = match get_str(Some(payload), "cwd") {
        Some(c) => clone_string(c),
        None => String::new(),
    };
    let rules = collect_always_rules(payload);
    let always = if rules.len() == 0 {
        None
    } else {
        Some(AlwaysRules { cwd, rules })
    };
    Incoming::Simple { tool_name: name, detail, always }
}

/// How an arriving request is answered, decided from its body.
pub enum Arrival {
    /// The body could not be read, or is not JSON: answer at once with this
    /// response (`allow`) and queue nothing.
    AnswerNow(JsonValue),
    /// An `AskUserQuestion`, with its parsed payload.
    Question(JsonValue),
    /// A plain permission request to queue.
    Simple { tool_name: String, detail: String, always: Option<AlwaysRules> },
}

/// Whether `r` is how `classify_request` handles payload `p`.
pub open spec fn classified(p: Json, r: Incoming) -> bool {
    if spec_tool_name(p) == "AskUserQuestion"@ {
        r is AskUserQuestion
    } else {
        match r {
            Incoming::Simple { tool_name, detail, always } => {
                &&& tool_name@ == spec_tool_name(p)
                &&& detail@ == spec_request_detail(p)
                &&& match always {
                    Some(a) => spec_always_rules(p).len() > 0 && views(a.rules@) == spec_always_rules(p) && a.cwd@ == spec_cwd(p),
                    None => spec_always_rules(p).len() == 0,
                }
            },
            _ => false,
        }
    }
}

/// The payload a posted body carries: its text (invalid UTF-8 replaced)
/// parsed as JSON.
pub open spec fn body_payload(body: Seq<u8>) -> Option<Json> {
    parsed_json(lossy_utf8(body))
}

/// Decides what to do with a request from its body (`None` when the body
/// could not be read): an unreadable or non-JSON body is allowed at once;
/// otherwise the payload is sorted by `classify_request`.
pub fn classify_body(body: Option<&[u8]>) -> (r: Arrival)
    ensures
        body is None || body_payload(body->0@) is None ==> (r matches Arrival::AnswerNow(a)
            && a.j() == response_j("allow"@, None, None)),
        match body {
            Some(b) => match body_payload(b@) {
                Some(p) => if spec_tool_name(p) == "AskUserQuestion"@ {
                    r matches Arrival::Question(q) && q.j() == p
                } else {
                    r matches Arrival::Simple { tool_name, detail, always }
                        && classified(p, Incoming::Simple { tool_name, detail, always })
                },
                None => true,
            },
            None => true,
        },
{
    let b = match body {
        Some(b) => b,
        None => return Arrival::AnswerNow(allow_response()),
    };
    let text = lossy_text(b);
    let payload = match parse_json(text.as_str()) {
        Some(p) => p,
        None => return Arrival::AnswerNow(allow_response()),
    };
    match classify_request(&payload) {
        Incoming::AskUserQuestion => Arrival::Question(payload),
        Incoming::Simple { tool_name, detail, always } => Arrival::Simple { tool_name, detail, always },
    }
}

/// The answer sent for a plain permission request once it is resolved:
/// allow for either allow pick, deny otherwise (a timeout resolves as deny).
pub open spec fn spec_simple_behavior(resolution: Resolution) -> Seq<char> {
    match resolution {
        Resolution::Simple(Decision::Allow) | Resolution::Simple(Decision::AllowAlways) => "allow"@,
        _ => "deny"@,
    }
}

/// The response for a resolved plain permission request.
pub fn simple_response(resolution: Resolution) -> (r: JsonValue)
    ensures
        r.j() == response_j(spec_simple_behavior(resolution), None, None),
{
    match resolution {
        Resolution::Simple(Decision::Allow) | Resolution::Simple(Decision::AllowAlways) => {
            build_response("allow", None, None)
        },
        _ => build_response("deny", None, None),
    }
}

/// An `AskUserQuestion` the overlay can show: the tool's input (answered by
/// echoing it back), the first question's text and its option labels.
pub enum QuestionPlan {
    /// Answer `allow` at once and let the CLI show its own picker: no
    /// question, a multi-select question, or one missing text or options.
    AutoAllow,
    Ask { tool_input: JsonValue, question_text: String, options: Vec<String> },
}

/// The label of listed option `i` (0-based): its `label`, or `Option n` with
/// `n = i + 1` when it has none.
pub open spec fn option_label(o: Json, i: int) -> Seq<char> {
    match jstr(jget(o, "label"@)) {
        Some(l) => l,
        None => "Option "@ + decimal((i + 1) as nat),
    }
}

/// The labels of all listed options.
pub open spec fn option_labels(a: Seq<Json>) -> Seq<Seq<char>> {
    Seq::new(a.len(), |i: int| option_label(a[i], i))
}

/// The request's `tool_input`, or an empty object when absent.
pub open spec fn spec_tool_input(p: Json) -> Json {
    match jget(p, "tool_input"@) {
        Some(t) => t,
        None => Json::Object(Seq::empty()),
    }
}

/// The first question of the tool input, if it lists any.
pub open spec fn first_question(t: Json) -> Option<Json> {
    match jarray(jget(t, "questions"@)) {
        Some(a) => if a.len() > 0 { Some(a[0]) } else { None },
        None => None,
    }
}

/// The question's text (empty when absent).
pub open spec fn question_text_of(q: Json) -> Seq<char> {
    match jstr(jget(q, "question"@)) {
        Some(t) => t,
        None => Seq::empty(),
    }
}

/// The question's option labels (none when it has no option list).
pub open spec fn question_options_of(q: Json) -> Seq<Seq<char>> {
    match jarray(jget(q, "options"@)) {
        Some(a) => option_labels(a),
        None => Seq::empty(),
    }
}

/// Whether the question must be answered by the CLI's own picker.
pub open spec fn auto_allowed(q: Option<Json>) -> bool {
    match q {
        None => true,
        Some(q) => (match jbool(jget(q, "multiSelect"@)) {
            Some(b) => b,
            None => false,
        }) || question_options_of(q).len() == 0 || question_text_of(q).len() == 0,
    }
}

fn option_label_exec(o: &JsonValue, i: usize) -> (r: String)
    requires
        i < usize::MAX,
    ensures
        r@ == option_label(o.j(), i as int),
{
    match get_str(Some(o), "label") {
        Some(l) => clone_string(l),
        None => {
            let mut out = chars_of("Option ");
            let digits = decimal_chars((i as u64) + 1);
            push_all(&mut out, &digits);
            string_of(&out)
        },
    }
}

/// Reads the first question of an `AskUserQuestion` request.
pub fn plan_question(payload: &JsonValue) -> (r: QuestionPlan)
    ensures
        auto_allowed(first_question(spec_tool_input(payload.j()))) ==> r is AutoAllow,
        !auto_allowed(first_question(spec_tool_input(payload.j()))) ==> match r {
            QuestionPlan::Ask { tool_input, question_text, options } => {
                let q = first_question(spec_tool_input(payload.j()))->0;
                &&& tool_input.j() == spec_tool_input(payload.j())
                &&& question_text@ == question_text_of(q)
                &&& views(options@) == question_options_of(q)
            },
            _ => false,
        },
{
    let tool_input = match get(payload, "tool_input") {
        Some(t) => deep_clone(t),
        None => {
            let es: Vec<(String, JsonValue)> = Vec::new();
            proof {
                lemma_entries_j(es@);
                assert(entries_j(es@) =~= Seq::empty());
            }
            JsonValue::Object(es)
        },
    };
    let question = match as_array(get(&tool_input, "questions")) {
        Some(a) => {
            proof {
                lemma_items_j(a@);
            }
            if a.len() > 0 {
                Some(&a[0])
            } else {
                None
            }
        },
        None => None,
    };
    let question = match question {
        Some(q) => q,
        None => return QuestionPlan::AutoAllow,
    };
    let multi_select = match as_bool(get(question, "multiSelect")) {
        Some(b) => b,
        None => false,
    };
    let question_text = match get_str(Some(question), "question") {
        Some(t) => clone_string(t),
        None => String::new(),
    };
    let mut options: Vec<String> = Vec::new();
    match as_array(get(question, "options")) {
        Some(arr) => {
            proof {
                lemma_items_j(arr@);
            }
            let n = arr.len();
            let mut i: usize = 0;
            while i < n
                invariant
                    n == arr@.len(),
                    i <= n,
                    views(options@) == option_labels(items_j(arr@)).take(i as int),
                    forall|k: int| 0 <= k < n ==> #[trigger] items_j(arr@)[k] == arr@[k].j(),
                    items_j(arr@).len() == n,
                decreases n - i,
            {
                let ghost before = options@;
                let label = option_label_exec(&arr[i], i);
                options.push(label);
                assert(views(options@) =~= views(before).push(option_label(arr@[i as int].j(), i as int)));
                assert(option_labels(items_j(arr@)).take(i + 1) =~= option_labels(items_j(arr@)).take(i as int).push(option_label(items_j(arr@)[i as int], i as int)));
                i += 1;
            }
            assert(option_labels(items_j(arr@)).take(n as int) =~= option_labels(items_j(arr@)));
        },
        None => {
            assert(views(options@) =~= Seq::<Seq<char>>::empty());
        },
    }
    if multi_select || options.len() == 0 || question_text.as_str().is_empty() {
        return QuestionPlan::AutoAllow;
    }
    QuestionPlan::Ask { tool_input, question_text, options }
}

/// The tool input echoed back with `answers: {question: option}` added (an
/// input that is not an object is echoed unchanged).
pub open spec fn answered_input(t: Json, question: Seq<char>, option: Seq<char>) -> Json {
    match t {
        Json::Object(es) => Json::Object(jinsert(es, "answers"@, Json::Object(seq![(question, Json::Str(option))]))),
        _ => t,
    }
}

/// The pick a resolution carries for a question (a plain decision carries
/// none).
pub open spec fn question_pick(resolution: Resolution) -> Option<u32> {
    match resolution {
        Resolution::Question(p) => p,
        Resolution::Simple(_) => None,
    }
}

/// The response for a resolved `AskUserQuestion`: a listed pick answers it
/// through `updatedInput`; "answer in terminal instead" or a timeout denies,
/// so the CLI falls back to its own picker.
pub fn question_response(
    tool_input: JsonValue,
    question_text: &String,
    options: &Vec<String>,
    resolution: Resolution,
) -> (r: JsonValue)
    ensures
        match question_pick(resolution) {
            Some(i) if (i as int) < options@.len() => r.j() == response_j(
                "allow"@,
                Some(answered_input(tool_input.j(), question_text@, options@[i as int]@)),
                None,
            ),
            _ => r.j() == response_j("deny"@, None, Some("Answering in the terminal instead"@)),
        },
{
    let pick = match resolution {
        Resolution::Question(p) => p,
        Resolution::Simple(_) => None,
    };
    match pick {
        Some(i) if (i as usize) < options.len() => {
            let mut updated = tool_input;
            let ghost before = updated.j();
            match &mut updated {
                JsonValue::Object(entries) => {
                    let mut answers: Vec<(String, JsonValue)> = Vec::new();
                    answers.push((clone_string(question_text), JsonValue::Str(clone_string(&options[i as usize]))));
                    proof {
                        lemma_entries_j(answers@);
                        assert(entries_j(answers@) =~= seq![(question_text@, Json::Str(options@[i as int]@))]);
                    }
                    insert(entries, string_lit("answers"), JsonValue::Object(answers));
                },
                _ => {},
            }
            build_response("allow", Some(&updated), None)
        },
        _ => build_response("deny", None, Some("Answering in the terminal instead")),
    }
}

/// Filtering from the front: the first element stays exactly when its id
/// differs.
pub proof fn lemma_without_id_front(q: Seq<PendingRequest>, id: u64)
    requires
        q.len() > 0,
    ensures
        without_id(q, id) == if q[0].id == id {
            without_id(q.drop_first(), id)
        } else {
            seq![q[0]] + without_id(q.drop_first(), id)
        },
    decreases q.len(),
{
    if q.len() == 1 {
        assert(q.drop_last() =~= Seq::<PendingRequest>::empty());
        assert(q.drop_first() =~= Seq::<PendingRequest>::empty());
        assert(q.last() == q[0]);
    } else {
        lemma_without_id_front(q.drop_last(), id);
        assert(q.drop_last().drop_first() =~= q.drop_first().drop_last());
        assert(q.drop_last()[0] == q[0]);
        assert(q.drop_first().last() == q.last());
        if q[0].id == id {
        } else {
            assert((seq![q[0]] + without_id(q.drop_first().drop_last(), id)).push(q.last())
                =~= seq![q[0]] + without_id(q.drop_first().drop_last(), id).push(q.last()));
        }
    }
}

/// Filtering keeps an upper bound on the ids.
pub proof fn lemma_without_id_bound(q: Seq<PendingRequest>, id: u64, x: u64)
    requires
        forall|i: int| 0 <= i < q.len() ==> q[i].id < x,
    ensures
        forall|i: int| 0 <= i < without_id(q, id).len() ==> without_id(q, id)[i].id < x,
    decreases q.len(),
{
    if q.len() > 0 {
        let d = q.drop_last();
        assert forall|i: int| 0 <= i < d.len() implies d[i].id < x by {
            assert(d[i] == q[i]);
        }
        lemma_without_id_bound(d, id, x);
    }
}

/// Filtering keeps ids increasing and below a bound.
pub proof fn lemma_without_id_ordered(q: Seq<PendingRequest>, id: u64, x: u64)
    requires
        forall|i: int, j: int| 0 <= i < j < q.len() ==> q[i].id < q[j].id,
        forall|i: int| 0 <= i < q.len() ==> q[i].id < x,
    ensures
        forall|i: int, j: int| 0 <= i < j < without_id(q, id).len() ==> without_id(q, id)[i].id < without_id(q, id)[j].id,
        forall|i: int| 0 <= i < without_id(q, id).len() ==> without_id(q, id)[i].id < x,
    decreases q.len(),
{
    lemma_without_id_bound(q, id, x);
    if q.len() > 0 {
        let d = q.drop_last();
        assert forall|i: int, j: int| 0 <= i < j < d.len() implies d[i].id < d[j].id by {
            assert(d[i] == q[i] && d[j] == q[j]);
        }
        assert forall|i: int| 0 <= i < d.len() implies d[i].id < q.last().id by {
            assert(d[i] == q[i]);
        }
        lemma_without_id_ordered(d, id, x);
        lemma_without_id_bound(d, id, q.last().id);
    }
}

} // verus!
