use djimic::allow_rules::{merge_allow_rules, merge_allow_rules_file};
use djimic::json::JsonValue;
use djimic::http::http_reply;
use djimic::permission::{
    allow_response, build_response, classify_request, collect_always_rules, is_pending, plan_question,
    question_response, request_detail, resolve, resolve_question, simple_response, tool_name, AlwaysRules, Decision,
    classify_body, Arrival, Incoming, PermissionQueue, PromptCard, QuestionPlan, RequestKind, Resolution, PORT,
};

fn json(v: &JsonValue) -> String {
    let r = http_reply(v);
    r.split_once("\r\n\r\n").unwrap().1.to_string()
}

fn s(x: &str) -> JsonValue {
    JsonValue::Str(x.to_string())
}
fn obj(es: Vec<(&str, JsonValue)>) -> JsonValue {
    JsonValue::Object(es.into_iter().map(|(k, v)| (k.to_string(), v)).collect())
}
fn arr(v: Vec<JsonValue>) -> JsonValue {
    JsonValue::Array(v)
}

#[test]
fn the_endpoint_port() {
    assert_eq!(PORT, 47216);
}

#[test]
fn the_detail_prefers_command_then_description_then_path() {
    let p = obj(vec![("tool_input", obj(vec![("description", s("d")), ("command", s("ls -la"))]))]);
    assert_eq!(request_detail(&p), "ls -la");
    let p = obj(vec![("tool_input", obj(vec![("file_path", s("a.rs")), ("description", s("edit a"))]))]);
    assert_eq!(request_detail(&p), "edit a");
    let p = obj(vec![("tool_input", obj(vec![("file_path", s("/a/b.rs"))]))]);
    assert_eq!(request_detail(&p), "/a/b.rs");
    let p = obj(vec![("tool_input", obj(vec![("description", s("d"))]))]);
    assert_eq!(request_detail(&p), "d");
    let p = obj(vec![("tool_input", obj(vec![("x", JsonValue::Number("1".to_string()))]))]);
    assert_eq!(request_detail(&p), r#"{"x":1}"#);
    assert_eq!(request_detail(&obj(vec![])), "");
    assert_eq!(tool_name(&obj(vec![("tool_name", s("Bash"))])), "Bash");
}

#[test]
fn always_rules_are_formatted_and_deduplicated() {
    let p = obj(vec![(
        "permission_suggestions",
        arr(vec![
            obj(vec![
                ("behavior", s("allow")),
                (
                    "rules",
                    arr(vec![
                        obj(vec![("toolName", s("Bash")), ("ruleContent", s("npm test:*"))]),
                        obj(vec![("toolName", s("Bash")), ("ruleContent", s("npm test:*"))]),
                        obj(vec![("toolName", s("Read"))]),
                        obj(vec![("ruleContent", s("orphan"))]),
                    ]),
                ),
            ]),
            obj(vec![("behavior", s("deny")), ("rules", arr(vec![obj(vec![("toolName", s("Write"))])]))]),
        ]),
    )]);
    assert_eq!(collect_always_rules(&p), vec!["Bash(npm test:*)", "Read"]);
    assert!(collect_always_rules(&obj(vec![])).is_empty());
}

#[test]
fn requests_are_sorted_by_tool() {
    assert!(matches!(classify_request(&obj(vec![("tool_name", s("AskUserQuestion"))])), Incoming::AskUserQuestion));
    match classify_request(&obj(vec![
        ("tool_name", s("Bash")),
        ("cwd", s("/proj")),
        ("tool_input", obj(vec![("command", s("make"))])),
        (
            "permission_suggestions",
            arr(vec![obj(vec![("behavior", s("allow")), ("rules", arr(vec![obj(vec![("toolName", s("Bash")), ("ruleContent", s("make"))])]))])]),
        ),
    ])) {
        Incoming::Simple { tool_name, detail, always } => {
            assert_eq!(tool_name, "Bash");
            assert_eq!(detail, "make");
            let a = always.unwrap();
            assert_eq!(a.cwd, "/proj");
            assert_eq!(a.rules, vec!["Bash(make)"]);
        }
        _ => panic!("expected a plain request"),
    }
}

#[test]
fn responses_have_the_hook_envelope() {
    assert_eq!(
        json(&allow_response()),
        r#"{"hookSpecificOutput":{"decision":{"behavior":"allow"},"hookEventName":"PermissionRequest"}}"#
    );
    assert_eq!(
        json(&simple_response(Resolution::Simple(Decision::AllowAlways))),
        r#"{"hookSpecificOutput":{"decision":{"behavior":"allow"},"hookEventName":"PermissionRequest"}}"#
    );
    assert_eq!(
        json(&simple_response(Resolution::Simple(Decision::Deny))),
        r#"{"hookSpecificOutput":{"decision":{"behavior":"deny"},"hookEventName":"PermissionRequest"}}"#
    );
    let input = obj(vec![("a", JsonValue::Bool(true))]);
    assert_eq!(
        json(&build_response("allow", Some(&input), Some("m\"x"))),
        r#"{"hookSpecificOutput":{"decision":{"behavior":"allow","message":"m\"x","updatedInput":{"a":true}},"hookEventName":"PermissionRequest"}}"#
    );
}

fn question_payload(multi: bool) -> JsonValue {
    obj(vec![
        ("tool_name", s("AskUserQuestion")),
        (
            "tool_input",
            obj(vec![(
                "questions",
                arr(vec![obj(vec![
                    ("question", s("Pick one")),
                    ("multiSelect", JsonValue::Bool(multi)),
                    ("options", arr(vec![obj(vec![("label", s("Red"))]), obj(vec![("description", s("no label"))])])),
                ])]),
            )]),
        ),
    ])
}

#[test]
fn questions_are_planned_from_the_first_question() {
    match plan_question(&question_payload(false)) {
        QuestionPlan::Ask { tool_input, question_text, options } => {
            assert_eq!(question_text, "Pick one");
            assert_eq!(options, vec!["Red", "Option 2"]);
            let r = question_response(tool_input, &question_text, &options, Resolution::Question(Some(0)));
            let t = json(&r);
            assert!(t.contains(r#""behavior":"allow","updatedInput":{"answers":{"Pick one":"Red"},"questions":"#));
            assert!(t.ends_with(r#"},"hookEventName":"PermissionRequest"}}"#));
        }
        QuestionPlan::AutoAllow => panic!("expected a question"),
    }
    assert!(matches!(plan_question(&question_payload(true)), QuestionPlan::AutoAllow));
    assert!(matches!(plan_question(&obj(vec![("tool_name", s("AskUserQuestion"))])), QuestionPlan::AutoAllow));
}

#[test]
fn the_terminal_pick_denies_the_question() {
    let r = question_response(obj(vec![]), &"Q".to_string(), &vec!["A".to_string()], Resolution::Question(None));
    assert_eq!(
        json(&r),
        r#"{"hookSpecificOutput":{"decision":{"behavior":"deny","message":"Answering in the terminal instead"},"hookEventName":"PermissionRequest"}}"#
    );
    let r = question_response(obj(vec![]), &"Q".to_string(), &vec!["A".to_string()], Resolution::Question(Some(1)));
    assert!(json(&r).contains(r#""behavior":"deny""#));
}

#[test]
fn requests_are_answered_oldest_first() {
    let mut q = PermissionQueue::new();
    assert!(!is_pending(&q));
    let always = AlwaysRules { cwd: "/p".to_string(), rules: vec!["Bash(x)".to_string()] };
    let (id1, card1) = q.push("Bash".to_string(), "x".to_string(), Some(always), RequestKind::Simple);
    assert!(matches!(card1, Some(PromptCard::Permission { .. })));
    let (id2, card2) = q.push(
        "AskUserQuestion".to_string(),
        String::new(),
        None,
        RequestKind::Question { question_text: "Q".to_string(), options: vec!["A".to_string()] },
    );
    assert!(card2.is_none());
    assert_eq!(id1, 1);
    assert_eq!(id2, 2);
    assert!(is_pending(&q));
    let r = resolve(&mut q, Decision::AllowAlways).unwrap();
    assert_eq!(r.id, 1);
    assert_eq!(r.persist.unwrap().rules, vec!["Bash(x)"]);
    assert!(matches!(r.next, Some(PromptCard::Question { .. })));
    let r = resolve_question(&mut q, Some(0)).unwrap();
    assert_eq!(r.id, 2);
    assert!(r.persist.is_none());
    assert!(r.next.is_none());
    assert!(resolve(&mut q, Decision::Allow).is_none());
    assert!(!is_pending(&q));
}

#[test]
fn a_timed_out_request_leaves_the_queue() {
    let mut q = PermissionQueue::new();
    let (a, _) = q.push("A".to_string(), String::new(), None, RequestKind::Simple);
    let (b, _) = q.push("B".to_string(), String::new(), None, RequestKind::Simple);
    let e = q.expire(b);
    assert!(!e.was_front && !e.close_overlay && e.next.is_none());
    let e = q.expire(a);
    assert!(e.was_front && e.close_overlay);
    assert!(!is_pending(&q));
}

#[test]
fn always_rules_merge_into_local_settings() {
    let always = AlwaysRules { cwd: "/p".to_string(), rules: vec!["Bash(x)".to_string(), "Read".to_string()] };
    let merged = merge_allow_rules(None, &always).unwrap();
    assert_eq!(json(&merged), r#"{"permissions":{"allow":["Bash(x)","Read"]}}"#);
    let again = merge_allow_rules(Some(merged), &always).unwrap();
    assert_eq!(json(&again), r#"{"permissions":{"allow":["Bash(x)","Read"]}}"#);
    let existing = obj(vec![("model", s("m")), ("permissions", obj(vec![("allow", arr(vec![s("Read"), s("Grep")])), ("deny", arr(vec![]))]))]);
    let merged = merge_allow_rules(Some(existing), &always).unwrap();
    assert_eq!(json(&merged), r#"{"model":"m","permissions":{"allow":["Read","Grep","Bash(x)"],"deny":[]}}"#);
    let bad = obj(vec![("permissions", s("x"))]);
    assert!(merge_allow_rules(Some(bad), &always).is_none());
    let none = AlwaysRules { cwd: String::new(), rules: vec!["Read".to_string()] };
    assert!(merge_allow_rules(None, &none).is_none());
}

#[test]
fn json_strings_are_escaped() {
    let v = arr(vec![s("a\"b\\c\n\u{1}é"), JsonValue::Null, JsonValue::Bool(false)]);
    assert_eq!(json(&v), "[\"a\\\"b\\\\c\\n\\u0001é\",null,false]");
}

#[test]
fn an_unreadable_or_non_json_body_is_allowed_at_once() {
    let allow = json(&allow_response());
    match classify_body(None) {
        Arrival::AnswerNow(a) => assert_eq!(json(&a), allow),
        _ => panic!("expected an immediate answer"),
    }
    match classify_body(Some(b"not json".as_slice())) {
        Arrival::AnswerNow(a) => assert_eq!(json(&a), allow),
        _ => panic!("expected an immediate answer"),
    }
}

#[test]
fn a_json_body_is_sorted_by_tool() {
    let body = br#"{"tool_name":"Bash","cwd":"/p","tool_input":{"command":"ls","description":"d"}}"#;
    match classify_body(Some(body.as_slice())) {
        Arrival::Simple { tool_name, detail, always } => {
            assert_eq!(tool_name, "Bash");
            assert_eq!(detail, "ls");
            assert!(always.is_none());
        }
        _ => panic!("expected a plain request"),
    }
    let body = br#"{"tool_name":"AskUserQuestion","tool_input":{}}"#;
    match classify_body(Some(body.as_slice())) {
        Arrival::Question(p) => assert_eq!(json(&p), r#"{"tool_input":{},"tool_name":"AskUserQuestion"}"#),
        _ => panic!("expected a question"),
    }
}

#[test]
fn always_rules_merge_into_a_settings_file() {
    let always = AlwaysRules { cwd: "/p".to_string(), rules: vec!["Read".to_string()] };
    let text = merge_allow_rules_file(None, &always).unwrap();
    assert_eq!(text, "{\n  \"permissions\": {\n    \"allow\": [\n      \"Read\"\n    ]\n  }\n}");
    let existing = br#"{"model":"m","permissions":{"allow":["Read"]}}"#;
    let text = merge_allow_rules_file(Some(existing.as_slice()), &always).unwrap();
    assert!(text.contains("\"model\": \"m\""));
    assert_eq!(text.matches("Read").count(), 1);
    let not_text = [0xffu8, 0xfe];
    let text = merge_allow_rules_file(Some(not_text.as_slice()), &always).unwrap();
    assert!(text.contains("\"Read\""));
    assert!(merge_allow_rules_file(Some(br#"{"permissions":3}"#.as_slice()), &always).is_none());
}
