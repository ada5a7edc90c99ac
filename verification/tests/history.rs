use work_ledger::history::account_envelopes;
use work_ledger::history::AccountScope;
use work_ledger::history::ContentItem;
use work_ledger::history::ResponseItem;
use work_ledger::history::ResponseItemEnvelope;
use work_ledger::history::ToolOutput;
use work_ledger::history_notes::is_sealed_path;
use work_ledger::history_notes::with_context;
use work_ledger::history_notes::NotesCall;
use work_ledger::history_notes::NotesEvent;
use work_ledger::history_notes::NotesRequest;
use work_ledger::history_notes::NotesWork;

fn account(name: &str) -> AccountScope {
    AccountScope {
        local_account_id: Some(name.to_string()),
        account_id: "workspace".to_string(),
        user_id: Some(format!("user-{name}")),
    }
}

fn text(value: &str) -> ContentItem {
    ContentItem::InputText { text: value.to_string(), rest: "{}".to_string() }
}

fn sealed() -> ContentItem {
    ContentItem::EncryptedContent {
        encrypted_content: "secret-a".to_string(),
        rest: "{}".to_string(),
    }
}

fn image() -> ContentItem {
    ContentItem::InputImage {
        image_url: "image".to_string(),
        rest: r#"{"detail":"high"}"#.to_string(),
    }
}

fn compaction() -> ResponseItem {
    ResponseItem::Compaction { encrypted_content: "secret-a".to_string(), rest: String::new() }
}

fn call(sealed: Option<Vec<String>>) -> ResponseItem {
    ResponseItem::FunctionCall {
        name: "read".to_string(),
        arguments: "{}".to_string(),
        call_id: "call-1".to_string(),
        encrypted_function_args: sealed,
        rest: r#"{"id":"item-1"}"#.to_string(),
    }
}

fn output(content: Vec<ContentItem>) -> ResponseItem {
    ResponseItem::FunctionCallOutput {
        call_id: "call-1".to_string(),
        output: ToolOutput::Items(content),
        rest: r#"{"success":true}"#.to_string(),
    }
}

fn custom_output(content: Vec<ContentItem>) -> ResponseItem {
    ResponseItem::CustomToolCallOutput {
        call_id: "call-2".to_string(),
        output: ToolOutput::Items(content),
        rest: r#"{"success":true}"#.to_string(),
    }
}

fn message(content: Vec<ContentItem>) -> ResponseItem {
    ResponseItem::AgentMessage {
        author: "worker".to_string(),
        recipient: "root".to_string(),
        content,
        rest: r#"{"id":"item-2"}"#.to_string(),
    }
}

#[test]
fn account_projection_keeps_owned_state_and_removes_unknown_or_foreign_ciphertext() {
    let a = account("a");
    let b = account("b");
    for (item, expected) in [
        (
            ResponseItem::Reasoning {
                summary: Vec::new(),
                encrypted_content: Some("secret-a".to_string()),
                rest: String::new(),
            },
            None,
        ),
        (
            compaction(),
            None,
        ),
        (
            ResponseItem::ContextCompaction {
                encrypted_content: Some("secret-a".to_string()),
                rest: String::new(),
            },
            None,
        ),
        (call(Some(vec!["secret-a".to_string()])), Some(call(None))),
        (
            output(vec![text("public result"), sealed()]),
            Some(output(vec![text("public result")])),
        ),
        (custom_output(vec![sealed()]), Some(custom_output(Vec::new()))),
        (
            message(vec![text("public finding"), sealed()]),
            Some(message(vec![text("public finding")])),
        ),
        (message(vec![sealed()]), None),
    ] {
        let owned = ResponseItemEnvelope {
            item: item.copy(),
            account_scope: Some(a.copy()),
        };
        assert_eq!(owned.for_account(Some(&a)), Some(item.copy()));
        assert_eq!(owned.for_account(Some(&b)), expected);
        assert_eq!(owned.for_account(None), expected);
        assert_eq!(
            ResponseItemEnvelope::new(item).for_account(Some(&a)),
            expected
        );
    }
}

#[test]
fn readable_state_is_kept_for_every_account() {
    for item in [
        ResponseItem::Plain("a user's message".to_string()),
        message(vec![text("finding"), image()]),
        ResponseItem::FunctionCallOutput {
            call_id: "call-1".to_string(),
            output: ToolOutput::Text("plain output".to_string()),
            rest: r#"{"success":false}"#.to_string(),
        },
        ResponseItem::Reasoning {
            summary: vec!["thought".to_string()],
            encrypted_content: None,
            rest: r#"{"id":"item-3"}"#.to_string(),
        },
        call(None),
    ] {
        let envelope = ResponseItemEnvelope::new(item.copy());
        assert_eq!(envelope.for_account(None), Some(item.copy()));
        let again = ResponseItemEnvelope::new(item.copy());
        assert_eq!(again.for_account(Some(&account("b"))), Some(item));
    }
}

#[test]
fn a_foreign_piece_keeps_all_but_what_is_encrypted() {
    let audio = || ContentItem::Other(r#"{"type":"audio"}"#.to_string());
    for (item, expected) in [
        (
            output(vec![image(), sealed(), audio()]),
            output(vec![image(), audio()]),
        ),
        (message(vec![sealed(), image()]), message(vec![image()])),
        (call(Some(Vec::new())), call(None)),
    ] {
        let envelope =
            ResponseItemEnvelope { item, account_scope: Some(account("a")) };
        assert_eq!(envelope.for_account(Some(&account("b"))), Some(expected));
    }
}

#[test]
fn an_account_that_is_unknown_in_part_is_another_one() {
    let owner = account("a");
    let mut reader = account("a");
    reader.user_id = None;
    let owned = ResponseItemEnvelope {
        item: compaction(),
        account_scope: Some(owner.copy()),
    };
    assert!(owner.same_as(&owner.copy()));
    assert!(!owner.same_as(&reader));
    assert_eq!(owned.for_account(Some(&reader)), None);
}

#[test]
fn new_pieces_belong_to_the_account_they_came_from() {
    let items = vec![
        compaction(),
        ResponseItem::Plain("text".to_string()),
    ];
    let envelopes = account_envelopes(items, Some(&account("a")));
    assert_eq!(envelopes.len(), 2);
    assert_eq!(envelopes[0].account_scope, Some(account("a")));
    assert!(envelopes[0].for_account(Some(&account("a"))).is_some());
    assert!(envelopes[0].for_account(Some(&account("b"))).is_none());
    let unowned = account_envelopes(vec![ResponseItem::Plain("text".to_string())], None);
    assert_eq!(unowned[0].account_scope, None);
}

fn json(text: &str) -> serde_json::Value {
    serde_json::from_str(text).unwrap()
}

#[test]
fn context_replaces_whatever_the_arguments_claim() {
    let body = with_context(
        json(r#"{"query": "q", "context": {"session_id": "forged"}}"#),
        "session",
        "/root",
    );
    assert_eq!(
        body.unwrap(),
        json(
            r#"{"query": "q", "context": {"session_id": "session", "current_agent_name": "/root"}}"#
        )
    );
    assert_eq!(
        with_context(json("[1]"), "session", "/root").unwrap_err(),
        "History tool arguments must be a JSON object"
    );
}

fn request(path: &str, originating_account: Option<AccountScope>) -> NotesRequest {
    NotesRequest { path: path.to_string(), originating_account }
}

#[test]
fn sealed_arguments_are_sent_only_for_their_account() {
    let path = "alpha/notes/v2/write_file";
    assert!(is_sealed_path(path));
    let foreign = request(path, Some(account("a")));
    let call = NotesCall::start(json("{}"), "session", "/root")
        .next(&foreign, NotesEvent::Account(Some(account("b"))))
        .next(&foreign, NotesEvent::Policy("tokens".to_string()));
    assert_eq!(call.doing, NotesWork::Reply);
    assert_eq!(
        call.failure.as_deref(),
        Some("Unable to perform operation: Encrypted arguments belong to a different or unknown account.")
    );
    let own = request(path, Some(account("a")));
    let call = NotesCall::start(json("{}"), "session", "/root")
        .next(&own, NotesEvent::Account(Some(account("a"))))
        .next(&own, NotesEvent::Policy("tokens".to_string()));
    assert_eq!(call.doing, NotesWork::ApplyAuth);
    assert_eq!(
        call.headers(),
        vec![
            ("x-openai-tool-output-truncation-policy".to_string(), "tokens".to_string()),
            ("x-openai-encrypted-tool-arguments".to_string(), "true".to_string()),
        ]
    );
    let unknown = request(path, None);
    let call = NotesCall::start(json("{}"), "session", "/root")
        .next(&unknown, NotesEvent::Account(None))
        .next(&unknown, NotesEvent::Policy("tokens".to_string()));
    assert_eq!(call.doing, NotesWork::Reply);
}

#[test]
fn a_plain_call_runs_to_its_reply() {
    let open = request("alpha/notes/v2/read_file", None);
    assert!(!is_sealed_path(&open.path));
    let call = NotesCall::start(json(r#"{"path": "notes"}"#), "session", "/root")
        .next(&open, NotesEvent::Account(None))
        .next(&open, NotesEvent::Policy("bytes".to_string()))
        .next(&open, NotesEvent::Done);
    assert_eq!(call.doing, NotesWork::Execute);
    assert_eq!(call.headers().len(), 1);
    let ended = call.next(&open, NotesEvent::Body(br#"{"ok": [1]}"#.to_vec()));
    assert_eq!(ended.response, Some(json(r#"{"ok": [1]}"#)));
    assert_eq!(ended.failure, None);
}

#[test]
fn every_step_of_a_call_can_fail() {
    let open = request("alpha/notes/v2/read_file", None);
    let start = || NotesCall::start(json("{}"), "session", "/root");
    let failure = |call: NotesCall| call.failure.unwrap();
    assert_eq!(
        failure(NotesCall::start(json("1"), "session", "/root")),
        "History tool arguments must be a JSON object"
    );
    assert_eq!(
        failure(start().next(&open, NotesEvent::Failed)),
        "Unable to perform operation: Could not resolve backend authentication."
    );
    let resolved = || start().next(&open, NotesEvent::Account(None));
    assert_eq!(
        failure(resolved().next(&open, NotesEvent::Failed)),
        "Unable to perform operation: Could not encode the output truncation policy."
    );
    for refused in ["two\nlines", "delete\u{7f}", "\u{0}"] {
        assert_eq!(
            failure(resolved().next(&open, NotesEvent::Policy(refused.to_string()))),
            "Unable to perform operation: Could not construct the output truncation policy header."
        );
    }
    let encoded = || resolved().next(&open, NotesEvent::Policy("tab\tand é".to_string()));
    assert_eq!(encoded().doing, NotesWork::ApplyAuth);
    assert_eq!(
        failure(encoded().next(&open, NotesEvent::Failed)),
        "Unable to perform operation: Could not apply backend authentication."
    );
    let sent = || encoded().next(&open, NotesEvent::Done);
    assert_eq!(
        failure(sent().next(&open, NotesEvent::Failed)),
        "Unable to perform operation: The backend request failed."
    );
    assert_eq!(
        failure(sent().next(&open, NotesEvent::Body(b"{".to_vec()))),
        "Unable to perform operation: The backend returned invalid JSON."
    );
}
