use work_ledger::completion::completion_attempt;
use work_ledger::control::access_failure;
use work_ledger::control::control_access;
use work_ledger::control::parallelism;
use work_ledger::control::parallelism_failure;
use work_ledger::control::tasks_read_failure;
use work_ledger::control::ControlError;
use work_ledger::directory::FailureKind;
use work_ledger::extension::capacity_root;
use work_ledger::extension::execution_record;
use work_ledger::extension::record_execution;
use work_ledger::extension::set_capacity_root;
use work_ledger::extension::thread_tasks;
use work_ledger::extension::IdleCause;
use work_ledger::extension::SessionSource;
use work_ledger::extension::StartEvent;
use work_ledger::extension::StartWork;
use work_ledger::extension::TasksExtensionConfig;
use work_ledger::extension::ThreadStart;
use work_ledger::json::read_json;
use work_ledger::json::Json;
use work_ledger::ledger::batch::Entry;
use work_ledger::ledger::model::Execution;
use work_ledger::ledger::model::Ledger;
use work_ledger::ledger::model::Status;
use work_ledger::ledger::model::Task;
use work_ledger::ledger::render::CONTEXT_BYTES;
use work_ledger::presentation::open_tasks;
use work_ledger::presentation::plan;
use work_ledger::presentation::Plan;
use work_ledger::presentation::PlanStep;
use work_ledger::presentation::StepStatus;
use work_ledger::storage::ledger_dir;
use work_ledger::storage::now_ms;
use work_ledger::storage::unix_ms;
use work_ledger::storage::AccessEvent;
use work_ledger::storage::AccessWork;
use work_ledger::storage::LedgerAccess;
use work_ledger::tool::recall::recall;
use work_ledger::tool::recall::RecallStep;
use work_ledger::tool::request::handle;
use work_ledger::tool::request::Request;
use work_ledger::tool::request::FALLBACK_TOKEN_LIMIT;
use work_ledger::tool::write::feedback;
use work_ledger::world_state::is_retained;
use work_ledger::world_state::is_stale;
use work_ledger::world_state::world_state;

const FILE: &str = "/home/tasks/thread/ledger.json";

/// One session's ledger, with the tool in front of it as a host would put it there.
struct Tool {
    ledger: Ledger,
    parent: Option<Ledger>,
}

impl Tool {
    fn new() -> Tool {
        Tool { ledger: Ledger::default(), parent: None }
    }

    fn call(&mut self, arguments: &str) -> (String, Option<Plan>) {
        match handle(arguments).unwrap() {
            Request::Reply(text) => (text, None),
            Request::Recall { references, page } => {
                let spawned = self.parent.is_some();
                let mut step = recall(&self.ledger, FILE, spawned, None, &references, page);
                if step == RecallStep::ReadParent {
                    step = recall(
                        &self.ledger,
                        FILE,
                        spawned,
                        self.parent.as_ref(),
                        &references,
                        page,
                    );
                }
                match step {
                    RecallStep::Reply(text) => (text, None),
                    RecallStep::ReadParent => panic!("the parent was read"),
                }
            },
            Request::Write { entries, pausing, pause } => {
                let mut next = self.ledger.clone();
                let spawned = self.parent.is_some();
                let (written, changed) =
                    work_ledger::tool::write::write(&mut next, spawned, &entries, pausing, &pause, 1).unwrap();
                if changed {
                    self.ledger = next;
                }
                let parent = if written.attempted_unknown.is_empty() {
                    None
                } else {
                    self.parent.as_ref()
                };
                (feedback(&written, parent), written.plan_update)
            },
        }
    }
}

fn task(id: &str, title: &str, status: Status) -> Task {
    Task {
        id: id.to_owned(),
        title: title.to_owned(),
        status,
        after: Vec::new(),
        cancelled: None,
        waiting: None,
        owner: None,
        body: String::new(),
        findings: Vec::new(),
        created: 0,
        updated: 0,
    }
}

#[test]
fn activation_delivers_current_body_and_every_full_note_without_repeating_on_updates() {
    let mut tool = Tool::new();
    let (_, update) =
        tool.call(r#"{"tasks": [{"title": "Publish the index", "body": "Old context"}]}"#);
    assert!(update.is_some());
    for n in 0..6 {
        let note = format!(
            "Evidence {n}: {} decisive tail {n}",
            "complete evidence ".repeat(20)
        );
        let (_, update) =
            tool.call(&format!(r#"{{"tasks": [{{"id": "1", "note": "{note}"}}]}}"#));
        assert_eq!(update, None);
    }
    let (output, _) = tool.call(
        r#"{"tasks": [{
            "id": "1", "status": "active", "body": "Reconciled publication contract",
            "note": "Activation decision"
        }]}"#,
    );
    assert!(
        output.contains("Reconciled publication contract"),
        "{output}"
    );
    assert!(output.contains("Activation decision"), "{output}");
    for n in 0..6 {
        assert!(
            output.contains(&format!(
                "Evidence {n}: {} decisive tail {n}",
                "complete evidence ".repeat(20)
            )),
            "{output}"
        );
    }
    assert!(!output.contains("Old context"), "{output}");
    let (output, update) = tool.call(r#"{"recall": ["1"]}"#);
    assert_eq!(update, None);
    for n in 0..6 {
        assert!(output.contains(&format!("Evidence {n}")), "{output}");
    }
    assert!(output.contains("Activation decision"), "{output}");
    assert!(
        output.contains("Reconciled publication contract"),
        "{output}"
    );

    tool.call(r#"{"pause": "User requested a stop"}"#);
    tool.call(r#"{"recall": ["1"]}"#);
    assert_eq!(
        tool.ledger.pause.as_deref(),
        Some("User requested a stop")
    );
    let (feedback, _) = tool.call(r#"{"tasks": [{"id": "1", "note": "Work resumed"}]}"#);
    assert!(
        !feedback.contains("Reconciled publication contract"),
        "{feedback}"
    );
    assert_eq!(tool.ledger.pause, None);
}

#[test]
fn activation_and_parent_recall_page_every_byte_of_oversized_merged_notes() {
    let mut tool = Tool::new();
    let large_note = format!("{} decisive tail", "Evidence 🧭 ".repeat(4_000));
    tool.call(&format!(
        r#"{{"tasks": [
            {{"title": "Reconcile the evidence", "body": "Read the entire record first."}},
            {{"title": "Merged investigation", "note": "{large_note}"}}
        ]}}"#
    ));
    let (activation, _) = tool.call(
        r#"{"tasks": [{
            "id": "1", "status": "active", "merge": ["2"], "note": "Final conclusion"
        }]}"#,
    );
    assert!(activation.contains("Evidence 🧭"), "{activation}");
    assert!(
        activation.contains("Read every remaining page before working"),
        "{activation}"
    );
    tool.call(r#"{"pause": "Waiting on external review"}"#);
    let mut child = Tool { ledger: Ledger::default(), parent: Some(tool.ledger.clone()) };
    for reference in ["1", "parent:1"] {
        let mut collected = String::new();
        for page in 1.. {
            let arguments = format!(r#"{{"recall": ["{reference}"], "page": {page}}}"#);
            let (message, update) = if reference == "1" {
                tool.call(&arguments)
            } else {
                child.call(&arguments)
            };
            assert_eq!(update, None);
            assert!(message.len() <= CONTEXT_BYTES);
            assert_eq!(FALLBACK_TOKEN_LIMIT, 8_000);
            let (_, content) = message.split_once(":\n\n").unwrap();
            if let Some((content, _)) = content.split_once("\n\nRead every remaining page") {
                collected.push_str(content);
            } else {
                collected.push_str(content);
                break;
            }
        }
        assert!(collected.contains(&large_note));
        assert!(collected.contains("from 2 Merged investigation"));
        assert!(collected.contains("Final conclusion"));
        assert!(collected.contains("Read the entire record first."));
    }
    assert_eq!(
        tool.ledger.pause.as_deref(),
        Some("Waiting on external review")
    );
    let stored = tool.ledger.clone();
    assert_eq!(stored.tasks[0].findings[0].text, large_note);
    let (first, _) = tool.call(r#"{"recall": ["1"]}"#);
    let activation_details = activation.split_once("Starting tasks. ").unwrap().1;
    assert_eq!(activation_details, first);
    for input in [
        r#"{"page": 2}"#,
        r#"{"recall": ["1"], "page": 0}"#,
        r#"{"recall": ["1"], "page": "2"}"#,
        r#"{"recall": ["1"], "page": 2, "tasks": [{"id": "1", "status": "done"}]}"#,
    ] {
        tool.call(input);
        assert_eq!(tool.ledger, stored);
    }
    let (missing_page, _) = tool.call(r#"{"recall": ["1"], "page": 1000000}"#);
    assert!(missing_page.contains("request a page from 1 to"));
}

#[test]
fn completion_obeys_feature_capacity_pause_external_wait_and_child_return() {
    for child in [false, true] {
        let mut root = Ledger::default();
        let mut ledger = Ledger::default();
        ledger
            .tasks
            .push(task("1", "Finish the implementation", Status::Active));
        let mut told = false;
        let mut attempt = |enabled: bool, ledger: &Ledger| {
            let (reason, now_told) = completion_attempt(enabled, ledger, child, told);
            told = now_told;
            reason
        };
        assert_eq!(ledger.parallelism, 0);
        assert_eq!(attempt(true, &ledger), None);
        parallelism(&mut root, Some(4));
        if child {
            ledger.follow(&root);
        } else {
            parallelism(&mut ledger, Some(4));
        }
        assert_eq!(attempt(false, &ledger), None);
        ledger.pause = Some("User pause".to_owned());
        assert_eq!(attempt(true, &ledger), None);
        ledger.pause = None;
        ledger.tasks[0].waiting = Some("External review".to_owned());
        assert_eq!(attempt(true, &ledger), None);
        ledger.tasks[0].waiting = None;
        if !child {
            ledger.tasks[0].owner = Some("/root/worker".to_owned());
            ledger.executions.insert(
                "/root/worker".to_owned(),
                Execution {
                    thread_id: "worker".to_owned(),
                    running: true,
                    outcome: None,
                    updated: 0,
                },
            );
            assert!(attempt(true, &ledger).unwrap().contains("wait_agent"));
            ledger.executions.insert(
                "/root/worker".to_owned(),
                Execution {
                    thread_id: "worker".to_owned(),
                    running: false,
                    outcome: None,
                    updated: 0,
                },
            );
            assert!(attempt(true, &ledger)
                .unwrap()
                .contains("review and integration"));
        }
        assert!(attempt(true, &ledger).is_some());
        assert_eq!(attempt(true, &ledger).is_some(), !child);
        assert_eq!(parallelism(&mut ledger, None).0, if child { 1 } else { 4 });
        parallelism(&mut root, Some(0));
        if child {
            ledger.follow(&root);
        } else {
            parallelism(&mut ledger, Some(0));
        }
        assert_eq!(parallelism(&mut ledger, None).0, 0);
        assert_eq!(attempt(true, &ledger), None);
    }
}

#[test]
fn root_capacity_reaches_existing_children_and_grandchildren_without_restarting() {
    let ids = ["root", "child", "grandchild"];
    let mut ledgers = [Ledger::default(), Ledger::default(), Ledger::default()];
    for index in 1..3 {
        let root = capacity_root(&ledgers[index - 1], ids[index - 1]);
        assert_eq!(root, "root");
        assert!(set_capacity_root(&mut ledgers[index], &root));
        assert!(!set_capacity_root(&mut ledgers[index], &root));
    }
    for capacity in [0, 4, 2, 0] {
        parallelism(&mut ledgers[0], Some(capacity));
        let root = ledgers[0].clone();
        for (index, ledger) in ledgers.iter_mut().enumerate() {
            if ledger.capacity_root.is_some() {
                ledger.follow(&root);
            }
            let expected = if index == 0 {
                capacity
            } else {
                usize::from(capacity != 0)
            };
            assert_eq!(parallelism(ledger, None).0, expected);
        }
    }
    assert_eq!(
        control_access(true, true, true),
        Err(ControlError::NotRoot)
    );
    assert_eq!(
        access_failure(ControlError::NotRoot).kind,
        FailureKind::InvalidRequest
    );
}

#[test]
fn lowering_capacity_preserves_active_work_and_pause_but_rejects_new_work() {
    let mut ledger = Ledger::default();
    let entries = ["First outcome", "Second outcome"].map(|title| Entry {
        title: Some(title.to_string()),
        status: Some("active".to_string()),
        ..Default::default()
    });
    assert!(ledger.upsert(&entries, 1000).errors.is_empty());
    ledger.pause = Some("User requested a pause".to_string());
    let mut expected = ledger.clone();
    assert_eq!(parallelism(&mut ledger, Some(1)), (1, true));
    expected.parallelism = 1;
    assert_eq!(ledger, expected);
    let applied = ledger.upsert(
        &[Entry {
            title: Some("Third outcome".to_string()),
            status: Some("active".to_string()),
            ..Default::default()
        }],
        2000,
    );
    assert!(!applied.errors.is_empty());
    assert_eq!(ledger, expected);
}

#[test]
fn default_plan_shows_the_first_eight_of_nine_active_outcomes() {
    let mut tool = Tool::new();
    let tasks: Vec<String> = (1..=9)
        .map(|id| format!(r#"{{"title": "Outcome {id}", "status": "active"}}"#))
        .collect();
    let (reply, update) = tool.call(&format!(r#"{{"tasks": [{}]}}"#, tasks.join(",")));
    assert!(reply.contains("9 active"), "{reply}");
    assert_eq!(
        update,
        Some(Plan {
            explanation: "9 active · 0 ready".to_string(),
            plan: (1..=8)
                .map(|id| PlanStep {
                    step: format!("#{id} Outcome {id}"),
                    status: StepStatus::InProgress,
                })
                .collect(),
        })
    );
    assert_eq!(plan(&tool.ledger), update.unwrap());
}

#[test]
fn changed_capacity_controls_admission() {
    let arguments = r#"{"tasks": [
        {"title": "First outcome", "status": "active"},
        {"title": "Second outcome", "status": "active"}
    ]}"#;
    let mut tool = Tool::new();
    parallelism(&mut tool.ledger, Some(1));
    assert!(world_state(true, &tool.ledger, true, FILE)
        .unwrap()
        .contains("Task parallelism: 1 independent active outcomes."));
    let (rejected, _) = tool.call(arguments);
    assert!(rejected.contains("task slots are already busy"), "{rejected}");
    assert!(tool.ledger.tasks.is_empty());
    parallelism(&mut tool.ledger, Some(0));
    assert!(world_state(true, &tool.ledger, true, FILE)
        .unwrap()
        .contains("Task parallelism: off."));
    let (accepted, _) = tool.call(arguments);
    assert!(accepted.contains("2 active"), "{accepted}");
}

#[test]
fn a_child_is_pointed_at_its_parents_tasks() {
    let mut parent = Tool::new();
    parent.call(r#"{"tasks": [{"title": "Parent outcome", "body": "Only the parent writes this."}]}"#);
    let mut child = Tool { ledger: Ledger::default(), parent: Some(parent.ledger.clone()) };
    let (refused, _) = child.call(r#"{"tasks": [{"id": "1", "status": "done"}]}"#);
    assert!(refused.contains("is in the parent ledger"), "{refused}");
    assert!(refused.contains("No task entry changed because this batch is transactional."));
    let (record, _) = child.call(r#"{"recall": ["parent:Parent outcome"]}"#);
    assert!(record.contains("Only the parent writes this."), "{record}");
    let (blank, _) = child.call(r#"{"recall": ["parent:"]}"#);
    assert_eq!(
        blank,
        "Parent recall requires a task id or title; it never reads the whole parent ledger."
    );
    let (orphan, _) = parent.call(r#"{"recall": ["parent:1"]}"#);
    assert_eq!(orphan, "This thread has no parent ledger to recall.");
    assert_eq!(child.ledger, Ledger::default());
}

#[test]
fn pausing_without_unfinished_work_is_refused() {
    let mut tool = Tool::new();
    let (reply, _) = tool.call(r#"{"pause": "Nothing to do"}"#);
    assert!(
        reply.contains("No unfinished work to pause. Record the remaining tasks first."),
        "{reply}"
    );
    assert_eq!(tool.ledger, Ledger::default());
    tool.call(r#"{"tasks": [{"title": "Work"}]}"#);
    let (paused, _) = tool.call(r#"{"pause": "User asked"}"#);
    assert!(paused.contains("Paused: User asked"), "{paused}");
    let (resumed, _) = tool.call(r#"{"pause": null}"#);
    assert!(resumed.contains("Resumed."), "{resumed}");
    assert_eq!(tool.ledger.pause, None);
}

#[test]
fn json_is_read_or_refused() {
    assert_eq!(
        read_json(r#"{"b": [1, null, -2, 0.5], "a": "x"}"#),
        Ok(Json::Object(vec![
            ("a".to_string(), Json::Text("x".to_string())),
            (
                "b".to_string(),
                Json::List(vec![
                    Json::Number(Some(1), "1".to_string()),
                    Json::Null,
                    Json::Number(None, "-2".to_string()),
                    Json::Number(None, "0.5".to_string()),
                ])
            ),
        ]))
    );
    assert!(read_json("{").is_err());
    assert!(handle("not json").is_err());
    assert_eq!(read_json("true"), Ok(Json::Bool(true)));
    let object = read_json(r#"{"k": "v"}"#).unwrap();
    assert_eq!(object.get("k"), Some(&Json::Text("v".to_string())));
    assert_eq!(object.get("missing"), None);
}

#[test]
fn open_tasks_show_capacity_and_escape_markdown() {
    let mut ledger = Ledger::default();
    assert_eq!(
        open_tasks(&ledger),
        "**Parallelism:** off\n\nNo unfinished tasks."
    );
    ledger.parallelism = 2;
    ledger
        .tasks
        .push(task("1", "Audit *old* records", Status::Active));
    let text = open_tasks(&ledger);
    assert!(text.contains("Audit \\*old\\* records"), "{text}");
}

#[test]
fn threads_keep_ledgers_unless_they_are_internal() {
    assert_eq!(ledger_dir("/home", "t1"), "/home/tasks/t1");
    assert_eq!(thread_tasks(&SessionSource::Internal, "/home", "t1"), None);
    let root = thread_tasks(&SessionSource::Root, "/home", "t1").unwrap();
    assert_eq!(root.parent_dir, None);
    assert!(execution_record(&root, true, None, 5).is_none());
    let source = SessionSource::Spawned {
        parent_thread_id: "t1".to_string(),
        agent_path: Some("/root/worker".to_string()),
    };
    let worker = thread_tasks(&source, "/home", "t2").unwrap();
    assert_eq!(worker.dir, "/home/tasks/t2");
    assert_eq!(worker.parent_dir.as_deref(), Some("/home/tasks/t1"));
    assert!(execution_record(&worker, false, None, 5).is_none());
    let record = execution_record(&worker, true, Some(IdleCause::Failed), 5).unwrap();
    assert_eq!(record.dir, "/home/tasks/t1");
    assert_eq!(record.execution.outcome.as_deref(), Some("failed"));
    let mut parent = Ledger::default();
    assert!(record_execution(&mut parent, &record.owner, record.execution));
    let again = execution_record(&worker, true, Some(IdleCause::Failed), 9).unwrap();
    assert!(!record_execution(&mut parent, &again.owner, again.execution));
    assert_eq!(parent.executions.get("/root/worker").unwrap().updated, 5);
    let config = TasksExtensionConfig::default();
    assert!(config.enabled && config.codex_home.is_empty());
}

#[test]
fn the_section_is_shown_once_per_change() {
    let ledger = Ledger::default();
    assert_eq!(world_state(false, &ledger, true, FILE), None);
    assert_eq!(world_state(true, &ledger, false, FILE), None);
    let body = world_state(true, &ledger, true, FILE).unwrap();
    assert!(body.contains(FILE));
    assert!(is_stale(&body, None));
    assert!(is_stale(&body, Some("another body")));
    assert!(!is_stale(&body, Some(&body)));
    let kept = format!("<task-ledger>{body}</task-ledger>");
    assert!(is_retained("developer", &kept, &body));
    assert!(!is_retained("user", &kept, &body));
    assert!(!is_retained("developer", "something else", &body));
}

#[test]
fn failures_to_read_the_ledger_say_so() {
    assert_eq!(control_access(true, false, true), Ok(()));
    assert_eq!(control_access(true, true, false), Ok(()));
    assert_eq!(
        control_access(false, true, true),
        Err(ControlError::Unavailable)
    );
    let failure = tasks_read_failure("disk full");
    assert_eq!(failure.kind, FailureKind::Internal);
    assert_eq!(failure.message, "could not read task ledger: disk full");
    assert_eq!(
        parallelism_failure("disk full").message,
        "could not access task parallelism: disk full"
    );
    assert_eq!(
        access_failure(ControlError::Unavailable).message,
        "could not access task parallelism: The task ledger is unavailable for this session."
    );
}

#[test]
fn the_clock_is_read_in_milliseconds() {
    assert!(now_ms() > 1_577_836_800_000);
    assert_eq!(unix_ms(None), 0);
    assert_eq!(unix_ms(Some(12)), 12);
    assert_eq!(unix_ms(Some(u128::MAX)), i64::MAX);
}

#[test]
fn a_spawned_thread_follows_the_root_of_its_parent() {
    let source = SessionSource::Spawned {
        parent_thread_id: "child".to_string(),
        agent_path: Some("/root/worker".to_string()),
    };
    let parent = || Ledger { capacity_root: Some("root".to_string()), ..Ledger::default() };
    let rooted = ThreadStart::start(&source, true).next(StartEvent::Parent(parent()));
    assert_eq!(rooted.doing, StartWork::SetRoot);
    assert_eq!(rooted.root.as_deref(), Some("root"));
    let recording = rooted.next(StartEvent::Failed);
    assert_eq!(recording.doing, StartWork::Record);
    assert_eq!(recording.next(StartEvent::Done).doing, StartWork::Finish);
    let direct = ThreadStart::start(&source, true).next(StartEvent::Parent(Ledger::default()));
    assert_eq!(direct.root.as_deref(), Some("child"));
    let orphan = ThreadStart::start(&source, true).next(StartEvent::Failed);
    assert_eq!(orphan.doing, StartWork::Finish);
    assert_eq!(ThreadStart::start(&source, false).doing, StartWork::Finish);
    assert_eq!(ThreadStart::start(&SessionSource::Root, true).doing, StartWork::Record);
    assert_eq!(ThreadStart::start(&SessionSource::Internal, true).doing, StartWork::Finish);
}

#[test]
fn an_unchanged_ledger_is_not_written() {
    let read = LedgerAccess::start(false).next(AccessEvent::Missing);
    assert_eq!(read.doing, AccessWork::Finish);
    assert_eq!(read.ledger, Some(Ledger::default()));
    let change = |changed: bool| {
        LedgerAccess::start(true)
            .next(AccessEvent::Document(Ledger::default()))
            .next(AccessEvent::Changed { ledger: Ledger::default(), changed })
    };
    assert_eq!(change(false).doing, AccessWork::Finish);
    assert_eq!(change(true).doing, AccessWork::Write);
    assert_eq!(change(true).next(AccessEvent::Done).failure, None);
    let failed = change(true).next(AccessEvent::Failed("disk full".to_string()));
    assert_eq!(failed.doing, AccessWork::Finish);
    assert_eq!(failed.failure.as_deref(), Some("disk full"));
}

#[test]
fn a_follower_is_read_with_the_capacity_of_its_root() {
    let own = || Ledger { capacity_root: Some("root".to_string()), ..Ledger::default() };
    for (capacity, expected) in [(0, 0), (1, 1), (4, 1)] {
        let root = Ledger { parallelism: capacity, ..Ledger::default() };
        let reading = LedgerAccess::start(false).next(AccessEvent::Document(own()));
        assert_eq!(reading.doing, AccessWork::ReadRoot);
        let read = reading.next(AccessEvent::Document(root));
        assert_eq!(read.doing, AccessWork::Finish);
        assert_eq!(read.ledger.unwrap().parallelism, expected);
    }
}

#[test]
fn feedback_that_starts_tasks_stays_within_the_budget() {
    let mut tool = Tool::new();
    let title = "é".repeat(80);
    let body = "🧭".repeat(9_000);
    let unknown: Vec<String> =
        (0..60).map(|n| format!(r#"{{"title": "{n} {}"}}"#, "x".repeat(70))).collect();
    tool.call(&format!(r#"{{"tasks": [{}]}}"#, unknown.join(",")));
    let (feedback, _) = tool.call(&format!(
        r#"{{"tasks": [{{"title": "{title}", "body": "{body}", "status": "active"}}],
            "pause": "{}"}}"#,
        "p".repeat(4_000)
    ));
    assert!(feedback.contains("Starting tasks. Task details page 1/2"), "{feedback}");
    assert!(feedback.contains("Write summary shortened"), "{feedback}");
    assert!(feedback.len() <= CONTEXT_BYTES, "{}", feedback.len());
    assert!(feedback.len() > CONTEXT_BYTES - 1_024);
}
