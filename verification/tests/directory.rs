use work_ledger::directory::is_any_busy;
use work_ledger::directory::permission;
use work_ledger::directory::retarget;
use work_ledger::directory::AgentActivity;
use work_ledger::directory::Destination;
use work_ledger::directory::DirectoryChange;
use work_ledger::directory::Event;
use work_ledger::directory::Failure;
use work_ledger::directory::FailureKind;
use work_ledger::directory::Permission;
use work_ledger::directory::RuntimeConfig;
use work_ledger::directory::StopEvent;
use work_ledger::directory::StopWork;
use work_ledger::directory::ThreadFacts;
use work_ledger::directory::ThreadStop;
use work_ledger::directory::Work;

const FACTS: ThreadFacts = ThreadFacts {
    environments: 1,
    ephemeral: false,
    has_parent: false,
    local: true,
    from_thread: true,
};

fn failure(message: &str) -> Failure {
    Failure { kind: FailureKind::Other(-32000), message: message.to_string() }
}

fn failed(message: &str) -> Event {
    Event::Failed(failure(message))
}

/// The event with which a step goes well.
fn well(doing: Work) -> Event {
    match doing {
        Work::TestDirectory => Event::Directory { exists: true, shown: "/new".to_string() },
        Work::ReadThread => Event::Thread(FACTS),
        Work::LoadConfig => Event::Config { trusted: true },
        Work::LoadCurrent => Event::Current { same_thread: true, same_directory: true },
        Work::ListAgents => Event::Agents(Vec::new()),
        Work::FindReplacement => Event::Replacement(true),
        _ => Event::Done,
    }
}

/// A change on which all went well up to a step.
fn at(doing: Work) -> DirectoryChange {
    let mut change = DirectoryChange::start();
    while change.doing != doing {
        let event = well(change.doing);
        change = change.next(event);
    }
    change
}

fn refusal(doing: Work, event: Event) -> (FailureKind, String) {
    let change = at(doing).next(event);
    assert_eq!(change.doing, Work::Reply);
    let failure = change.failure.unwrap();
    (failure.kind, failure.message)
}

#[test]
fn a_change_takes_its_steps_in_order() {
    let mut change = DirectoryChange::start();
    let mut steps = Vec::new();
    while change.doing != Work::Reply {
        steps.push(change.doing);
        let event = well(change.doing);
        change = change.next(event);
    }
    assert_eq!(change.failure, None);
    assert_eq!(
        steps,
        [
            Work::ParsePath,
            Work::TestDirectory,
            Work::LoadThread,
            Work::CheckInput,
            Work::ReadThread,
            Work::ParsePrevious,
            Work::LoadConfig,
            Work::AcquirePermit,
            Work::LoadCurrent,
            Work::ListAgents,
            Work::Preview,
            Work::ApplySettings,
            Work::Checkpoint,
            Work::Persist,
            Work::Stop,
            Work::Reload,
            Work::Reconcile,
            Work::Notify,
        ]
    );
}

#[test]
fn refusals_name_whose_fault_they_are() {
    let text = |kind: FailureKind, message: &str| (kind, message.to_string());
    assert_eq!(
        refusal(Work::ParsePath, failed("relative")),
        text(FailureKind::InvalidParams, "invalid working directory: relative")
    );
    assert_eq!(
        refusal(
            Work::TestDirectory,
            Event::Directory { exists: false, shown: "/gone".to_string() }
        ),
        text(FailureKind::InvalidParams, "not a directory: /gone")
    );
    assert_eq!(
        refusal(Work::LoadThread, failed("no thread")),
        text(FailureKind::Other(-32000), "no thread")
    );
    assert_eq!(
        refusal(Work::ReadThread, Event::Thread(ThreadFacts { environments: 2, ..FACTS })),
        text(
            FailureKind::InvalidRequest,
            "directory changes require one local environment"
        )
    );
    for facts in [
        ThreadFacts { ephemeral: true, ..FACTS },
        ThreadFacts { has_parent: true, ..FACTS },
        ThreadFacts { local: false, ..FACTS },
        ThreadFacts { from_thread: false, ..FACTS },
    ] {
        assert_eq!(
            refusal(Work::ReadThread, Event::Thread(facts)),
            text(
                FailureKind::InvalidRequest,
                "directory changes require a persistent local root thread"
            )
        );
    }
    assert_eq!(
        refusal(Work::LoadConfig, Event::Config { trusted: false }),
        text(
            FailureKind::InvalidRequest,
            "directory is not trusted; start Codex there first"
        )
    );
    for (same_thread, same_directory) in [(false, true), (true, false)] {
        assert_eq!(
            refusal(Work::LoadCurrent, Event::Current { same_thread, same_directory }),
            text(
                FailureKind::InvalidRequest,
                "thread changed while loading the working directory; retry"
            )
        );
    }
    assert_eq!(
        refusal(Work::Checkpoint, failed("disk full")),
        text(
            FailureKind::Internal,
            "failed to save thread before directory change: disk full"
        )
    );
    assert_eq!(
        refusal(Work::ListAgents, failed("lost")),
        text(FailureKind::Internal, "lost")
    );
}

#[test]
fn a_change_waits_for_agents_and_terminals() {
    let agent = |loaded: bool, running: bool, terminals: usize| AgentActivity {
        loaded,
        running,
        terminals,
    };
    let idle = vec![agent(true, false, 0), agent(false, true, 3)];
    assert!(!is_any_busy(&idle));
    assert_eq!(at(Work::ListAgents).next(Event::Agents(idle)).doing, Work::Preview);
    for busy in [agent(true, true, 0), agent(true, false, 1)] {
        let (kind, message) =
            refusal(Work::ListAgents, Event::Agents(vec![agent(true, false, 0), busy]));
        assert_eq!(kind, FailureKind::InvalidRequest);
        assert!(message.starts_with("wait for the thread, its agents"));
    }
}

#[test]
fn a_failed_runtime_is_replaced_by_the_one_before() {
    let broken = at(Work::Reload).next(failed("no model"));
    assert_eq!(broken.doing, Work::FindReplacement);
    let restoring = broken.next(Event::Replacement(false));
    assert_eq!(restoring.doing, Work::Restore);
    let ended = restoring.next(Event::Done);
    assert_eq!(ended.doing, Work::Reply);
    assert_eq!(ended.failure, Some(failure("no model")));

    let stopping = at(Work::Reconcile)
        .next(failed("stale"))
        .next(Event::Replacement(true));
    assert_eq!(stopping.doing, Work::StopReplacement);
    let ended = stopping.next(Event::Done).next(failed("gone"));
    let failure = ended.failure.unwrap();
    assert_eq!(failure.kind, FailureKind::Internal);
    assert_eq!(
        failure.message,
        "directory change failed: stale; restoring the original runtime failed: gone"
    );
}

fn destination(active: Option<&str>) -> Destination {
    Destination {
        approval_policy: "on-request".to_string(),
        active_permission_profile: active.map(str::to_string),
        permission_profile: "read-only".to_string(),
        profile_workspace_roots: vec!["/profile".to_string()],
        approvals_reviewer: "user".to_string(),
        model: "model".to_string(),
        reasoning_effort: Some("high".to_string()),
        reasoning_summary: None,
        service_tier: None,
        personality: None,
    }
}

fn config() -> RuntimeConfig {
    RuntimeConfig {
        developer_instructions: Some("from the config".to_string()),
        bypass_hook_trust: false,
        approval_policy: "never".to_string(),
        permission: Permission::Legacy { profile: "full".to_string() },
        approvals_reviewer: "nobody".to_string(),
        workspace_roots: Vec::new(),
        model: None,
        reasoning_effort: None,
        reasoning_summary: Some("auto".to_string()),
        service_tier: Some("priority".to_string()),
        personality: None,
    }
}

#[test]
fn a_loaded_config_is_pointed_at_the_destination() {
    let mut plain = config();
    let roots = vec!["/new".to_string()];
    retarget(&mut plain, &None, true, &destination(None), &roots);
    assert_eq!(
        plain,
        RuntimeConfig {
            developer_instructions: Some("from the config".to_string()),
            bypass_hook_trust: true,
            approval_policy: "on-request".to_string(),
            permission: Permission::Legacy { profile: "read-only".to_string() },
            approvals_reviewer: "user".to_string(),
            workspace_roots: roots,
            model: Some("model".to_string()),
            reasoning_effort: Some("high".to_string()),
            reasoning_summary: None,
            service_tier: None,
            personality: None,
        }
    );
    let mut told = config();
    let client = Some("from the client".to_string());
    retarget(&mut told, &client, false, &destination(Some("project")), &Vec::new());
    assert_eq!(told.developer_instructions, client);
    assert_eq!(told.permission, permission(&destination(Some("project"))));
    assert_eq!(
        told.permission,
        Permission::Active {
            profile: "read-only".to_string(),
            active: "project".to_string(),
            workspace_roots: vec!["/profile".to_string()],
        }
    );
}

#[test]
fn a_thread_is_stopped_before_it_is_removed() {
    let done = |stop: ThreadStop| stop.next(StopEvent::Done, "t");
    let removing = done(done(done(ThreadStop::start())));
    assert_eq!(removing.doing, StopWork::Remove);
    let ended = done(removing.next(StopEvent::Removed(true), "t"));
    assert_eq!(ended.doing, StopWork::Reply);
    assert_eq!(ended.failure, None);
    let said = |stop: ThreadStop| stop.failure.unwrap().message;
    assert_eq!(
        said(ThreadStop::start().next(StopEvent::ConnectionClosed, "t")),
        "connection closed before reloading thread t"
    );
    assert_eq!(
        said(ThreadStop::start().next(StopEvent::Failed(failure("busy")), "t")),
        "busy"
    );
    let stuck = done(ThreadStop::start()).next(StopEvent::NotShutDown, "t");
    assert_eq!(stuck.doing, StopWork::Withdraw);
    assert_eq!(said(done(stuck)), "failed to shut down thread t before reload");
    let draining = || done(done(ThreadStop::start()));
    assert_eq!(
        said(draining().next(StopEvent::DrainTimedOut, "t")),
        "timed out draining thread t before reload"
    );
    assert_eq!(
        said(draining().next(StopEvent::ListenerStopped, "t")),
        "listener stopped before draining thread t"
    );
    assert_eq!(
        said(done(draining()).next(StopEvent::Removed(false), "t")),
        "thread t changed before reload"
    );
}
