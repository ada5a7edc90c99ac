use work_ledger::agents::message::delivery;
use work_ledger::agents::message::message_content;
use work_ledger::agents::message::require_direct_child;
use work_ledger::agents::message::AgentCommunicationKind;
use work_ledger::agents::message::AgentMessageResult;
use work_ledger::agents::message::MessageDeliveryMode;
use work_ledger::agents::message::MessageEvent;
use work_ledger::agents::message::MessageFlow;
use work_ledger::agents::message::MessageRequest;
use work_ledger::agents::message::MessageWork;
use work_ledger::agents::message::RequestedRouting;
use work_ledger::agents::message::SubAgentRouting;
use work_ledger::agents::notice::CompletionContinuation;
use work_ledger::agents::notice::DeveloperInstructions;
use work_ledger::agents::notice::InterAgentCompletionMessage;
use work_ledger::agents::status::agent_status_from_event;
use work_ledger::agents::status::is_final;
use work_ledger::agents::status::AgentEvent;
use work_ledger::agents::status::AgentStatus;
use work_ledger::agents::status::AgentStatusSnapshot;
use work_ledger::agents::status::TurnAbortReason;
use work_ledger::agents::transition::Reroute;
use work_ledger::agents::transition::RerouteEvent;
use work_ledger::agents::transition::RerouteWork;
use work_ledger::agents::transition::Transition;
use work_ledger::agents::transition::TransitionEvent;
use work_ledger::agents::transition::TransitionState;
use work_ledger::agents::transition::TransitionWork;
use work_ledger::agents::workspace::cwd_problem;
use work_ledger::agents::workspace::spawn_environments;
use work_ledger::agents::workspace::ChildDirectory;
use work_ledger::agents::workspace::EnvironmentSelection;

fn routing(model: &str, effort: Option<&str>) -> SubAgentRouting {
    SubAgentRouting {
        model: model.to_string(),
        reasoning_effort: effort.map(str::to_string),
    }
}

fn request(mode: MessageDeliveryMode, message: &str, effort: Option<&str>) -> MessageRequest {
    MessageRequest {
        mode,
        message: message.to_string(),
        requested: RequestedRouting {
            reasoning_effort: effort.map(str::to_string),
            ..RequestedRouting::default()
        },
        author: "/root".to_string(),
    }
}

fn known(path: &str) -> MessageEvent {
    MessageEvent::Known { path: Some(path.to_string()), root: path == "/root" }
}

fn target() -> MessageEvent {
    MessageEvent::Target("thread".to_string())
}

#[test]
fn sibling_cannot_interrupt_or_reroute_another_worker_by_uuid() {
    let error = require_direct_child("/root/sibling", "/root/worker").unwrap_err();
    assert!(error.contains("not a direct child"), "{error}");
    let request = MessageRequest {
        author: "/root/sibling".to_string(),
        ..request(MessageDeliveryMode::TriggerTurn, "change work", Some("high"))
    };
    let flow = MessageFlow::start(&request)
        .next(&request, target())
        .next(&request, known("/root/worker"));
    let error = flow.reply().unwrap().unwrap_err();
    assert!(error.contains("not a direct child"), "{error}");
    assert_eq!(error, "/root/worker is not a direct child of /root/sibling");
}

#[test]
fn unfinished_work_continues_the_same_turn_with_bounded_context() {
    let reason = format!("Finish the remaining work.{}", "x".repeat(1100));
    let body = CompletionContinuation::new(reason.clone()).body();
    assert_eq!(body.len(), 1000);
    assert!(reason.starts_with(&body));
    let short = "Finish the remaining work.".to_string();
    assert_eq!(CompletionContinuation::new(short.clone()).body(), short);
    let wide = "長".repeat(334);
    assert_eq!(CompletionContinuation::new(wide).body(), "長".repeat(333));
}

#[test]
fn only_direct_children_stand_below_an_agent() {
    assert!(require_direct_child("/root", "/root/worker").is_ok());
    assert!(require_direct_child("/root", "/root/worker/helper").is_err());
    assert!(require_direct_child("/root", "worker").is_err());
    assert!(require_direct_child("", "/root").is_ok());
}

#[test]
fn a_message_that_keeps_the_routing_is_queued() {
    let request = request(MessageDeliveryMode::QueueOnly, "hello", None);
    let mut flow = MessageFlow::start(&request);
    let mut steps = vec![flow.doing];
    for event in [
        target(),
        known("/root/worker"),
        MessageEvent::Done,
        MessageEvent::Routing(Some(routing("model", Some("low")))),
        MessageEvent::Done,
        MessageEvent::Done,
    ] {
        assert_eq!(flow.reply(), None);
        flow = flow.next(&request, event);
        steps.push(flow.doing);
    }
    assert_eq!(
        steps,
        [
            MessageWork::ResolveTarget,
            MessageWork::KnowTarget,
            MessageWork::LoadTarget,
            MessageWork::ReadRouting,
            MessageWork::Send,
            MessageWork::Announce,
            MessageWork::Reply,
        ]
    );
    assert_eq!(
        flow.reply(),
        Some(Ok(AgentMessageResult {
            model: "model".to_string(),
            reasoning_effort: Some("low".to_string()),
            interrupted: false,
        }))
    );
}

#[test]
fn a_followup_reroutes_only_when_the_routing_changes() {
    let request = request(MessageDeliveryMode::TriggerTurn, "go on", Some("high"));
    let before = || {
        MessageFlow::start(&request)
            .next(&request, target())
            .next(&request, known("/root/worker"))
            .next(&request, MessageEvent::Done)
            .next(&request, MessageEvent::Routing(Some(routing("model", Some("low")))))
    };
    assert_eq!(before().doing, MessageWork::ResolveRouting);
    let kept =
        before().next(&request, MessageEvent::Routing(Some(routing("model", Some("low")))));
    assert_eq!(kept.doing, MessageWork::Send);
    let changed =
        before().next(&request, MessageEvent::Routing(Some(routing("model", Some("high")))));
    assert_eq!(changed.doing, MessageWork::Reroute);
    let ended = changed
        .next(
            &request,
            MessageEvent::Rerouted { routing: routing("model", Some("high")), interrupted: true },
        )
        .next(&request, MessageEvent::Done);
    let result = ended.reply().unwrap().unwrap();
    assert!(result.interrupted);
    assert_eq!(result.reasoning_effort.as_deref(), Some("high"));
}

#[test]
fn refused_messages_say_why() {
    assert_eq!(
        message_content("  \n".to_string()),
        Err("Empty message can't be sent to an agent".to_string())
    );
    assert_eq!(message_content(" hi ".to_string()), Ok(" hi ".to_string()));
    let empty = request(MessageDeliveryMode::QueueOnly, " ", None);
    let flow = MessageFlow::start(&empty).next(&empty, target());
    assert_eq!(flow.doing, MessageWork::Reply);
    let follow = request(MessageDeliveryMode::TriggerTurn, "go", None);
    let refused = |event: MessageEvent| {
        MessageFlow::start(&follow)
            .next(&follow, target())
            .next(&follow, event)
            .reply()
            .unwrap()
            .unwrap_err()
    };
    assert_eq!(refused(known("/root")), "Follow-up tasks can't target the root agent");
    assert_eq!(
        refused(MessageEvent::Known { path: None, root: false }),
        "target agent is missing an agent_path"
    );
    assert_eq!(refused(MessageEvent::Failed("no such agent".to_string())), "no such agent");
    let lost = MessageFlow::start(&follow)
        .next(&follow, target())
        .next(&follow, known("/root/worker"))
        .next(&follow, MessageEvent::Done)
        .next(&follow, MessageEvent::Routing(None));
    assert_eq!(
        lost.reply().unwrap().unwrap_err(),
        "agent with id thread not found"
    );
}

#[test]
fn a_followup_wakes_its_receiver() {
    let queued = delivery(MessageDeliveryMode::QueueOnly, "turn-1");
    assert!(!queued.trigger_turn);
    assert_eq!(queued.kind, AgentCommunicationKind::Message);
    assert_eq!(queued.parent_turn_id, None);
    let followup = delivery(MessageDeliveryMode::TriggerTurn, "turn-1");
    assert!(followup.trigger_turn && MessageDeliveryMode::TriggerTurn.trigger_turn());
    assert_eq!(followup.kind, AgentCommunicationKind::Followup);
    assert_eq!(followup.parent_turn_id.as_deref(), Some("turn-1"));
    assert!(RequestedRouting::default().is_empty());
}

#[test]
fn a_transition_waits_for_its_reply() {
    let walk = |transition: Transition, logging: bool| {
        let mut state = TransitionState::start();
        let mut steps = Vec::new();
        while state.doing != TransitionWork::Finish {
            steps.push(state.doing);
            state = state.next(transition, logging, TransitionEvent::Done);
        }
        assert_eq!(state.failure, None);
        steps
    };
    assert_eq!(
        walk(Transition::Interrupt, true),
        [TransitionWork::Attach, TransitionWork::Submit, TransitionWork::AwaitReply]
    );
    assert_eq!(
        walk(Transition::Reroute, true),
        [
            TransitionWork::Attach,
            TransitionWork::FindThread,
            TransitionWork::EnsureCapacity,
            TransitionWork::Submit,
            TransitionWork::AwaitReply,
            TransitionWork::Log,
        ]
    );
    assert_eq!(walk(Transition::Reroute, false).len(), 5);
    let waiting = |transition: Transition| {
        let mut state = TransitionState::start();
        while state.doing != TransitionWork::AwaitReply {
            state = state.next(transition, false, TransitionEvent::Done);
        }
        state.next(transition, false, TransitionEvent::Lost).failure.unwrap()
    };
    assert_eq!(waiting(Transition::Interrupt), "agent interruption reply was lost");
    assert_eq!(waiting(Transition::Reroute), "agent routing reply was lost");
}

#[test]
fn refused_settings_interrupt_nothing() {
    let refused = Reroute::start().next(RerouteEvent::Failed("bad model".to_string()));
    assert_eq!(refused.doing, RerouteWork::Finish);
    assert!(!refused.interrupted);
    assert_eq!(refused.failure.as_deref(), Some("bad model"));
    let done = Reroute::start()
        .next(RerouteEvent::Done)
        .next(RerouteEvent::Aborted(true))
        .next(RerouteEvent::Done)
        .next(RerouteEvent::Done)
        .next(RerouteEvent::Routing(routing("model", None)));
    assert_eq!(done.doing, RerouteWork::Finish);
    assert!(done.interrupted);
    assert_eq!(done.routing, Some(routing("model", None)));
}

#[test]
fn status_follows_events() {
    let status = |event: AgentEvent| agent_status_from_event(&event);
    assert_eq!(status(AgentEvent::TurnStarted), Some(AgentStatus::Running));
    assert_eq!(
        status(AgentEvent::TurnComplete {
            error: None,
            last_agent_message: Some("done".to_string()),
        }),
        Some(AgentStatus::Completed(Some("done".to_string())))
    );
    assert_eq!(
        status(AgentEvent::TurnComplete {
            error: Some("broken".to_string()),
            last_agent_message: Some("done".to_string()),
        }),
        Some(AgentStatus::Errored("broken".to_string()))
    );
    for reason in [TurnAbortReason::Interrupted, TurnAbortReason::BudgetLimited] {
        let status = status(AgentEvent::TurnAborted(reason)).unwrap();
        assert_eq!(status, AgentStatus::Interrupted);
        assert!(!is_final(&status));
    }
    let replaced = status(AgentEvent::TurnAborted(TurnAbortReason::Other("Replaced".to_string())));
    assert_eq!(replaced, Some(AgentStatus::Errored("Replaced".to_string())));
    assert!(is_final(&replaced.unwrap()));
    assert_eq!(status(AgentEvent::ShutdownComplete), Some(AgentStatus::Shutdown));
    assert_eq!(
        status(AgentEvent::Error("e".to_string())),
        Some(AgentStatus::Errored("e".to_string()))
    );
    assert_eq!(status(AgentEvent::Other), None);
    assert!(is_final(&AgentStatus::Other) && !is_final(&AgentStatus::PendingInit));
    assert_eq!(AgentStatusSnapshot::from_status(AgentStatus::Running).routing, None);
}

#[test]
fn a_final_answer_names_what_produced_it() {
    let answer = |routing: Option<SubAgentRouting>| {
        InterAgentCompletionMessage::new(
            "/root/worker".to_string(),
            "/root".to_string(),
            "All done.".to_string(),
            routing,
        )
        .body()
    };
    assert_eq!(
        answer(Some(routing("model", None))),
        "Message Type: FINAL_ANSWER\nTask name: /root/worker\nSender: /root\nModel: model\n\
         Reasoning effort: unspecified\nPayload:\nAll done."
    );
    assert!(answer(Some(routing("model", Some("high")))).contains("Reasoning effort: high\n"));
    assert!(answer(None).contains("Model and reasoning effort: unavailable\n"));
}

#[test]
fn replaced_instructions_are_bounded() {
    let cleared = DeveloperInstructions::replacement("", 40_000).unwrap();
    assert_eq!(
        cleared.body(),
        "The previously provided workspace and client developer instructions no longer apply."
    );
    let replaced = DeveloperInstructions::replacement("Be brief.", 40_000).unwrap();
    assert!(replaced.body().ends_with("\n\nBe brief."));
    assert_eq!(
        DeveloperInstructions::replacement(&"x".repeat(40_000), 40_000),
        Err("workspace developer instructions exceed the 10000-token context limit".to_string())
    );
    assert_eq!(DeveloperInstructions::new("As is.".to_string()).body(), "As is.");
}

fn selections() -> Vec<EnvironmentSelection> {
    ["local", "remote"]
        .map(|id| EnvironmentSelection {
            environment_id: id.to_string(),
            cwd: "/work".to_string(),
        })
        .into_iter()
        .collect()
}

#[test]
fn a_child_works_where_it_is_told_to() {
    let (kept, path) =
        spawn_environments(selections(), &None, ChildDirectory::NoEnvironment).unwrap();
    assert_eq!((kept, path), (selections(), None));
    let asked = Some("sub".to_string());
    let (moved, path) = spawn_environments(
        selections(),
        &asked,
        ChildDirectory::Local { cwd: "/work/sub".to_string(), path: "/abs/sub".to_string() },
    )
    .unwrap();
    assert_eq!(moved[0].cwd, "/work/sub");
    assert_eq!(moved[0].environment_id, "local");
    assert_eq!(moved[1].cwd, "/work");
    assert_eq!(path.as_deref(), Some("/abs/sub"));
    let (_, path) = spawn_environments(
        selections(),
        &asked,
        ChildDirectory::Remote { cwd: "/work/sub".to_string() },
    )
    .unwrap();
    assert_eq!(path, None);
}

#[test]
fn a_child_directory_can_be_refused() {
    let asked = Some("sub".to_string());
    let refused = |directory: ChildDirectory| {
        spawn_environments(selections(), &asked, directory).unwrap_err()
    };
    assert_eq!(
        refused(ChildDirectory::NoEnvironment),
        "No execution environment is ready for the child cwd"
    );
    assert_eq!(
        refused(ChildDirectory::Unresolved("bad".to_string())),
        "Invalid child cwd: bad"
    );
    assert_eq!(
        refused(ChildDirectory::Inaccessible("gone".to_string())),
        "Cannot access child cwd: gone"
    );
    assert_eq!(refused(ChildDirectory::NotADirectory), "Child cwd must be a directory");
    assert_eq!(
        refused(ChildDirectory::NotLocal("relative".to_string())),
        "Invalid local child cwd: relative"
    );
    assert_eq!(
        cwd_problem(&Some("  ".to_string())).as_deref(),
        Some("cwd must not be empty")
    );
    assert_eq!(cwd_problem(&asked), None);
    assert_eq!(
        spawn_environments(selections(), &Some(" ".to_string()), ChildDirectory::NotADirectory)
            .unwrap_err(),
        "cwd must not be empty"
    );
    assert_eq!(
        spawn_environments(
            Vec::new(),
            &Some(" ".to_string()),
            ChildDirectory::Remote { cwd: "/work".to_string() },
        )
        .unwrap_err(),
        "cwd must not be empty"
    );
}
