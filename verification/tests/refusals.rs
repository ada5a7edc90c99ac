use work_ledger::ledger::batch::Entry;
use work_ledger::ledger::model::Execution;
use work_ledger::ledger::model::Ledger;
use work_ledger::time::format_timestamp;

fn entry(title: &str) -> Entry {
    Entry { title: Some(title.to_string()), ..Entry::default() }
}

fn on(id: &str) -> Entry {
    Entry { id: Some(id.to_string()), ..Entry::default() }
}

fn list(names: &[&str]) -> Vec<String> {
    names.iter().map(|name| name.to_string()).collect()
}

fn after(names: &[&str]) -> Option<Option<Vec<String>>> {
    Some(Some(list(names)))
}

fn plan() -> Ledger {
    let mut ledger = Ledger::default();
    let applied = ledger.upsert(
        &[
            entry("Design"),
            Entry { after: after(&["Design"]), ..entry("Build") },
            entry("Ship"),
        ],
        1_000,
    );
    assert!(applied.errors.is_empty(), "{:?}", applied.errors);
    ledger
}

/// What a batch on the plan is refused for; it changes nothing.
fn refused(entries: &[Entry]) -> Vec<String> {
    refused_on(plan(), entries)
}

fn refused_on(mut ledger: Ledger, entries: &[Entry]) -> Vec<String> {
    let before = ledger.clone();
    let applied = ledger.upsert(entries, 2_000);
    assert_eq!(ledger, before);
    assert!(!applied.changed);
    assert_eq!(applied.outcomes.len(), entries.len());
    assert!(applied.outcomes.iter().all(|outcome| outcome.refused));
    applied.errors
}

#[test]
fn entries_that_mean_nothing_are_refused() {
    let invalid = Entry {
        invalid: Some("each task entry must be an object.".to_string()),
        ..Entry::default()
    };
    assert_eq!(refused(&[invalid]), ["entry 1: each task entry must be an object."]);
    assert_eq!(
        refused(&[Entry { status: Some("paused".to_string()), ..on("1") }]),
        ["#1: paused is not a status — use pending, active, done."]
    );
    assert_eq!(
        refused(&[entry("Fine"), on("9")]),
        ["#9: no such task, and nothing here is called that. The ids here run 1 to 4."]
    );
    assert_eq!(
        refused_on(Ledger::default(), &[on("9")]),
        ["#9: no such task, and nothing here is called that."]
    );
    assert_eq!(refused(&[Entry::default()]), ["entry 1: a new task needs a title."]);
    assert_eq!(
        refused(&[entry("12")]),
        ["entry 1: 12 cannot be a title — ids look like that, so nothing could refer to it."]
    );
    assert_eq!(
        refused(&[entry(&"x".repeat(81))]),
        ["entry 1: the title is 81 characters; titles must be at most 80. Put detail in body."]
    );
}

#[test]
fn names_must_tell_tasks_apart() {
    let mut ledger = plan();
    ledger.tasks[2].title = "design".to_string();
    assert_eq!(
        refused_on(ledger, &[entry("Design")]),
        ["entry 1: #1 and #3 are both called that. Name one by id, or give this one a title of its own."]
    );
    assert_eq!(
        refused(&[Entry { title: Some("Plan".to_string()), ..on("Design") }]),
        ["#Design: to rename it to Plan, give its id (1) — a title on its own names a task rather than changing one."]
    );
    assert_eq!(
        refused(&[Entry { title: Some("ship".to_string()), ..on("1") }]),
        ["#1: another task is already called ship. Two live tasks with one name cannot be told apart afterwards."]
    );
    assert_eq!(
        refused(&[
            Entry { split: Some(list(&["Sketch", "Draw"])), ..on("1") },
            Entry { title: Some("Plan".to_string()), ..on("1") },
        ]),
        ["#1: it was split earlier in this call, so renaming it to Plan would leave the other pieces orphaned."]
    );
}

#[test]
fn splits_need_pieces_of_their_own() {
    assert_eq!(
        refused(&[Entry { split: Some(list(&["One", "  "])), ..on("1") }]),
        ["#1: splitting takes at least two pieces — for one, just change the title."]
    );
    assert_eq!(
        refused(&[Entry { split: Some(list(&["One", "7"])), ..on("1") }]),
        ["#1: 7 cannot be a title — ids look like that, so nothing could refer to it."]
    );
    assert_eq!(
        refused(&[Entry { split: Some(list(&["One", "one", "Ship"])), ..on("1") }]),
        ["#1: one, Ship already names another task — every piece needs its own."]
    );
    assert_eq!(
        refused(&[Entry { split: Some(list(&["One", "Two"])), ..entry("New") }]),
        ["entry 1: split names the pieces of a task that is already here. Give the id or title of the one that turned out to be several."]
    );
}

#[test]
fn merges_need_other_live_or_finished_tasks() {
    let merge = |names: &[&str]| Entry { merge: Some(list(names)), ..on("1") };
    assert_eq!(refused(&[merge(&["9"])]), ["#1: merge names unknown task 9."]);
    assert_eq!(refused(&[merge(&["Design"])]), ["#1: a task cannot absorb itself."]);
    assert_eq!(refused(&[merge(&[])]), ["#1: merge takes at least one other task."]);
    assert_eq!(
        refused(&[Entry { merge: Some(list(&["1"])), ..entry("New") }]),
        ["entry 1: merge absorbs other tasks into one that is already here. Give the id or title of the survivor."]
    );
    let mut ledger = plan();
    ledger.tasks[2].cancelled = Some("Not needed".to_string());
    assert_eq!(
        refused_on(ledger, &[merge(&["3"])]),
        ["#1: #3 is already cancelled; merge live or finished work, not abandoned work."]
    );
    let mut ledger = plan();
    ledger.tasks[2].owner = Some("/root/worker".to_string());
    ledger.executions.insert(
        "/root/worker".to_string(),
        Execution { thread_id: "t".to_string(), running: true, outcome: None, updated: 1 },
    );
    assert_eq!(
        refused_on(ledger, &[merge(&["3"])]),
        ["#1: #3 is still being executed by /root/worker; settle that worker before merging its outcome into another task."]
    );
    assert_eq!(
        refused(&[
            Entry { after: after(&["2"]), ..on("3") },
            Entry { merge: Some(list(&["3"])), after: after(&["2"]), ..on("1") },
        ]),
        ["#1: task dependency cycle: 1 Design -> 2 Build -> 1 Design."]
    );
}

#[test]
fn relations_name_other_tasks_without_cycles() {
    assert_eq!(
        refused(&[Entry { after: after(&["9"]), ..on("1") }]),
        ["#1: after names unknown task 9."]
    );
    assert_eq!(
        refused(&[Entry { before: after(&["Design"]), ..on("1") }]),
        ["#1: a task cannot run before itself."]
    );
    assert_eq!(
        refused(&[Entry { after: after(&["2"]), ..on("1") }]),
        ["#1: task dependency cycle: 1 Design -> 2 Build -> 1 Design."]
    );
}

#[test]
fn a_cycle_is_put_to_the_last_entry_on_it() {
    assert_eq!(
        refused(&[
            entry("Plan"),
            Entry { after: after(&["Test"]), ..entry("Release") },
            Entry { after: after(&["Release"]), ..entry("Test") },
            on("3"),
        ]),
        ["entry 3: task dependency cycle: 5 Release -> 6 Test -> 5 Release."]
    );
    let mut ledger = plan();
    ledger.tasks[0].after = list(&["2"]);
    assert_eq!(
        refused_on(ledger, &[on("Ship")]),
        ["#Ship: task dependency cycle: 1 Design -> 2 Build -> 1 Design."]
    );
}

#[test]
fn active_tasks_wait_for_nothing_and_fit_the_capacity() {
    assert_eq!(
        refused(&[Entry { status: Some("active".to_string()), ..on("2") }]),
        ["#2: an active task cannot wait for unfinished prerequisites."]
    );
    let mut ledger = plan();
    ledger.parallelism = 1;
    let active = |id: &str| Entry { status: Some("active".to_string()), ..on(id) };
    assert_eq!(
        refused_on(ledger, &[active("1"), active("3")]),
        ["#3: 1 of 1 task slots are already busy (1). Finish one, set one back to pending, or ask the user to use /parallelism."]
    );
    let mut ledger = plan();
    ledger.parallelism = 1;
    assert!(ledger.upsert(&[active("3")], 1_500).errors.is_empty());
    assert_eq!(
        refused_on(ledger.clone(), &[active("1"), active("3"), on("2")]),
        ["#1: 1 of 1 task slots are already busy (1). Finish one, set one back to pending, or ask the user to use /parallelism."]
    );
    let waiting = Entry { waiting: Some(Some("Review".to_string())), ..active("1") };
    assert!(ledger.upsert(&[waiting], 1_600).errors.is_empty());
    assert_eq!(
        refused_on(ledger, &[Entry { waiting: Some(None), ..on("1") }, on("3")]),
        ["#1: 1 of 1 task slots are already busy (1). Finish one, set one back to pending, or ask the user to use /parallelism."]
    );
}

#[test]
fn what_an_entry_leaves_out_stays() {
    let mut ledger = plan();
    let waiting = Entry {
        waiting: Some(Some("Review".to_string())),
        owner: Some(Some("/root/worker".to_string())),
        ..on("1")
    };
    ledger.upsert(&[waiting], 2_000);
    ledger.upsert(&[Entry { status: Some("done".to_string()), ..on("1") }], 3_000);
    let task = ledger.find_by_id("1").unwrap();
    assert_eq!(format!("{:?}", task.status), "Done");
    assert_eq!(task.waiting.as_deref(), Some("Review"));
    assert_eq!(task.owner.as_deref(), Some("/root/worker"));
    let cancelled = Entry { cancelled: Some(Some(" Not needed ".to_string())), ..on("3") };
    ledger.upsert(&[cancelled], 4_000);
    let applied =
        ledger.upsert(&[Entry { status: Some("active".to_string()), ..on("3") }], 5_000);
    assert!(applied.errors.is_empty(), "{:?}", applied.errors);
    let task = ledger.find_by_id("3").unwrap();
    assert_eq!(task.cancelled.as_deref(), Some("Not needed"));
    assert_eq!(ledger.view(task).state.label(), "cancelled");
    ledger.upsert(&[Entry { cancelled: Some(None), ..on("3") }], 6_000);
    let task = ledger.find_by_id("3").unwrap();
    assert_eq!(task.cancelled, None);
    assert_eq!(format!("{:?}", task.status), "Pending");
    assert_eq!(task.updated, 6_000);
    let both = Entry { waiting: Some(None), status: Some("done".to_string()), ..on("1") };
    ledger.upsert(&[both], 7_000);
    assert_eq!(ledger.find_by_id("1").unwrap().waiting, None);
}

#[test]
fn work_that_must_wait_is_set_back() {
    let mut ledger = plan();
    let active = |id: &str| Entry { status: Some("active".to_string()), ..on(id) };
    assert!(ledger.upsert(&[active("3")], 2_000).errors.is_empty());
    let applied = ledger.upsert(&[Entry { after: after(&["1"]), ..on("3") }], 3_000);
    assert!(applied.errors.is_empty() && applied.changed);
    let task = ledger.find_by_id("3").unwrap();
    assert_eq!(format!("{:?}", task.status), "Pending");
    assert_eq!(task.updated, 3_000);
}

#[test]
fn entries_that_say_nothing_new_change_nothing() {
    let mut ledger = plan();
    let before = ledger.clone();
    let same = Entry {
        status: Some("pending".to_string()),
        body: Some(String::new()),
        note: Some("  ".to_string()),
        waiting: Some(None),
        owner: Some(Some(" ".to_string())),
        cancelled: Some(None),
        after: Some(None),
        ..on("Design")
    };
    let applied = ledger.upsert(&[same], 9_000);
    assert!(applied.errors.is_empty() && !applied.changed);
    assert!(!applied.outcomes[0].changed && !applied.outcomes[0].refused);
    assert_eq!(applied.outcomes[0].task.as_deref(), Some("1"));
    assert_eq!(ledger, before);
}

#[test]
fn a_batch_without_a_change_leaves_an_ordered_plan() {
    let mut ledger = plan();
    let before = ledger.clone();
    let applied = ledger.upsert(&[], 9_000);
    assert!(applied.errors.is_empty() && !applied.changed);
    assert_eq!(ledger, before);
    ledger.tasks.swap(0, 1);
    let applied = ledger.upsert(&[], 9_000);
    assert!(applied.errors.is_empty() && !applied.changed);
    assert_eq!(ledger, before);
}

#[test]
fn timestamps_tell_minutes_and_sort_by_time() {
    assert_eq!(format_timestamp(60_000), format_timestamp(119_999));
    assert_ne!(format_timestamp(119_999), format_timestamp(120_000));
    assert_ne!(format_timestamp(-1), format_timestamp(0));
    let times = [0, 59_999, 60_000, 86_399_999, 86_400_000, 951_782_400_000, 253_402_300_799_999];
    let stamps: Vec<String> = times.iter().map(|at| format_timestamp(*at)).collect();
    assert!(stamps.windows(2).all(|pair| pair[0] <= pair[1]), "{stamps:?}");
    assert_eq!(stamps[6], "9999-12-31 23:59 UTC");
    assert!(format_timestamp(253_402_300_800_000) < stamps[6]);
}

#[test]
fn timestamps_far_away_keep_their_form() {
    assert_eq!(format_timestamp(-62_167_219_200_000), "0000-01-01 00:00 UTC");
    assert_eq!(format_timestamp(-62_167_219_200_001), "-001-12-31 23:59 UTC");
    assert_eq!(format_timestamp(253_402_300_800_000), "10000-01-01 00:00 UTC");
}
