use work_ledger::ledger::batch::Entry;
use work_ledger::ledger::model::Execution;
use work_ledger::ledger::model::FindingOrigin;
use work_ledger::ledger::model::Ledger;
use work_ledger::ledger::model::Status;
use work_ledger::ledger::model::Task;
use work_ledger::ledger::query::title_problem;
use work_ledger::ledger::query::View;
use work_ledger::ledger::render::finding_previews;
use work_ledger::ledger::render::render;
use work_ledger::ledger::render::render_recall;
use work_ledger::time::format_timestamp;

fn entry(title: &str) -> Entry {
    Entry {
        title: Some(title.to_string()),
        ..Entry::default()
    }
}

fn on(id: &str) -> Entry {
    Entry {
        id: Some(id.to_string()),
        ..Entry::default()
    }
}

fn list(names: &[&str]) -> Vec<String> {
    names.iter().map(|name| name.to_string()).collect()
}

fn plan() -> Ledger {
    let mut ledger = Ledger::default();
    let applied = ledger.upsert(
        &[
            entry("Design the seam"),
            Entry {
                after: Some(Some(vec!["Design the seam".to_string()])),
                ..entry("Implement it")
            },
            Entry {
                after: Some(Some(vec!["Implement it".to_string()])),
                ..entry("Validate it")
            },
        ],
        1_000,
    );
    assert!(applied.errors.is_empty(), "{:?}", applied.errors);
    ledger
}

#[test]
fn titles_resolve_and_ids_are_stable() {
    let ledger = plan();
    assert_eq!(
        ledger.resolve("implement it").map(|t| t.id.as_str()),
        Some("2")
    );
    assert_eq!(
        ledger.resolve("2 Implement it").map(|t| t.id.as_str()),
        Some("2")
    );
    assert_eq!(ledger.view(&ledger.tasks[1]).state, View::Blocked);
    assert_eq!(ledger.view(&ledger.tasks[0]).state, View::Ready);
}

#[test]
fn batches_are_atomic_and_cycles_are_refused() {
    let mut ledger = plan();
    let before = ledger.clone();
    let applied = ledger.upsert(
        &[
            Entry {
                id: Some("1".to_string()),
                after: Some(Some(vec!["3".to_string()])),
                ..Entry::default()
            },
            entry("Unrelated"),
        ],
        2_000,
    );
    assert!(
        applied
            .errors
            .iter()
            .any(|e| e.contains("dependency cycle")),
        "{:?}",
        applied.errors
    );
    assert_eq!(ledger, before);
    assert!(applied.outcomes.iter().all(|o| o.refused));
}

#[test]
fn capacity_refuses_a_fifth_active_outcome() {
    let mut ledger = Ledger {
        parallelism: 4,
        ..Ledger::default()
    };
    let entries: Vec<Entry> = (1..=5)
        .map(|n| Entry {
            status: Some("active".to_string()),
            ..entry(&format!("Outcome {n}"))
        })
        .collect();
    let applied = ledger.upsert(&entries, 1);
    assert!(applied
        .errors
        .iter()
        .any(|e| e.contains("task slots are already busy")));
    assert!(ledger.tasks.is_empty());
    let applied = ledger.upsert(&entries[..4], 1);
    assert!(applied.errors.is_empty(), "{:?}", applied.errors);
}

#[test]
fn split_keeps_history_and_rewires_dependents() {
    let mut ledger = plan();
    let applied = ledger.upsert(
        &[Entry {
            id: Some("2".to_string()),
            split: Some(vec![
                "Implement storage".to_string(),
                "Implement tool".to_string(),
            ]),
            ..Entry::default()
        }],
        3_000,
    );
    assert!(applied.errors.is_empty(), "{:?}", applied.errors);
    assert_eq!(ledger.tasks[1].title, "Implement storage");
    assert_eq!(ledger.tasks[2].title, "Implement tool");
    assert_eq!(ledger.tasks[2].after, vec!["1".to_string()]);
    let validate = ledger.find_by_id("3").unwrap();
    assert_eq!(validate.after, vec!["2".to_string(), "4".to_string()]);
    assert!(ledger.tasks[1].findings[0].text.starts_with("Split from"));
}

#[test]
fn merge_carries_findings_rewires_graph_and_keeps_sources_resolvable() {
    let mut ledger = plan();
    ledger.upsert(
        &[
            Entry {
                id: Some("1".to_string()),
                note: Some("seam is the extension api".to_string()),
                status: Some("done".to_string()),
                ..Entry::default()
            },
            Entry {
                id: Some("2".to_string()),
                note: Some("half written".to_string()),
                ..Entry::default()
            },
        ],
        4_000,
    );
    let applied = ledger.upsert(
        &[Entry {
            id: Some("1".to_string()),
            merge: Some(vec!["2".to_string()]),
            body: Some("design and implementation are one change".to_string()),
            ..Entry::default()
        }],
        5_000,
    );
    assert!(applied.errors.is_empty(), "{:?}", applied.errors);
    let survivor = ledger.find_by_id("1").unwrap();
    assert_eq!(
        survivor.status,
        Status::Pending,
        "unfinished work reopens a finished survivor"
    );
    assert_eq!(survivor.findings.len(), 2);
    assert_eq!(
        survivor.findings[1].from,
        Some(FindingOrigin {
            task: "2".to_string(),
            title: "Implement it".to_string()
        })
    );
    let absorbed = ledger.find_by_id("2").unwrap();
    assert_eq!(
        absorbed.cancelled.as_deref(),
        Some("merged into 1 Design the seam")
    );
    assert_eq!(ledger.find_by_id("3").unwrap().after, vec!["1".to_string()]);
    assert!(ledger.resolve("2").is_some());
}

#[test]
fn merge_refuses_a_cycle_and_a_running_foreign_owner() {
    let mut ledger = plan();
    // 3 after 2 after 1; absorbing 1 into 3 would make 3 wait on 2 which waits on 3.
    let before = ledger.clone();
    let applied = ledger.upsert(
        &[Entry {
            id: Some("3".to_string()),
            merge: Some(vec!["1".to_string()]),
            ..Entry::default()
        }],
        6_000,
    );
    assert!(
        applied
            .errors
            .iter()
            .any(|e| e.contains("dependency cycle")),
        "{:?}",
        applied.errors
    );
    assert_eq!(ledger, before);

    ledger.upsert(
        &[Entry {
            id: Some("2".to_string()),
            owner: Some(Some("/root/worker".to_string())),
            ..Entry::default()
        }],
        6_500,
    );
    ledger.executions.insert(
        "/root/worker".to_string(),
        Execution {
            thread_id: "t".to_string(),
            running: true,
            outcome: None,
            updated: 6_500,
        },
    );
    let applied = ledger.upsert(
        &[Entry {
            id: Some("1".to_string()),
            merge: Some(vec!["2".to_string()]),
            ..Entry::default()
        }],
        7_000,
    );
    assert!(
        applied
            .errors
            .iter()
            .any(|e| e.contains("still being executed")),
        "{:?}",
        applied.errors
    );
}

#[test]
fn render_bounds_findings_and_points_at_recall() {
    let mut ledger = plan();
    let notes: Vec<Entry> = (0..6)
        .map(|n| Entry {
            id: Some("1".to_string()),
            status: Some("active".to_string()),
            note: Some(format!("finding {n}")),
            ..Entry::default()
        })
        .collect();
    ledger.upsert(&notes, 8_000);
    let rendered = render(&ledger);
    assert!(
        rendered.contains(
            "Findings: 4 of 6 shown (previews). Recall 1 for complete context and notes."
        ),
        "{rendered}"
    );
    assert!(!rendered.contains("finding 0"));
    assert!(rendered.contains("finding 5"));
    assert!(
        rendered.ends_with("1 active · 0 ready · 2 blocked"),
        "{rendered}"
    );
}

#[test]
fn external_wait_blocks_without_a_prerequisite() {
    let mut ledger = plan();
    let applied = ledger.upsert(
        &[Entry {
            id: Some("1".to_string()),
            waiting: Some(Some("user decides the storage backend".to_string())),
            ..Entry::default()
        }],
        9_000,
    );
    assert!(applied.errors.is_empty());
    let viewed = ledger.view(ledger.find_by_id("1").unwrap());
    assert_eq!(viewed.state, View::Blocked);
    assert_eq!(
        viewed.note.as_deref(),
        Some("waiting: user decides the storage backend")
    );
}

#[test]
fn overview_keeps_running_and_unaccepted_workers_but_omits_old_workers() {
    let mut ledger = plan();
    ledger.tasks[0].owner = Some("review-needed".to_string());
    for (owner, running) in [("old", false), ("review-needed", false), ("running", true)] {
        ledger.executions.insert(
            owner.to_string(),
            Execution {
                thread_id: owner.to_string(),
                running,
                outcome: Some("completed".to_string()),
                updated: 1,
            },
        );
    }
    let rendered = render(&ledger);
    assert!(rendered.contains("review-needed completed"), "{rendered}");
    assert!(rendered.contains("running running"), "{rendered}");
    assert!(!rendered.contains("old completed"), "{rendered}");
    assert_eq!(ledger.executions.len(), 3);
}

#[test]
fn large_overview_is_bounded_without_losing_stored_context() {
    let mut ledger = Ledger {
        parallelism: 100,
        ..Default::default()
    };
    let entries: Vec<_> = (0..60)
        .map(|n| Entry {
            status: Some("active".to_string()),
            body: Some(format!("{} decisive ending {n}", "長い本文".repeat(1000))),
            ..entry(&format!("Outcome {n}"))
        })
        .collect();
    let applied = ledger.upsert(&entries, 1);
    assert!(applied.errors.is_empty(), "{:?}", applied.errors);
    let rendered = render(&ledger);
    assert!(rendered.len() <= 24_000);
    assert!(rendered.contains("Body shortened. Recall 1"));
    assert!(rendered.contains("Overview shortened."));
    let recalled = render_recall(&ledger, &ledger.tasks[59], "");
    assert!(recalled.contains(&ledger.tasks[59].body));
    assert!(recalled.contains("decisive ending 59"));
}

#[test]
fn timestamps_render_in_utc() {
    assert_eq!(format_timestamp(0), "1970-01-01 00:00 UTC");
    assert_eq!(format_timestamp(1_788_978_227_000), "2026-09-09 18:23 UTC");
}

#[test]
fn capacity_excludes_external_waits_and_zero_allows_independent_work() {
    let mut ledger = Ledger {
        parallelism: 1,
        ..Default::default()
    };
    let entries = [
        Entry {
            title: Some("Await external review".to_owned()),
            status: Some("active".to_owned()),
            waiting: Some(Some("Review".to_owned())),
            ..Default::default()
        },
        Entry {
            title: Some("Implement ready work".to_owned()),
            status: Some("active".to_owned()),
            ..Default::default()
        },
    ];
    assert!(ledger.upsert(&entries, 1).errors.is_empty());
    assert_eq!(ledger.counts().get(&View::Active), Some(&1));
    ledger.parallelism = 0;
    let entries = (0..6)
        .map(|index| Entry {
            title: Some(format!("Independent {index}")),
            status: Some("active".to_owned()),
            ..Default::default()
        })
        .collect::<Vec<_>>();
    assert!(ledger.upsert(&entries, 2).errors.is_empty());
    assert_eq!(ledger.counts().get(&View::Active), Some(&7));
}

#[test]
fn timestamps_cross_leap_days_and_the_epoch() {
    assert_eq!(format_timestamp(951_782_400_000), "2000-02-29 00:00 UTC");
    assert_eq!(format_timestamp(951_868_800_000), "2000-03-01 00:00 UTC");
    assert_eq!(format_timestamp(1_709_251_199_999), "2024-02-29 23:59 UTC");
    assert_eq!(format_timestamp(-1), "1969-12-31 23:59 UTC");
    assert_eq!(format_timestamp(4_107_542_400_000), "2100-03-01 00:00 UTC");
}

#[test]
fn a_row_follows_its_prerequisites() {
    let mut ledger = Ledger::default();
    let applied = ledger.upsert(
        &[
            Entry {
                after: Some(Some(list(&["Second", "Third"]))),
                ..entry("First")
            },
            entry("Second"),
            Entry {
                after: Some(Some(list(&["Second"]))),
                ..entry("Third")
            },
        ],
        1,
    );
    assert!(applied.errors.is_empty(), "{:?}", applied.errors);
    let titles: Vec<&str> = ledger.tasks.iter().map(|task| task.title.as_str()).collect();
    assert_eq!(titles, ["Second", "Third", "First"]);
    assert_eq!(ledger.resolve("First").unwrap().id, "1");
    assert_eq!(ledger.resolve("First").unwrap().after, ["2", "3"]);
}

#[test]
fn a_refused_batch_names_every_problem_and_changes_nothing() {
    let mut ledger = plan();
    let before = ledger.clone();
    let applied = ledger.upsert(
        &[
            entry("Fresh outcome"),
            Entry {
                status: Some("paused".to_string()),
                ..on("1")
            },
            on("99"),
            entry("   "),
        ],
        2_000,
    );
    assert_eq!(applied.errors.len(), 3, "{:?}", applied.errors);
    assert!(!applied.changed);
    assert_eq!(ledger, before);
}

#[test]
fn a_number_is_never_given_twice() {
    let mut ledger = plan();
    ledger.tasks[2].id = "41".to_string();
    let applied = ledger.upsert(&[entry("Later outcome")], 2_000);
    assert!(applied.errors.is_empty(), "{:?}", applied.errors);
    assert_eq!(ledger.resolve("Later outcome").unwrap().id, "42");
}

#[test]
fn numbers_that_run_out_leave_the_ledger_alone() {
    let mut ledger = plan();
    ledger.tasks[2].id = u64::MAX.to_string();
    let before = ledger.clone();
    assert!(ledger.try_upsert(&[entry("One too many")], 2_000).is_none());
    assert_eq!(ledger, before);
}

#[test]
fn titles_are_short_single_lines() {
    assert_eq!(title_problem("A fine title"), None);
    assert!(title_problem("").is_some());
    assert!(title_problem(&"x".repeat(81)).is_some());
    assert!(title_problem(&"x".repeat(80)).is_none());
}

#[test]
fn previews_show_the_last_findings_on_one_line() {
    let mut ledger = plan();
    let notes: Vec<Entry> = (0..5)
        .map(|n| Entry {
            note: Some(format!("line {n}\nmore")),
            ..on("1")
        })
        .collect();
    ledger.upsert(&notes, 0);
    let previews = finding_previews(ledger.find_by_id("1").unwrap());
    assert_eq!(previews.len(), 4);
    assert!(previews[0].contains("line 1 more"), "{previews:?}");
    assert!(previews[3].contains("line 4 more"), "{previews:?}");
}

#[test]
fn merged_findings_come_in_the_order_of_their_time() {
    let mut ledger = plan();
    ledger.upsert(&[Entry { note: Some("late".to_string()), ..on("1") }], 30);
    ledger.upsert(&[Entry { note: Some("early".to_string()), ..on("3") }], 10);
    ledger.upsert(&[Entry { after: Some(None), ..on("3") }], 40);
    let applied = ledger.upsert(&[Entry { merge: Some(list(&["3"])), ..on("1") }], 50);
    assert!(applied.errors.is_empty(), "{:?}", applied.errors);
    let texts: Vec<&str> = ledger
        .find_by_id("1")
        .unwrap()
        .findings
        .iter()
        .map(|finding| finding.text.as_str())
        .collect();
    assert_eq!(texts, ["early", "late"]);
    assert!(ledger.find_by_id("3").unwrap().terminal());
}

#[test]
fn terminal_tasks_are_done_or_cancelled() {
    let mut ledger = plan();
    assert!(!ledger.tasks[0].terminal());
    ledger.upsert(&[Entry { status: Some("done".to_string()), ..on("1") }], 1);
    ledger.upsert(
        &[Entry { cancelled: Some(Some("Not needed".to_string())), ..on("2") }],
        2,
    );
    let terminal: Vec<bool> = ledger.tasks.iter().map(Task::terminal).collect();
    assert_eq!(terminal, [true, true, false]);
    assert_eq!(View::Done.glyph(), ledger.view(&ledger.tasks[0]).state.glyph());
    assert_eq!(ledger.view(&ledger.tasks[1]).state.label(), "cancelled");
    assert_eq!(ledger.summary(), "0 active · 1 ready · 1 done");
}
