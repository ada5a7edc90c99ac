use work_ledger::commands::account_item;
use work_ledger::commands::ledger_trouble;
use work_ledger::commands::parallelism_command;
use work_ledger::commands::parallelism_message;
use work_ledger::commands::parallelism_notice;
use work_ledger::commands::parallelism_trouble;
use work_ledger::commands::Notice;
use work_ledger::commands::ParallelismCommand;
use work_ledger::commands::PickableAccount;
use work_ledger::commands::SelectionItem;
use work_ledger::cur::cur_project_cwd;
use work_ledger::cur::decode_cur_project_path;
use work_ledger::cur::decode_cur_windows_project_drive;
use work_ledger::cur::Decoding;
use work_ledger::cur::MAX_CUR_PROJECT_PATH_PROBES;
use work_ledger::table::Table;
use work_ledger::transcripts::session_candidates;
use work_ledger::transcripts::DirectoryEntry;
use work_ledger::transcripts::EntryKind;
use work_ledger::transcripts::ProjectTranscripts;
use work_ledger::transcripts::Walk;

/// Searches among these directories; gives what was found and how many were looked for.
fn search(encoded: &str, directories: &[&str]) -> (Option<String>, usize) {
    let mut answers = Vec::new();
    loop {
        match decode_cur_project_path(encoded, "/", &answers) {
            Decoding::Ask(path) => answers.push(directories.contains(&path.as_str())),
            Decoding::Done(found) => return (found, answers.len()),
        }
    }
}

#[test]
fn a_dash_may_stand_for_a_separator_or_itself() {
    for (name, path) in [
        ("-home-user-app", "/home/user/app"),
        ("home-user-my-app", "/home/user/my-app"),
        ("home-user-my-app", "/home/user/my_app"),
        ("home-user-my-app", "/home/user/my.app"),
        ("home-user-a-b", "/home/user/a&b"),
    ] {
        let mut directories = vec!["/home", "/home/user"];
        directories.push(path);
        assert_eq!(search(name, &directories).0.as_deref(), Some(path));
    }
}

#[test]
fn two_directories_with_one_encoding_decode_to_nothing() {
    let directories = ["/home", "/home/user", "/home/user/my-app", "/home/user/my_app"];
    assert_eq!(search("home-user-my-app", &directories).0, None);
    assert_eq!(search("home-user-gone", &directories).0, None);
    assert_eq!(search("home--user", &directories).0, None);
    assert_eq!(search("", &directories), (None, 0));
}

#[test]
fn a_merged_name_with_nothing_below_does_not_end_a_search() {
    let directories = ["/", "/a", "/a/b", "/a/b/c", "/a-b"];
    assert_eq!(search("a-b-c", &directories).0.as_deref(), Some("/a/b/c"));
    assert_eq!(search("a-b-c", &["/", "/a-b", "/a_b", "/a_b/c"]).0.as_deref(), Some("/a_b/c"));
    assert_eq!(search("a-b-c", &["/", "/a", "/a/b", "/a/b/c", "/a-b", "/a-b/c"]).0, None);
    assert_eq!(search("a-b-c", &["/", "/a-b"]).0, None);
}

#[test]
fn a_search_asks_a_bounded_number_of_questions() {
    let names = "abcdefghijklmnopqrstuvwxyz".chars().map(String::from).collect::<Vec<_>>();
    let mut answers = Vec::new();
    let mut asked = 0;
    while let Decoding::Ask(path) = decode_cur_project_path(&names.join("-"), "/", &answers) {
        asked += 1;
        answers.push(path.matches('/').count() < 25);
    }
    assert!(asked <= MAX_CUR_PROJECT_PATH_PROBES);
}

#[test]
fn a_drive_is_a_letter_before_a_dash() {
    assert_eq!(
        decode_cur_windows_project_drive("C-Users-me"),
        Some(('C', "Users-me".to_string()))
    );
    assert_eq!(decode_cur_windows_project_drive("c-"), Some(('c', String::new())));
    for encoded in ["", "c", "1-x", "cd-x", "é-x"] {
        assert_eq!(decode_cur_windows_project_drive(encoded), None);
    }
}

fn entry(name: &str, kind: EntryKind) -> DirectoryEntry {
    DirectoryEntry { name: name.to_string(), kind }
}

#[test]
fn a_walk_finds_transcripts_outside_of_subagents() {
    let mut walk = Walk::start("/root");
    assert_eq!(walk.next_directory().as_deref(), Some("/root"));
    walk.list(
        "/root",
        &vec![
            entry("b.jsonl", EntryKind::File),
            entry("a", EntryKind::Directory),
            entry("subagents", EntryKind::Directory),
            entry("notes.txt", EntryKind::File),
            entry(".jsonl", EntryKind::File),
            entry("link.jsonl", EntryKind::Other),
        ],
    );
    assert_eq!(walk.next_directory().as_deref(), Some("/root/a"));
    walk.list("/root/a", &vec![entry("z.jsonl", EntryKind::File)]);
    assert_eq!(walk.next_directory(), None);
    let files = walk.finish();
    assert_eq!(files, ["/root/a/z.jsonl", "/root/b.jsonl"]);
    let candidates = session_candidates(&vec![
        ProjectTranscripts { cwd: Some("/work".to_string()), files },
        ProjectTranscripts { cwd: None, files: vec!["/other/c.jsonl".to_string()] },
    ]);
    assert_eq!(candidates.len(), 3);
    assert_eq!(candidates[0].fallback_cwd.as_deref(), Some("/work"));
    assert_eq!(candidates[2].path, "/other/c.jsonl");
    assert_eq!(candidates[2].fallback_cwd, None);
}

#[test]
fn task_commands_dispatch_while_running_and_reject_invalid_capacity() {
    assert_eq!(parallelism_command("", true), ParallelismCommand::Request(None));
    for args in ["4", "0"] {
        match parallelism_command(args, true) {
            ParallelismCommand::Request(Some(value)) => assert_eq!(value.to_string(), args),
            other => panic!("{other:?}"),
        }
    }
    let usage = "Usage: /parallelism [nonnegative integer]; 0 disables enforcement.";
    for args in ["-1", "1.5", "4 extra", "999999999999999999999999999999"] {
        assert_eq!(
            parallelism_command(args, true),
            ParallelismCommand::Refused(usage.to_string())
        );
    }
}

#[test]
fn commands_need_a_session() {
    let refused = ParallelismCommand::Refused("Start a session before using /parallelism.".to_string());
    assert_eq!(parallelism_command("4", false), refused);
    assert_eq!(parallelism_message(0), "Task parallelism is off for this session.");
    assert_eq!(parallelism_message(1), "Task parallelism is 1 slot for this session.");
    assert_eq!(parallelism_message(4), "Task parallelism is 4 slots for this session.");
    assert_eq!(parallelism_trouble("x"), "Could not access task parallelism: x");
    assert_eq!(ledger_trouble("x"), "Could not read task ledger: x");
}

#[test]
fn an_answer_is_shown_only_in_its_session() {
    assert_eq!(parallelism_notice(false, Ok(2)), None);
    assert_eq!(
        parallelism_notice(true, Ok(2)),
        Some(Notice::Info("Task parallelism is 2 slots for this session.".to_string()))
    );
    assert_eq!(
        parallelism_notice(true, Err("x".to_string())),
        Some(Notice::Error("Could not access task parallelism: x".to_string()))
    );
}

#[test]
fn chats_without_a_project_belong_beside_the_home() {
    let beside = Some("/home/user".to_string());
    assert_eq!(
        cur_project_cwd("empty-window", &beside, "/", &Vec::new()),
        Decoding::Done(beside)
    );
    assert_eq!(
        cur_project_cwd("work", &None, "/", &vec![true]),
        Decoding::Done(Some("/work".to_string()))
    );
}

fn pickable(id: &str, label: &str, email: Option<&str>, is_active: bool) -> PickableAccount {
    PickableAccount {
        id: id.to_string(),
        label: label.to_string(),
        is_active,
        account_id: None,
        email: email.map(str::to_string),
        auth_mode: "ApiKey".to_string(),
    }
}

#[test]
fn named_account_picker_filters_by_label_and_selects_stable_id() {
    let items: Vec<SelectionItem> = [
        pickable("local-first", "Personal", Some("personal@example.com"), true),
        pickable("local-second", "Travel", Some("other@example.com"), false),
    ]
    .iter()
    .map(account_item)
    .collect();
    assert!(items[0].is_current && !items[1].is_current);
    assert_eq!(items[0].description, "personal@example.com · ApiKey");
    let selected: Vec<&str> = items
        .iter()
        .filter(|item| item.search_value.contains("Travel"))
        .map(|item| item.account_id.as_str())
        .collect();
    assert_eq!(selected, ["local-second"]);
    let unknown = account_item(&pickable("id", "Label", None, false));
    assert_eq!(unknown.search_value, "Label id no provider identity");
}

#[test]
fn a_table_keeps_its_keys_in_order() {
    let mut table: Table<String> = Table::new();
    assert!(table.is_empty());
    for key in ["b", "a", "c", "b"] {
        table.insert(key.to_string(), format!("value {key}"));
    }
    assert_eq!(table.len(), 3);
    assert_eq!(table.key(0), "a");
    assert_eq!(table.value(2), "value c");
    assert_eq!(table.get("b").map(String::as_str), Some("value b"));
    assert_eq!(table.remove("b").as_deref(), Some("value b"));
    assert_eq!(table.get("b"), None);
}
