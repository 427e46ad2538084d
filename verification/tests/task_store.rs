use kaic_backend::clock::Timestamp;
use kaic_backend::task_store::{
    raw_to_task, task_to_raw, ContextEntry, RawRow, TaskStatus, TaskStore,
};

fn at(seconds: i64) -> Timestamp {
    Timestamp { seconds, nanos: 0 }
}

fn entry(role: &str, content: &str) -> ContextEntry {
    ContextEntry {
        role: role.to_string(),
        content: content.to_string(),
        at: at(1),
        tool_call_id: None,
    }
}

#[test]
fn create_and_get_roundtrip() {
    let mut store = TaskStore::new();
    store.create(7, "Programming", at(1)).unwrap();

    let loaded = store.get(7).unwrap();
    assert_eq!(loaded.id, 7);
    assert_eq!(loaded.category, "Programming");
    assert_eq!(loaded.status, TaskStatus::Running);
    assert!(loaded.context.is_empty());
    assert_eq!(loaded.created_at, at(1));
    assert_eq!(loaded.pending_telegram_message_id, None);
}

#[test]
fn get_unknown_id_returns_none() {
    let store = TaskStore::new();
    assert!(store.get(1).is_none());
}

#[test]
fn set_status_persists() {
    let mut store = TaskStore::new();
    store.create(1, "Simple", at(1)).unwrap();
    store.set_status(1, TaskStatus::WaitingForHuman, at(2));

    let loaded = store.get(1).unwrap();
    assert_eq!(loaded.status, TaskStatus::WaitingForHuman);
    assert_eq!(loaded.updated_at, at(2));
}

#[test]
fn append_context_accumulates_entries() {
    let mut store = TaskStore::new();
    store.create(1, "Video", at(1)).unwrap();
    store.append_context(1, entry("assistant", "Начал монтаж"), at(2)).unwrap();
    store.append_context(1, entry("user", "Продолжай"), at(3)).unwrap();

    let loaded = store.get(1).unwrap();
    assert_eq!(loaded.context.len(), 2);
    assert_eq!(loaded.context[0].content, "Начал монтаж");
    assert_eq!(loaded.context[1].content, "Продолжай");
}

fn row(created_at: &str) -> RawRow {
    RawRow {
        id: "67e55044-10b1-426f-9247-bb680e5fe0c8".to_string(),
        category: "Programming".to_string(),
        status: "running".to_string(),
        created_at: created_at.to_string(),
        updated_at: "2026-08-10T10:00:05+00:00".to_string(),
        pending_telegram_message_id: Some(5),
    }
}

#[test]
fn tasks_written_before_the_tool_field_still_load() {
    let context = vec![entry("user", "посчитай"), entry("assistant", "готово")];
    let loaded = raw_to_task(row("2026-08-10T10:00:00Z"), Ok(context)).unwrap();
    assert_eq!(loaded.context.len(), 2);
    assert_eq!(loaded.context[0].content, "посчитай");
    assert_eq!(loaded.context[0].tool_call_id, None);
    assert_eq!(loaded.context[1].tool_call_id, None);
}

#[test]
fn a_tool_result_keeps_its_call_id_across_a_reload() {
    let mut store = TaskStore::new();
    store.create(1, "Programming", at(1)).unwrap();
    let mut result = entry("tool", "{\"objects\": 3}");
    result.tool_call_id = Some("call_7".to_string());
    store.append_context(1, result, at(2)).unwrap();

    let task = store.get(1).unwrap();
    let reloaded = raw_to_task(task_to_raw(task).unwrap(), Ok(task.context.clone())).unwrap();
    assert_eq!(reloaded.context[0].tool_call_id.as_deref(), Some("call_7"));
    assert_eq!(reloaded.id, 1);
}

#[test]
fn pending_telegram_message_roundtrip() {
    let mut store = TaskStore::new();
    store.create(9, "Research", at(1)).unwrap();
    store.set_pending_telegram_message(9, Some(42), at(2));

    let found = store.find_by_pending_telegram_message(42).unwrap();
    assert_eq!(found.id, 9);

    store.set_pending_telegram_message(9, None, at(3));
    assert!(store.find_by_pending_telegram_message(42).is_none());
}

#[test]
fn a_row_is_read_as_it_was_written() {
    let task = raw_to_task(row("2026-08-10T12:00:00.25+02:00"), Ok(vec![])).unwrap();
    assert_eq!(task.id, 0x67e5_5044_10b1_426f_9247_bb68_0e5f_e0c8);
    assert_eq!(task.category, "Programming");
    assert_eq!(task.status, TaskStatus::Running);
    assert_eq!(task.created_at, Timestamp { seconds: 1_786_356_000, nanos: 250_000_000 });
    assert_eq!(task.updated_at, at(1_786_356_005));
    assert_eq!(task.pending_telegram_message_id, Some(5));
    let written = task_to_raw(&task).unwrap();
    assert_eq!(written.id, "67e55044-10b1-426f-9247-bb680e5fe0c8");
    assert_eq!(written.status, "running");
    assert_eq!(written.created_at, "2026-08-10T10:00:00.250+00:00");
    assert_eq!(written.updated_at, "2026-08-10T10:00:05+00:00");
}

#[test]
fn a_broken_row_says_what_is_broken() {
    let fails = |row: RawRow| raw_to_task(row, Ok(vec![])).err().unwrap();
    let mut bad = row("2026-08-10T10:00:00Z");
    bad.id = "not-an-id".to_string();
    assert_eq!(fails(bad), "некорректный UUID в базе");
    let mut bad = row("2026-08-10T10:00:00Z");
    bad.status = "sleeping".to_string();
    assert_eq!(fails(bad), "неизвестный статус задачи в базе: 'sleeping'");
    assert_eq!(fails(row("yesterday")), "некорректная дата created_at в базе");
    let mut bad = row("2026-08-10T10:00:00Z");
    bad.updated_at = "today".to_string();
    assert_eq!(fails(bad), "некорректная дата updated_at в базе");
    let err = raw_to_task(row("2026-08-10T10:00:00Z"), Err("не удалось разобрать контекст задачи".to_string()));
    assert_eq!(err.err().unwrap(), "не удалось разобрать контекст задачи");
}

#[test]
fn a_time_that_cannot_be_written_makes_no_row() {
    let mut store = TaskStore::new();
    store.create(1, "Simple", Timestamp { seconds: i64::MAX, nanos: 0 }).unwrap();
    assert!(task_to_raw(store.get(1).unwrap()).is_none());
}

#[test]
fn a_settled_task_is_not_finished_again() {
    let mut store = TaskStore::new();
    store.create(1, "Simple", at(1)).unwrap();
    assert!(store.finish_if_still_running(1, TaskStatus::Done, at(2)));
    assert!(!store.finish_if_still_running(1, TaskStatus::Failed, at(3)));
    assert_eq!(store.get(1).unwrap().status, TaskStatus::Done);
    assert_eq!(store.get(1).unwrap().updated_at, at(2));
    // An order applies all the same.
    store.set_status(1, TaskStatus::Running, at(4));
    assert!(store.finish_if_still_running(1, TaskStatus::Failed, at(5)));
    assert!(!store.finish_if_still_running(2, TaskStatus::Done, at(6)));
}

#[test]
fn tasks_are_listed_from_the_latest_on() {
    let mut store = TaskStore::new();
    store.create(1, "a", at(1)).unwrap();
    store.create(2, "b", at(2)).unwrap();
    store.create(3, "c", at(3)).unwrap();
    store.set_status(1, TaskStatus::Paused, at(4));
    let ids: Vec<u128> = store.list().iter().map(|t| t.id).collect();
    assert_eq!(ids, vec![1, 3, 2]);
}

#[test]
fn an_identifier_is_used_once() {
    let mut store = TaskStore::new();
    store.create(1, "a", at(1)).unwrap();
    assert_eq!(
        store.create(1, "b", at(2)).unwrap_err(),
        "не удалось вставить задачу в Task Store"
    );
    assert_eq!(store.get(1).unwrap().category, "a");
    assert!(store.append_context(5, entry("user", "x"), at(1)).is_err());
}

#[test]
fn every_status_has_its_word() {
    for status in [
        TaskStatus::Running,
        TaskStatus::WaitingForHuman,
        TaskStatus::Paused,
        TaskStatus::Done,
        TaskStatus::Failed,
        TaskStatus::Cancelled,
    ] {
        assert_eq!(TaskStatus::from_str(status.as_str()), Ok(status));
    }
    assert_eq!(TaskStatus::WaitingForHuman.as_str(), "waiting_for_human");
    assert!(TaskStatus::from_str("Running").is_err());
}
