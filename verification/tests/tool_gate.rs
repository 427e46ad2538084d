use kaic_backend::clock::Timestamp;
use kaic_backend::model_backend::ToolCall;
use kaic_backend::tool_gate::{
    append_audit, approve_by_human, decide, describe, Approval, Decision, Outcome, AUDIT_LOG_PATH,
};

fn call(name: &str) -> ToolCall {
    ToolCall {
        id: "call_1".to_string(),
        name: name.to_string(),
        arguments: "{}".to_string(),
    }
}

const NOW: Timestamp = Timestamp { seconds: 1_700_000_000, nanos: 0 };

#[test]
fn an_empty_allowlist_asks_about_everything() {
    assert!(matches!(
        decide(&vec![], call("get_scene_info")),
        Decision::NeedsHuman(_)
    ));
}

#[test]
fn only_an_exact_name_passes() {
    let allow = vec!["get_scene_info".to_string()];
    assert!(matches!(
        decide(&allow, call("get_scene_info")),
        Decision::Approved(_)
    ));
    assert!(matches!(
        decide(&allow, call("execute_blender_code")),
        Decision::NeedsHuman(_)
    ));
}

#[test]
fn no_name_heuristics_whatsoever() {
    let allow = vec!["get_scene_info".to_string()];
    for probe in [
        "get_viewport_screenshot",
        "get_",
        "Get_Scene_Info",
        "GET_SCENE_INFO",
        "get_scene_info_2",
        " get_scene_info",
    ] {
        assert!(
            matches!(decide(&allow, call(probe)), Decision::NeedsHuman(_)),
            "'{probe}' прошёл без подтверждения"
        );
    }
}

#[test]
fn who_approved_is_recorded() {
    let allow = vec!["get_scene_info".to_string()];
    let Decision::Approved(approved) = decide(&allow, call("get_scene_info")) else {
        panic!("должно было разрешиться");
    };
    assert_eq!(approved.approved_by(), Approval::Allowlist);
    assert_eq!(approve_by_human(call("что_угодно")).approved_by(), Approval::Human);
}

#[test]
fn a_human_refusal_is_written_to_the_journal_too() {
    let mut log = String::new();
    let mut c = call("execute_blender_code");
    c.arguments = "{\"code\":\"import os\\nos.remove('x')\"}".to_string();

    assert!(append_audit(
        &mut log,
        NOW,
        "task-1",
        "BlenderMCP",
        &c,
        None,
        Outcome::DeniedByHuman,
        "отказ",
    ));
    assert!(append_audit(
        &mut log,
        NOW,
        "task-1",
        "BlenderMCP",
        &call("get_scene_info"),
        Some(Approval::Allowlist),
        Outcome::Executed,
        "ok",
    ));

    let lines: Vec<&str> = log.lines().collect();
    assert_eq!(lines.len(), 2, "журнал только дозаписывается");

    let denied: serde_json::Value = serde_json::from_str(lines[0]).unwrap();
    assert_eq!(denied["outcome"], "denied_by_human");
    assert_eq!(denied["approved_by"], serde_json::Value::Null);
    assert_eq!(denied["tool"], "execute_blender_code");
    assert_eq!(denied["arguments"], c.arguments);

    let executed: serde_json::Value = serde_json::from_str(lines[1]).unwrap();
    assert_eq!(executed["outcome"], "executed");
    assert_eq!(executed["approved_by"], "allowlist");
    assert_eq!(executed["at"], "2023-11-14T22:13:20+00:00");
    assert_eq!(executed["task"], "task-1");
    assert_eq!(executed["server"], "BlenderMCP");
    assert_eq!(executed["tool_call_id"], "call_1");
    assert_eq!(executed["result"], "ok");
}

#[test]
fn the_human_sees_the_arguments_whole() {
    let long = format!("{{\"code\":\"{}\"}}", "x".repeat(4000));
    let mut c = call("execute_blender_code");
    c.arguments = long.clone();

    let text = describe("BlenderMCP", &c);
    assert!(text.contains(&long), "аргументы обрезаны");
    assert!(text.contains("execute_blender_code"));
    assert!(text.contains("BlenderMCP"));
    assert!(text.contains(&long.chars().count().to_string()));
}

#[test]
fn the_description_reads_as_a_whole() {
    assert_eq!(
        describe("s", &call("t")),
        "Требуется подтверждение вызова инструмента.\nСервер: s\nИнструмент: t\n\
         Аргументы (2 символов):\n{}\n\n\
         Подтвердить: POST /tasks/<id>/tool-decision {\"approve\": true}\n\
         Отказать:    POST /tasks/<id>/tool-decision {\"approve\": false}"
    );
}

#[test]
fn a_time_that_cannot_be_written_leaves_the_journal_alone() {
    let mut log = "before\n".to_string();
    let never = Timestamp { seconds: i64::MAX, nanos: 0 };
    assert!(!append_audit(
        &mut log,
        never,
        "t",
        "s",
        &call("x"),
        Some(Approval::Human),
        Outcome::Failed,
        "",
    ));
    assert_eq!(log, "before\n");
}

#[test]
fn the_words_of_the_journal() {
    assert_eq!(Approval::Human.as_str(), "human");
    assert_eq!(Approval::Allowlist.as_str(), "allowlist");
    assert_eq!(Outcome::Executed.as_str(), "executed");
    assert_eq!(Outcome::Failed.as_str(), "failed");
    assert_eq!(Outcome::DeniedByHuman.as_str(), "denied_by_human");
    assert_eq!(AUDIT_LOG_PATH, ".kaic/tool-audit.log");
}

#[test]
fn a_record_takes_one_line_whatever_it_holds() {
    let mut log = String::new();
    let mut c = call("t\n\"x\"");
    c.arguments = "a\r\nb\tc\u{1}".to_string();
    append_audit(&mut log, NOW, "t", "s\n", &c, None, Outcome::Failed, "\n\n");
    assert_eq!(log.matches('\n').count(), 1);
    let record: serde_json::Value = serde_json::from_str(&log).unwrap();
    assert_eq!(record["arguments"], c.arguments);
    assert_eq!(record["result"], "\n\n");
}
