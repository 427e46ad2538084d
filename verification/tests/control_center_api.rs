use kaic_backend::agent_loop::{
    check_arguments, conclude, is_media_task, note_tools, note_unreachable_server, AgentAction,
    AgentLoop, CallArguments, LoopOutcome, MAX_TOOL_ITERATIONS,
};
use kaic_backend::clock::Timestamp;
use kaic_backend::control_center_api::{
    approved_pending_call, cancel_task, context_to_messages, continue_task, create_task,
    fail_task, get_task, note, parse_tool_request, pause_task, pending_tool_request,
    record_outcome, tool_decision, ApiError, LATE_RESULT, TOOL_APPROVAL_ROLE, TOOL_REQUEST_ROLE,
    TOOL_ROLE,
};
use kaic_backend::json::JsonShape;
use kaic_backend::model_backend::{GenerateResponse, Message, Role, ToolCall};
use kaic_backend::task_store::{ContextEntry, TaskStatus, TaskStore};

const NOW: Timestamp = Timestamp { seconds: 1_700_000_000, nanos: 0 };
const LATER: Timestamp = Timestamp { seconds: 1_700_000_009, nanos: 0 };
const ID: u128 = 0x0123_4567_89ab_cdef_0123_4567_89ab_cdef;

fn entry(role: &str, content: &str, call: Option<&str>) -> ContextEntry {
    ContextEntry {
        role: role.to_string(),
        content: content.to_string(),
        at: NOW,
        tool_call_id: call.map(|c| c.to_string()),
    }
}

fn call(id: &str, name: &str, arguments: &str) -> ToolCall {
    ToolCall {
        id: id.to_string(),
        name: name.to_string(),
        arguments: arguments.to_string(),
    }
}

fn stored(category: &str) -> TaskStore {
    let mut store = TaskStore::new();
    store.create(ID, category, NOW).unwrap();
    store
}

fn append(store: &mut TaskStore, e: ContextEntry) {
    store.append_context(ID, e, NOW).unwrap();
}

fn status_of(store: &TaskStore) -> TaskStatus {
    store.get(ID).expect("задача существует").status
}

fn contents(store: &TaskStore) -> Vec<(&str, &str)> {
    store.get(ID).unwrap().context.iter().map(|e| (&e.role[..], &e.content[..])).collect()
}

fn accepted<T>(r: Result<T, ApiError>) -> T {
    match r {
        Ok(v) => v,
        Err(e) => panic!("{:?}", e.reply()),
    }
}

fn refused<T>(r: Result<T, ApiError>) -> (u16, String) {
    match r {
        Ok(_) => panic!("обязано отказать"),
        Err(e) => e.reply(),
    }
}

fn begin(
    store: &mut TaskStore,
    journal: &mut String,
    messages: Vec<Message>,
    allowed: &[&str],
    server: Option<&str>,
) -> (AgentLoop, AgentAction) {
    AgentLoop::start(
        store,
        journal,
        ID,
        messages,
        allowed.iter().map(|a| a.to_string()).collect(),
        server.map(|s| s.to_string()),
        "Fake".to_string(),
        NOW,
    )
}

fn settle(store: &mut TaskStore, action: AgentAction) {
    match action {
        AgentAction::Finished(outcome) => conclude(store, ID, Ok(outcome), LATER),
        AgentAction::Failed(reason) => conclude(store, ID, Err(reason), LATER),
        _ => panic!("цикл ещё не окончен"),
    }
}

#[test]
fn a_cancelled_task_stays_cancelled_after_the_generation_finishes() {
    let mut store = stored("Simple");
    let mut journal = String::new();
    let (mut rounds, action) = begin(&mut store, &mut journal, Vec::new(), &[], None);
    assert!(matches!(action, AgentAction::Generate));

    accepted(cancel_task(&mut store, ID, NOW));
    assert_eq!(
        status_of(&store),
        TaskStatus::Cancelled,
        "отмена не записалась — проверять дальше нечего"
    );

    let answer = GenerateResponse::Text("ответ модели".to_string());
    let action = rounds.generated(&mut store, &mut journal, answer, LATER);
    settle(&mut store, action);

    assert_eq!(
        status_of(&store),
        TaskStatus::Cancelled,
        "завершившаяся генерация переписала отмену"
    );
}

#[test]
fn work_finished_after_a_cancel_is_kept_but_not_as_the_answer() {
    let mut store = stored("Simple");
    let mut journal = String::new();
    let (mut rounds, _) = begin(&mut store, &mut journal, Vec::new(), &[], None);
    accepted(cancel_task(&mut store, ID, NOW));
    let answer = GenerateResponse::Text("ответ модели".to_string());
    let action = rounds.generated(&mut store, &mut journal, answer, LATER);
    settle(&mut store, action);

    let context = &store.get(ID).unwrap().context;
    assert!(
        context.iter().all(|e| e.role != "assistant"),
        "результат отменённой задачи лёг ответом — Telegram отправит его человеку"
    );
    let trace = context
        .iter()
        .find(|e| e.content.contains("ответ модели"))
        .expect("работа, которую сделал GPU, обязана оставить след");
    assert_eq!(trace.role, "system");
    assert!(
        trace.content.contains("отменена"),
        "след не объясняет, почему это не ответ: {}",
        trace.content
    );
    assert_eq!(trace.content, format!("{LATE_RESULT}ответ модели"));
}

#[test]
fn a_human_command_can_still_move_a_cancelled_task() {
    let mut store = stored("Simple");
    accepted(cancel_task(&mut store, ID, NOW));
    assert_eq!(status_of(&store), TaskStatus::Cancelled);

    store.set_status(ID, TaskStatus::Running, NOW);
    assert_eq!(status_of(&store), TaskStatus::Running);
}

#[test]
fn a_looping_model_hits_the_step_limit_and_fails_out_loud() {
    let mut store = stored("Simple");
    let mut journal = String::new();
    let said = vec![Message::new(Role::User, "сделай что-нибудь".to_string())];
    note_unreachable_server(&mut store, ID, "нет конфига", NOW);
    let (mut rounds, first) = begin(&mut store, &mut journal, said, &[], None);
    assert!(matches!(first, AgentAction::Generate));
    let asked = GenerateResponse::ToolCalls(vec![call("call_0", "get_scene_info", "{}")]);
    let action = rounds.generated(&mut store, &mut journal, asked, NOW);
    settle(&mut store, action);

    assert_eq!(status_of(&store), TaskStatus::Failed, "задача обязана упасть");
    let reason = store
        .get(ID)
        .unwrap()
        .context
        .iter()
        .find(|e| e.content.starts_with("Ошибка:"))
        .expect("причина обязана быть в контексте задачи");
    assert!(
        reason.content.contains("MCP-сервер недоступен"),
        "причина не называет, что произошло: {}",
        reason.content
    );
}

#[test]
fn a_model_that_only_calls_tools_is_stopped() {
    let mut store = stored("Simple");
    let mut journal = String::new();
    let (mut rounds, mut action) =
        begin(&mut store, &mut journal, Vec::new(), &["look"], Some("blender"));
    let mut asked = 0;
    let reason = loop {
        action = match action {
            AgentAction::Generate => {
                asked += 1;
                let wish = vec![call(&format!("call_{asked}"), "look", "{}")];
                rounds.generated(&mut store, &mut journal, GenerateResponse::ToolCalls(wish), NOW)
            }
            AgentAction::Call { name, arguments } => {
                assert_eq!(name, "look");
                assert_eq!(arguments.as_deref(), Some("{}"));
                rounds.tool_returned(&mut store, &mut journal, Ok("видно".to_string()), NOW)
            }
            AgentAction::Failed(reason) => break reason,
            AgentAction::Finished(_) => panic!("модель не отвечала"),
        };
    };
    assert_eq!(asked, MAX_TOOL_ITERATIONS);
    assert_eq!(
        reason,
        "модель не завершила задачу за 8 шагов вызова инструментов на модели 'Fake' — \
         цикл прерван, чтобы не крутиться бесконечно"
    );
    assert_eq!(journal.lines().count(), 8);
    // Each call got its result, and the model was told of it.
    assert_eq!(rounds.request(Vec::new()).messages.len(), 16);
}

#[test]
fn a_refusal_reaches_the_model_as_a_tool_result() {
    let mut store = stored("Simple");
    append(
        &mut store,
        entry(
            TOOL_REQUEST_ROLE,
            r#"{"name":"execute_blender_code","arguments":"{\"code\":\"import os\"}"}"#,
            Some("call_9"),
        ),
    );
    store.set_status(ID, TaskStatus::WaitingForHuman, NOW);

    let found = pending_tool_request(&store.get(ID).unwrap().context).expect("ожидающий вызов найден");
    assert_eq!(found.name, "execute_blender_code");
    assert_eq!(found.arguments, "{\"code\":\"import os\"}");

    let mut journal = String::new();
    let launch = accepted(tool_decision(&mut store, &mut journal, ID, false, LATER));
    assert_eq!(launch.category, "Simple");

    let context = &store.get(ID).unwrap().context;
    let refusal = context
        .iter()
        .find(|e| e.role == TOOL_ROLE && e.tool_call_id.as_deref() == Some("call_9"))
        .expect("отказ обязан лечь ролью tool с тем же tool_call_id");
    assert!(
        refusal.content.contains("ОТКАЗАНО ЧЕЛОВЕКОМ"),
        "модель не поймёт, что это отказ: {}", refusal.content
    );
    assert!(pending_tool_request(context).is_none());

    let told = launch.messages.last().unwrap();
    assert_eq!(told.role, Role::Tool);
    assert_eq!(told.tool_call_id.as_deref(), Some("call_9"));
    assert_eq!(told.content, refusal.content);
    assert_eq!(status_of(&store), TaskStatus::Running);
    assert!(journal.contains(r#""outcome":"denied_by_human""#), "{journal}");
    assert!(journal.contains(r#""result":"отказ человека""#), "{journal}");
    assert!(journal.contains(r#""approved_by":null"#), "{journal}");
}

#[test]
fn an_approval_is_recorded_and_consumed_once() {
    let mut store = stored("Simple");
    append(
        &mut store,
        entry(TOOL_REQUEST_ROLE, r#"{"name":"get_scene_info","arguments":"{}"}"#, Some("call_5")),
    );
    assert!(approved_pending_call(&store.get(ID).unwrap().context).is_none());

    append(&mut store, entry(TOOL_APPROVAL_ROLE, "человек подтвердил", Some("call_5")));
    assert!(
        approved_pending_call(&store.get(ID).unwrap().context).is_some(),
        "подтверждение не увидено"
    );

    append(&mut store, entry(TOOL_ROLE, "{}", Some("call_5")));
    assert!(
        approved_pending_call(&store.get(ID).unwrap().context).is_none(),
        "подтверждённый вызов исполнился бы на каждом круге"
    );
}

#[test]
fn a_permitted_call_is_executed_first_when_the_task_goes_on() {
    let mut store = stored("Simple");
    let mut journal = String::new();
    append(
        &mut store,
        entry(TOOL_REQUEST_ROLE, r#"{"name":"act","arguments":"{\"a\":1}"}"#, Some("call_5")),
    );
    let launch = accepted(tool_decision(&mut store, &mut journal, ID, true, NOW));
    assert_eq!(journal, "");
    assert_eq!(contents(&store).last(), Some(&(TOOL_APPROVAL_ROLE, "человек подтвердил вызов 'act'")));

    let (mut rounds, action) =
        begin(&mut store, &mut journal, launch.messages, &[], Some("blender"));
    match action {
        AgentAction::Call { name, arguments } => {
            assert_eq!(name, "act");
            assert_eq!(arguments.as_deref(), Some("{\"a\":1}"));
        }
        _ => panic!("подтверждённый вызов обязан исполниться первым"),
    }
    let action = rounds.tool_returned(&mut store, &mut journal, Err("сеть".to_string()), LATER);
    assert!(matches!(action, AgentAction::Generate));
    assert_eq!(contents(&store).last(), Some(&(TOOL_ROLE, "ОШИБКА ИНСТРУМЕНТА: сеть")));
    assert!(approved_pending_call(&store.get(ID).unwrap().context).is_none());

    // Without a server the permitted call cannot be executed.
    let mut other = stored("Simple");
    append(&mut other, entry(TOOL_REQUEST_ROLE, r#"{"name":"act","arguments":""}"#, Some("c")));
    append(&mut other, entry(TOOL_APPROVAL_ROLE, "", Some("c")));
    let (_, action) = begin(&mut other, &mut journal, Vec::new(), &[], None);
    match action {
        AgentAction::Failed(reason) => {
            assert_eq!(reason, "вызов подтверждён, но MCP-сервер недоступен")
        }
        _ => panic!("без сервера вызов не исполнить"),
    }
}

#[test]
fn a_call_nobody_permitted_waits_for_a_decision() {
    let mut store = stored("Simple");
    let mut journal = String::new();
    let (mut rounds, _) = begin(&mut store, &mut journal, Vec::new(), &["look"], Some("blender"));
    let wish = vec![call("c1", "look", "  "), call("c2", "act", "{}")];
    let action =
        rounds.generated(&mut store, &mut journal, GenerateResponse::ToolCalls(wish), NOW);
    match action {
        AgentAction::Call { name, arguments } => {
            assert_eq!(name, "look");
            assert_eq!(arguments, None);
        }
        _ => panic!("разрешённый вызов обязан исполниться"),
    }
    let action = rounds.tool_returned(&mut store, &mut journal, Ok("куб".to_string()), NOW);
    assert!(matches!(action, AgentAction::Finished(LoopOutcome::AwaitingHuman)));
    settle(&mut store, action);
    assert_eq!(status_of(&store), TaskStatus::WaitingForHuman);
    let pending = pending_tool_request(&store.get(ID).unwrap().context).unwrap();
    assert_eq!((pending.id.as_str(), pending.name.as_str()), ("c2", "act"));
}

#[test]
fn arguments_that_are_no_object_reach_the_model_as_an_error() {
    let bad = call("c", "look", "[1]");
    match check_arguments(&bad, Ok((JsonShape::Array, "[1]".to_string()))) {
        CallArguments::NoObject(reason) => {
            assert_eq!(reason, "аргументы инструмента 'look' не объект JSON, а [1]")
        }
        _ => panic!("массив — не объект"),
    }
    let null = call("c", "look", "null");
    let none = check_arguments(&null, Ok((JsonShape::Null, "null".to_string())));
    assert!(matches!(none, CallArguments::Usable(None)));

    let mut store = stored("Simple");
    let mut journal = String::new();
    let (mut rounds, _) = begin(&mut store, &mut journal, Vec::new(), &["look"], Some("s"));
    let wish = vec![call("c1", "look", "[1, 2]"), call("c2", "look", "{oops")];
    let action =
        rounds.generated(&mut store, &mut journal, GenerateResponse::ToolCalls(wish), NOW);
    assert!(matches!(action, AgentAction::Generate));
    let messages = rounds.request(Vec::new()).messages;
    assert_eq!(messages.len(), 3);
    assert_eq!(
        messages[1].content,
        "ОШИБКА ИНСТРУМЕНТА: аргументы инструмента 'look' не объект JSON, а [1,2]"
    );
    assert!(messages[2]
        .content
        .starts_with("ОШИБКА ИНСТРУМЕНТА: аргументы не разобрались как JSON ("));
    assert!(messages[2].content.ends_with("); пришло: {oops"));
    // Only the first call was handed on: it has a result in the task, and a line on
    // its failure. Of the other one there is a note.
    let results: Vec<&ContextEntry> =
        store.get(ID).unwrap().context.iter().filter(|e| e.role == TOOL_ROLE).collect();
    assert_eq!(results.len(), 1);
    assert_eq!(results[0].tool_call_id.as_deref(), Some("c1"));
    assert_eq!(journal.lines().count(), 1);
    assert!(journal.contains(r#""outcome":"failed""#), "{journal}");
    assert_eq!(contents(&store).last(), Some(&("system", &messages[2].content[..])));
}

#[test]
fn a_permitted_call_with_broken_arguments_is_not_made() {
    let mut store = stored("Simple");
    let mut journal = String::new();
    append(&mut store, entry(TOOL_REQUEST_ROLE, r#"{"name":"act","arguments":"{oops"}"#, Some("c")));
    append(&mut store, entry(TOOL_APPROVAL_ROLE, "да", Some("c")));
    let (rounds, action) = begin(&mut store, &mut journal, Vec::new(), &[], Some("s"));
    assert!(matches!(action, AgentAction::Generate));
    assert_eq!(journal, "");
    let told = rounds.request(Vec::new()).messages;
    assert_eq!(told[0].tool_call_id.as_deref(), Some("c"));
    assert_eq!(contents(&store).last(), Some(&("system", &told[0].content[..])));
}

#[test]
fn a_reused_identifier_can_be_decided_on_but_is_not_executed() {
    let mut store = stored("Simple");
    let mut journal = String::new();
    append(&mut store, entry(TOOL_ROLE, "прежний результат", Some("c")));
    append(&mut store, entry(TOOL_REQUEST_ROLE, r#"{"name":"act","arguments":"{}"}"#, Some("c")));
    assert!(pending_tool_request(&store.get(ID).unwrap().context).is_some());
    accepted(tool_decision(&mut store, &mut journal, ID, true, NOW));
    assert!(approved_pending_call(&store.get(ID).unwrap().context).is_none());
}

#[test]
fn a_parked_tool_request_rebuilds_into_an_assistant_message() {
    let context = vec![
        entry("user", "сделай", None),
        entry(TOOL_REQUEST_ROLE, r#"{"name":"get_scene_info","arguments":"{}"}"#, Some("call_3")),
        entry(TOOL_ROLE, "результат", Some("call_3")),
    ];

    let messages = context_to_messages(&context);
    assert_eq!(messages.len(), 3);
    assert_eq!(messages[1].tool_calls.len(), 1, "запрос вызова не восстановлен");
    assert_eq!(messages[1].tool_calls[0].id, "call_3");
    assert_eq!(messages[1].tool_calls[0].name, "get_scene_info");
    assert_eq!(messages[2].tool_call_id.as_deref(), Some("call_3"));
}

#[test]
fn other_entries_become_plain_messages() {
    let messages = context_to_messages(&vec![
        entry("assistant", "ответ", None),
        entry("artifact", "/x.mp4", None),
        entry("tool", "без вызова", None),
        entry(TOOL_REQUEST_ROLE, "не JSON", Some("c")),
    ]);
    assert_eq!(messages[0].role, Role::Assistant);
    assert_eq!(messages[1].role, Role::System);
    assert_eq!(messages[2].role, Role::System);
    assert_eq!(messages[3].role, Role::System);
    assert_eq!(messages[3].content, "не JSON");
    assert_eq!(parse_tool_request("{\"name\":\"x\"}"), None);
    assert_eq!(
        parse_tool_request("{\"arguments\":\"{}\",\"name\":\"x\"}"),
        Some(("x".to_string(), "{}".to_string()))
    );
}

#[test]
fn the_step_limit_is_a_real_bound_not_a_formality() {
    assert!(MAX_TOOL_ITERATIONS >= 4, "предел меньше измеренных цепочек");
    assert!(MAX_TOOL_ITERATIONS <= 16, "предел уже не ограничивает");
}

#[test]
fn a_task_nobody_cancelled_still_reaches_done() {
    let mut store = stored("Simple");
    let mut journal = String::new();
    let (mut rounds, _) = begin(&mut store, &mut journal, Vec::new(), &[], None);
    let answer = GenerateResponse::Text("ответ модели".to_string());
    let action = rounds.generated(&mut store, &mut journal, answer, NOW);
    settle(&mut store, action);

    assert_eq!(status_of(&store), TaskStatus::Done, "неотменённая задача обязана дойти до Done");
    assert_eq!(contents(&store), vec![("assistant", "ответ модели")]);
}

#[test]
fn a_new_task_is_running_and_remembers_what_was_said() {
    let mut store = TaskStore::new();
    let text = "напиши код на rust".to_string();
    let launch = accepted(create_task(&mut store, ID, text, None, Some(true), NOW));
    assert_eq!(launch.category, "Programming");
    assert!(launch.allow_manual);
    assert_eq!(launch.messages.len(), 1);
    assert_eq!(launch.messages[0].role, Role::User);
    assert_eq!(contents(&store), vec![("user", "напиши код на rust")]);
    let task = accepted(get_task(&store, ID));
    assert_eq!(task.status, TaskStatus::Running);

    let again = create_task(&mut store, ID, "x".to_string(), Some("Video".to_string()), None, NOW);
    assert_eq!(
        refused(again),
        (500, "не удалось вставить задачу в Task Store".to_string())
    );
    let other = create_task(&mut store, 7, "x".to_string(), Some("Video".to_string()), None, NOW);
    assert_eq!(accepted(other).category, "Video");
    assert!(is_media_task("Video") && !is_media_task("Simple"));
}

#[test]
fn a_task_is_paused_and_goes_on() {
    let mut store = stored("Simple");
    store.set_pending_telegram_message(ID, Some(5), NOW);
    accepted(pause_task(&mut store, ID, NOW));
    assert_eq!(status_of(&store), TaskStatus::Paused);
    let launch = accepted(continue_task(&mut store, ID, Some("дальше".to_string()), None, LATER));
    assert!(!launch.allow_manual);
    assert_eq!(launch.messages.len(), 1);
    assert_eq!(status_of(&store), TaskStatus::Running);
    let task = store.get(ID).unwrap();
    assert_eq!(task.pending_telegram_message_id, None);
    assert_eq!(task.updated_at, LATER);
    let launch = accepted(continue_task(&mut store, ID, None, Some(true), LATER));
    assert_eq!(launch.messages.len(), 1);
}

#[test]
fn what_is_not_there_is_not_found() {
    let mut store = TaskStore::new();
    let mut journal = String::new();
    let missing = (404, "задача не найдена".to_string());
    assert_eq!(refused(get_task(&store, ID)), missing);
    assert_eq!(refused(pause_task(&mut store, ID, NOW)), missing);
    assert_eq!(refused(cancel_task(&mut store, ID, NOW)), missing);
    assert_eq!(refused(continue_task(&mut store, ID, None, None, NOW)), missing);
    assert_eq!(refused(tool_decision(&mut store, &mut journal, ID, true, NOW)), missing);

    let mut idle = stored("Simple");
    assert_eq!(
        refused(tool_decision(&mut idle, &mut journal, ID, true, NOW)),
        (404, "у задачи нет вызова инструмента, ожидающего решения".to_string())
    );
    assert_eq!(ApiError::BadRequest("так нельзя".to_string()).reply(), (400, "так нельзя".to_string()));
    assert_eq!(ApiError::Internal("сбой".to_string()).reply(), (500, "сбой".to_string()));
}

#[test]
fn a_failure_names_its_reason_and_respects_a_cancel() {
    let mut store = stored("Simple");
    note(&mut store, ID, "начал".to_string(), NOW);
    assert!(fail_task(&mut store, ID, "нет модели", NOW));
    assert_eq!(contents(&store), vec![("system", "начал"), ("system", "Ошибка: нет модели")]);
    assert_eq!(status_of(&store), TaskStatus::Failed);

    let mut cancelled = stored("Simple");
    accepted(cancel_task(&mut cancelled, ID, NOW));
    assert!(!fail_task(&mut cancelled, ID, "нет модели", NOW));
    assert_eq!(status_of(&cancelled), TaskStatus::Cancelled);
    assert_eq!(contents(&cancelled), vec![("system", "Ошибка: нет модели")]);

    let mut running = stored("Simple");
    assert!(record_outcome(&mut running, ID, TaskStatus::Done, "да".to_string(), NOW));
    assert_eq!(contents(&running), vec![("assistant", "да")]);
}

#[test]
fn the_tools_of_a_server_are_noted() {
    let mut store = stored("Simple");
    let tools = vec!["look".to_string(), "act".to_string()];
    note_tools(&mut store, ID, "blender", &tools, &Vec::new(), NOW);
    note_tools(&mut store, ID, "blender", &tools, &vec!["look".to_string()], NOW);
    note_unreachable_server(&mut store, ID, "нет", NOW);
    assert_eq!(
        contents(&store),
        vec![
            (
                "system",
                "инструменты от 'blender': look, act. Без подтверждения разрешены: \
                 ничего — каждый вызов требует решения человека"
            ),
            (
                "system",
                "инструменты от 'blender': look, act. Без подтверждения разрешены: look"
            ),
            ("system", "MCP-сервер недоступен (нет); работаю без инструментов"),
        ]
    );
}
