use kaic_backend::clock::Timestamp;
use kaic_backend::control_center_api::ARTIFACT_ROLE;
use kaic_backend::telegram_bridge::{
    append_audit, category_line, check_token, creation_failed, draft_buttons, draft_card,
    hash_text, is_expired, is_video, outgoing, payload, receive, refusal_notes, report, sent_note, short_id, task_url,
    tasks_url, verify, waiting_failed, ApiContextEntry, ApiTask, Approvals, AuditRecord, BotToken,
    OwnerDecision, OwnerGuard, OwnerStep, PendingDraft, Press, Progress, Report, TelegramConfig,
    Verdict, Watch, DONE, DRAFT_ROLE, NO_ANSWER, NO_DRAFT, WORKING,
};
use std::hash::{Hash, Hasher};

const NOW: Timestamp = Timestamp { seconds: 1_700_000_000, nanos: 0 };
const ID: u128 = 0x0123_4567_89ab_cdef_0123_4567_89ab_cdef;

fn task(status: &str, context: &[(&str, &str)]) -> ApiTask {
    ApiTask {
        id: ID,
        category: "Simple".to_string(),
        status: status.to_string(),
        context: context
            .iter()
            .map(|(role, content)| ApiContextEntry {
                role: role.to_string(),
                content: content.to_string(),
            })
            .collect(),
    }
}

fn pending(text: &str) -> PendingDraft {
    PendingDraft {
        task_id: ID,
        text_hash: hash_text(text),
        created_at: NOW,
        target: "этот чат".to_string(),
        origin_chat: 77,
        prompt_message: 3,
    }
}

fn after(seconds: i64) -> Timestamp {
    Timestamp { seconds: NOW.seconds + seconds, nanos: NOW.nanos }
}

/// A file that may be there, and a guard over it.
fn ask(guard: &mut OwnerGuard, file: &mut Option<String>, user: i64) -> OwnerDecision {
    let read = if guard.needs_file() { file.clone() } else { None };
    match guard.authorize(user, read) {
        OwnerStep::Decided(decision) => decision,
        OwnerStep::Store(written) => {
            *file = Some(written);
            guard.stored(user, true)
        }
    }
}

#[test]
fn label_has_default_and_is_configurable() {
    let default = TelegramConfig::default();
    assert!(!default.assistant_label.is_empty());
    assert_eq!(default.assistant_label, "🤖 сообщение от ассистента");

    let custom = TelegramConfig {
        assistant_label: "[бот]".to_string(),
        ..TelegramConfig::default()
    };
    assert_eq!(custom.assistant_label, "[бот]");
    assert_eq!(custom.approval_ttl_seconds, 900);
    assert_eq!(custom.audit_log_path, ".kaic/telegram-audit.log");
}

#[test]
fn hash_detects_any_text_change() {
    let original = "Привет, буду в 18:00.";
    assert_eq!(hash_text(original), hash_text("Привет, буду в 18:00."));
    assert_ne!(hash_text(original), hash_text("Привет, буду в 19:00."));
    assert_ne!(hash_text(original), hash_text("Привет, буду в 18:00. "));
}

#[test]
fn the_hash_is_that_of_the_standard_library() {
    for text in ["", "a", "Привет, буду в 18:00.", "🤖\n\u{0}"] {
        let mut hasher = std::collections::hash_map::DefaultHasher::new();
        text.hash(&mut hasher);
        assert_eq!(hash_text(text), hasher.finish());
    }
}

#[test]
fn label_is_applied_at_send_time_not_stored_in_draft() {
    let draft = "Буду в 18:00.";
    let label = "🤖 сообщение от ассистента";
    let labeled = payload(draft, Some(label));

    assert!(!draft.contains(label));
    assert!(labeled.starts_with(draft));
    assert!(labeled.ends_with(label));
    assert_eq!(labeled, format!("{draft}\n\n{label}"));
    assert_eq!(payload(draft, None), draft);
}

#[test]
fn audit_log_appends_and_never_truncates() {
    let record = |labeled: bool| AuditRecord {
        at: NOW,
        task_id: ID,
        target: "этот\tчат".to_string(),
        text_hash: 0xdead_beef,
        labeled,
        approval_id: 1,
    };
    let mut log = String::new();
    assert!(append_audit(&mut log, &record(true)), "первая запись");
    assert!(append_audit(&mut log, &record(false)), "вторая запись");

    let lines: Vec<&str> = log.lines().collect();
    assert_eq!(lines.len(), 2, "вторая запись не должна затирать первую");
    assert!(lines[0].contains("labeled=true"));
    assert!(lines[1].contains("labeled=false"));
    assert!(lines[0].contains("hash=00000000deadbeef"));
    assert_eq!(
        lines[0],
        "2023-11-14T22:13:20+00:00\ttask=01234567-89ab-cdef-0123-456789abcdef\t\
         target=этот чат\thash=00000000deadbeef\tlabeled=true\tapproval=1"
    );
}

#[test]
fn first_sender_claims_ownership_and_others_are_denied() {
    let mut file = None;
    let mut guard = OwnerGuard::new();
    assert_eq!(ask(&mut guard, &mut file, 1001), OwnerDecision::Claimed);
    assert_eq!(ask(&mut guard, &mut file, 1001), OwnerDecision::Allowed);
    assert_eq!(ask(&mut guard, &mut file, 2002), OwnerDecision::Denied);
    assert_eq!(ask(&mut guard, &mut file, 3003), OwnerDecision::Denied);
}

#[test]
fn ownership_survives_restart() {
    let mut file = None;
    let mut first_run = OwnerGuard::new();
    assert_eq!(ask(&mut first_run, &mut file, 555), OwnerDecision::Claimed);
    assert_eq!(file.as_deref(), Some("555"));

    let mut after_restart = OwnerGuard::new();
    assert_eq!(ask(&mut after_restart, &mut file, 555), OwnerDecision::Allowed);
    assert_eq!(ask(&mut after_restart, &mut file, 777), OwnerDecision::Denied);
}

#[test]
fn unwritable_owner_file_denies_instead_of_running_unclaimed() {
    let mut guard = OwnerGuard::new();
    match guard.authorize(42, None) {
        OwnerStep::Store(written) => assert_eq!(written, "42"),
        OwnerStep::Decided(_) => panic!("владельца ещё нет"),
    }
    assert_eq!(guard.stored(42, false), OwnerDecision::Denied);
    assert!(guard.needs_file());
}

#[test]
fn artifact_role_matches_the_api_contract() {
    assert_eq!(ARTIFACT_ROLE, "artifact");
    assert_ne!(ARTIFACT_ROLE, DRAFT_ROLE);
}

#[test]
fn draft_role_is_distinct_from_assistant_answer() {
    assert_ne!(DRAFT_ROLE, "assistant");
}

#[test]
fn a_bot_needs_a_token() {
    assert!(matches!(check_token(None), BotToken::Missing));
    assert!(matches!(check_token(Some(" \n")), BotToken::Blank));
    assert!(matches!(check_token(Some("x")), BotToken::Usable));
}

#[test]
fn only_the_owner_starts_tasks() {
    let said = || Some("сделай".to_string());
    let denied = receive(OwnerDecision::Denied, said());
    assert_eq!(denied.replies, vec!["Недоступно."]);
    assert_eq!(denied.task, None);
    let claimed = receive(OwnerDecision::Claimed, said());
    assert_eq!(claimed.replies, vec!["Готов к работе."]);
    assert_eq!(claimed.task, said());
    let wordless = receive(OwnerDecision::Allowed, None);
    assert_eq!(wordless.replies, vec!["Понимаю только текст."]);
    assert_eq!(wordless.task, None);
    assert!(receive(OwnerDecision::Allowed, said()).replies.is_empty());
}

#[test]
fn progress_is_shown_line_by_line() {
    let mut progress = Progress::start("раз");
    assert_eq!(progress.step("два".to_string()), "раз\nдва");
    assert_eq!(progress.step(DONE.to_string()), "раз\nдва\n✅ Готово.");
    assert_eq!(
        category_line(&task("running", &[])),
        "📂 Категория: Simple · задача 01234567"
    );
    assert_eq!(short_id(ID), "01234567");
    assert_eq!(creation_failed("x"), "❌ Не удалось создать задачу: x");
    assert_eq!(waiting_failed("x"), "❌ Ошибка ожидания: x");
}

#[test]
fn a_task_is_watched_until_it_is_over() {
    let mut watch = Watch::new();
    assert_eq!(watch.seen("running"), (Some(WORKING), false));
    assert_eq!(watch.seen("running"), (None, false));
    assert_eq!(watch.seen("paused"), (None, false));
    for over in ["done", "failed", "cancelled", "waiting_for_human"] {
        assert_eq!(Watch::new().seen(over), (None, true));
    }
}

#[test]
fn a_report_follows_the_state_of_the_task() {
    let line = |t: &ApiTask| match report(t) {
        Report::Line(l) => l,
        _ => panic!("ожидалась строка"),
    };
    match report(&task("waiting_for_human", &[("draft", "старый"), ("draft", "новый")])) {
        Report::Offer(draft) => assert_eq!(draft, "новый"),
        _ => panic!("черновик обязан уйти на подтверждение"),
    }
    assert_eq!(line(&task("waiting_for_human", &[])), NO_DRAFT);
    match report(&task("done", &[("assistant", "ответ"), ("artifact", "a.mp4")])) {
        Report::Answer { answer, artifact } => {
            assert_eq!(answer, "ответ");
            assert_eq!(artifact.as_deref(), Some("a.mp4"));
        }
        _ => panic!("готовая задача обязана ответить"),
    }
    match report(&task("done", &[])) {
        Report::Answer { answer, artifact } => {
            assert_eq!(answer, NO_ANSWER);
            assert_eq!(artifact, None);
        }
        _ => panic!("готовая задача обязана ответить"),
    }
    assert_eq!(
        line(&task("failed", &[("system", "Ошибка: x")])),
        "❌ Задача завершилась ошибкой: Ошибка: x"
    );
    assert_eq!(
        line(&task("failed", &[])),
        "❌ Задача завершилась ошибкой: причина не записана"
    );
    assert_eq!(line(&task("cancelled", &[])), "ℹ️ Задача в состоянии «cancelled».");
    assert!(is_video(Some("MP4")) && !is_video(Some("mp3")) && !is_video(None));
}

#[test]
fn a_confirmation_is_used_once() {
    let mut approvals = Approvals::new();
    let first = approvals.offer(pending("a"));
    let second = approvals.offer(pending("b"));
    assert_ne!(first, second);
    let (send, raw, edit, cancel) = draft_buttons(second);
    assert_eq!(send.data, format!("snd:{second}"));
    assert_eq!(raw.caption, "Отправить без пометки");
    assert_eq!(edit.data, format!("edt:{second}"));
    assert_eq!(cancel.data, format!("cnl:{second}"));

    match approvals.press(Some(&send.data)) {
        Press::Send { id, draft, labeled } => {
            assert_eq!(id, second);
            assert_eq!(draft.text_hash, hash_text("b"));
            assert!(labeled);
        }
        _ => panic!("кнопка отправки обязана отправлять"),
    }
    assert!(matches!(approvals.press(Some(&send.data)), Press::NotFound));
    let (_, raw, _, cancel) = draft_buttons(first);
    assert!(matches!(approvals.press(Some(&raw.data)), Press::Send { labeled: false, .. }));
    assert!(matches!(approvals.press(Some(&cancel.data)), Press::NotFound));

    let third = approvals.offer(pending("c"));
    assert!(matches!(approvals.press(Some(&format!("cnl:{third}"))), Press::Cancel(_)));
    let fourth = approvals.offer(pending("d"));
    assert!(matches!(approvals.press(Some(&format!("edt:{fourth}"))), Press::Edit(_)));
    for ignored in [None, Some("snd"), Some("snd:x"), Some("snd:-1")] {
        assert!(matches!(approvals.press(ignored), Press::Ignored));
    }
    assert!(approvals.take(99).is_none());
}

#[test]
fn a_press_delivers_once_and_with_the_label_of_its_button() {
    let now = task("waiting_for_human", &[("draft", "Буду.")]);
    for (action, expected) in [("snd", "Буду.\n\n[бот]"), ("raw", "Буду.")] {
        let mut approvals = Approvals::new();
        let id = approvals.offer(pending("Буду."));
        let mut sent = Vec::new();
        for _ in 0..2 {
            if let Press::Send { draft, labeled, .. } = approvals.press(Some(&format!("{action}:{id}"))) {
                let verdict = verify(&draft, 900, after(1), Some(&now));
                sent.extend(outgoing(&verdict, labeled, "[бот]"));
            }
        }
        assert_eq!(sent, vec![expected]);
    }
}

#[test]
fn only_the_text_that_was_shown_is_sent() {
    let shown = pending("Буду в 18:00.");
    let same = task("waiting_for_human", &[("draft", "Буду в 18:00.")]);
    match verify(&shown, 900, after(900), Some(&same)) {
        Verdict::Approved(text) => assert_eq!(text, "Буду в 18:00."),
        _ => panic!("показанный текст обязан уйти"),
    }
    assert!(matches!(verify(&shown, 900, after(901), Some(&same)), Verdict::Expired));
    let other = task("waiting_for_human", &[("draft", "Буду в 19:00.")]);
    assert!(matches!(verify(&shown, 900, after(1), Some(&other)), Verdict::Changed));
    assert!(matches!(verify(&shown, 900, after(1), None), Verdict::Changed));
    let answer = |v: &Verdict| refusal_notes(v).map(|(_, answer)| answer);
    assert_eq!(answer(&Verdict::Expired), Some("Просрочено."));
    assert_eq!(answer(&Verdict::Changed), Some("Черновик изменился."));
    assert_eq!(answer(&Verdict::Approved("x".to_string())), None);
    let approved = Verdict::Approved("Буду.".to_string());
    assert_eq!(outgoing(&approved, true, "[бот]").as_deref(), Some("Буду.\n\n[бот]"));
    assert_eq!(outgoing(&approved, false, "[бот]").as_deref(), Some("Буду."));
    assert_eq!(outgoing(&Verdict::Expired, true, "[бот]"), None);
    assert_eq!(outgoing(&Verdict::Changed, false, "[бот]"), None);
    assert!(!is_expired(&shown, 900, after(900)) && is_expired(&shown, 900, after(901)));
}

#[test]
fn the_draft_is_shown_with_its_label() {
    assert_eq!(
        draft_card("этот чат", "Буду.", "[бот]"),
        "✍️ Черновик\n\nКому: этот чат\n\nБуду.\n\nПометка «[бот]» будет добавлена при отправке."
    );
    assert_eq!(sent_note(true, None), "✅ Отправлено с пометкой ассистента.");
    assert_eq!(sent_note(false, None), "✅ Отправлено БЕЗ пометки (по явному решению).");
    assert_eq!(sent_note(false, Some("сеть")), "❌ Не отправлено: сеть");
    let config = TelegramConfig::default();
    assert_eq!(tasks_url(&config), "http://127.0.0.1:4545/tasks");
    assert_eq!(
        task_url(&config, ID),
        "http://127.0.0.1:4545/tasks/01234567-89ab-cdef-0123-456789abcdef"
    );
}
