use kaic_backend::capability_registry::{CapabilityEntry, CapabilityRegistry};
use kaic_backend::clock::Timestamp;
use kaic_backend::keyed::Keyed;
use kaic_backend::model_backend::{GenerateRequest, Message, Role};
use kaic_backend::model_status::{list_models, set_model_temperature, status};
use kaic_backend::resource_registry::{
    PreferredDevice, ResourceEntry, ResourceRegistry, Temperature,
};
use kaic_backend::scheduler::{
    describe_rejected, fits_in_budget, Effect, Scheduler, Session, MAX_CONCURRENT_TASKS,
};

fn at(seconds: i64) -> Timestamp {
    Timestamp { seconds, nanos: 0 }
}

fn resource(vram_mb: u32, always_loaded: bool) -> ResourceEntry {
    ResourceEntry {
        vram_mb,
        ram_offload_mb: 0,
        load_seconds: 1,
        always_loaded,
        preferred_device: PreferredDevice::Gpu,
        lm_studio_key: None,
        context_length: None,
        max_context_length: None,
        temperature: None,
        path: None,
    }
}

fn category(primary: &str, fallback: &[&str]) -> CapabilityEntry {
    CapabilityEntry {
        primary: primary.to_string(),
        fallback: fallback.iter().map(|m| m.to_string()).collect(),
        manual_only: false,
    }
}

fn build(
    resources: Vec<(&str, ResourceEntry)>,
    categories: Vec<(&str, CapabilityEntry)>,
    budget_mb: u32,
) -> Scheduler {
    let mut models = Keyed::new();
    for (name, entry) in resources {
        models.insert(name.to_string(), entry);
    }
    let mut chains = Keyed::new();
    for (name, entry) in categories {
        chains.insert(name.to_string(), entry);
    }
    let registry = ResourceRegistry::new(models);
    assert!(registry.check_sizes());
    Scheduler::new(CapabilityRegistry::new(chains), registry, budget_mb)
}

fn scheduler_with_budget(budget_mb: u32) -> Scheduler {
    build(
        vec![
            ("Resident", resource(6000, true)),
            ("Fits", resource(18000, false)),
            ("TooBig", resource(26000, false)),
        ],
        vec![
            ("Heavy", category("Fits", &[])),
            ("Heaviest", category("TooBig", &[])),
            ("Resident", category("Resident", &[])),
        ],
        budget_mb,
    )
}

fn preload(scheduler: &mut Scheduler) {
    for model in scheduler.preload_plan().unwrap() {
        scheduler.preload_begin(&model, at(1));
        scheduler.preload_finished(&model, Ok(()), at(1)).unwrap();
    }
}

/// Loads whatever has to be loaded for a category, with a backend that always
/// agrees.
fn place(scheduler: &mut Scheduler, category: &str, now: i64) -> Result<Session, String> {
    let mut effect = scheduler.begin_session(category, false, at(now));
    loop {
        effect = match effect {
            Effect::Load { .. } => scheduler.load_finished(true, at(now)),
            Effect::Unload { .. } => scheduler.unload_finished(true, at(now)),
            Effect::Ready(session) => return Ok(session),
            Effect::Refused(reason) => return Err(reason),
        };
    }
}

fn load(scheduler: &mut Scheduler, category: &str, now: i64) {
    let session = place(scheduler, category, now).unwrap_or_else(|e| panic!("{e}"));
    scheduler.close(session);
}

fn refusal(effect: Effect) -> String {
    match effect {
        Effect::Refused(reason) => reason,
        Effect::Load { model, .. } => panic!("загрузка {model}"),
        Effect::Unload { model, .. } => panic!("выгрузка {model}"),
        Effect::Ready(session) => panic!("выдана {}", session.model()),
    }
}

fn is_loaded(scheduler: &Scheduler, model: &str) -> bool {
    scheduler.snapshot().iter().any(|(name, _)| name == model)
}

#[test]
fn snapshot_answers_while_a_model_is_loading() {
    let mut scheduler = scheduler_with_budget(24495);
    let effect = scheduler.begin_session("Heavy", false, at(5));
    assert!(matches!(effect, Effect::Load { ref model, .. } if model == "Fits"));

    let snapshot = scheduler.snapshot();
    assert!(!snapshot.iter().any(|(name, _)| name == "Fits"));
    let operation = scheduler
        .active_operation()
        .expect("во время загрузки операция обязана быть видна");
    assert_eq!(operation.kind, "загрузка");
    assert_eq!(operation.model, "Fits");
    assert_eq!(operation.reason, "Heavy");

    assert!(matches!(scheduler.load_finished(true, at(6)), Effect::Ready(_)));
    assert!(
        scheduler.active_operation().is_none(),
        "после завершения маркер обязан сниматься"
    );
    assert!(is_loaded(&scheduler, "Fits"));
}

#[test]
fn at_most_one_load_runs_at_a_time() {
    let mut scheduler = scheduler_with_budget(24495);
    let mut loads = 0;
    let mut refused = 0;
    for _ in 0..4 {
        match scheduler.begin_session("Heavy", false, at(1)) {
            Effect::Load { .. } => loads += 1,
            Effect::Refused(reason) => {
                assert_eq!(reason, "GPU сейчас занят другой задачей, повторите позже");
                refused += 1;
            }
            _ => panic!("ничего другого быть не может"),
        }
    }
    assert_eq!(loads, 1, "backend увидел одновременные загрузки — инвариант нарушен");
    assert_eq!(refused, 3);
    assert!(matches!(scheduler.load_finished(true, at(2)), Effect::Ready(_)));
}

#[test]
fn operation_marker_is_cleared_when_a_load_fails() {
    let mut scheduler = scheduler_with_budget(24495);
    assert!(scheduler.active_operation().is_none(), "в покое маркера нет");

    assert!(matches!(scheduler.begin_session("Heavy", false, at(1)), Effect::Load { .. }));
    let reason = refusal(scheduler.load_finished(false, at(2)));
    assert_eq!(
        reason,
        "не удалось подобрать модель для категории 'Heavy': \
         не хватает VRAM у всех кандидатов или backend недоступен"
    );
    assert!(
        scheduler.active_operation().is_none(),
        "после отказа маркер обязан быть снят"
    );
}

#[test]
fn two_tasks_on_loaded_models_run_at_the_same_time() {
    let mut scheduler = scheduler_with_budget(24495);
    preload(&mut scheduler);
    load(&mut scheduler, "Heavy", 2);

    let long = place(&mut scheduler, "Heavy", 3).unwrap_or_else(|e| panic!("{e}"));
    let short = place(&mut scheduler, "Resident", 4)
        .unwrap_or_else(|e| panic!("вторая задача обязана пройти, но: {e}"));
    assert_eq!(scheduler.running_generations(), 2);
    assert_eq!(
        scheduler.busy_models(),
        vec![("Fits".to_string(), 1), ("Resident".to_string(), 1)]
    );
    scheduler.close(short);
    scheduler.close(long);
    assert_eq!(scheduler.running_generations(), 0);
}

#[test]
fn a_third_task_is_refused_while_two_are_running() {
    let mut scheduler = scheduler_with_budget(24495);
    preload(&mut scheduler);
    load(&mut scheduler, "Heavy", 2);

    let first = place(&mut scheduler, "Heavy", 3).unwrap_or_else(|e| panic!("{e}"));
    let second = place(&mut scheduler, "Resident", 3).unwrap_or_else(|e| panic!("{e}"));

    let message = refusal(scheduler.begin_session("Resident", false, at(4)));
    assert!(
        message.contains("предел") || message.contains("2"),
        "отказ обязан называть причину: {message}"
    );
    assert_eq!(
        message,
        "система уже обслуживает 2 задач(и) — предел 2, повторите позже"
    );
    assert_eq!(MAX_CONCURRENT_TASKS, 2);
    scheduler.close(first);
    scheduler.close(second);
}

#[test]
fn a_task_needing_a_load_does_not_run_in_parallel() {
    let mut scheduler = scheduler_with_budget(24495);
    preload(&mut scheduler);

    let long = place(&mut scheduler, "Resident", 2).unwrap_or_else(|e| panic!("{e}"));
    let message = refusal(scheduler.begin_session("Heavy", false, at(3)));
    assert!(
        message.contains("не загружена"),
        "отказ обязан объяснять, что дело в загрузке: {message}"
    );
    scheduler.close(long);
}

#[test]
fn a_model_with_a_running_generation_is_never_evicted() {
    let mut scheduler = scheduler_with_budget(24495);
    preload(&mut scheduler);
    load(&mut scheduler, "Heavy", 2);

    let long = place(&mut scheduler, "Heavy", 3).unwrap_or_else(|e| panic!("{e}"));
    assert_eq!(
        scheduler.pick_eviction_victim(),
        None,
        "единственный не-резидент занят генерацией — вытеснять некого"
    );
    assert_eq!(scheduler.busy_models(), vec![("Fits".to_string(), 1)]);

    scheduler.close(long);
    assert_eq!(scheduler.pick_eviction_victim(), Some("Fits".to_string()));
}

#[test]
fn placement_is_refused_when_every_victim_is_busy() {
    let mut scheduler = scheduler_with_budget(24495);
    preload(&mut scheduler);
    load(&mut scheduler, "Heavy", 2);

    let long = place(&mut scheduler, "Heavy", 3).unwrap_or_else(|e| panic!("{e}"));
    let refused = place(&mut scheduler, "Heaviest", 4);
    assert!(
        refused.is_err(),
        "размещение обязано быть отвергнуто, а не выполнено за счёт занятой модели"
    );
    assert!(is_loaded(&scheduler, "Fits"));
    scheduler.close(long);
}

#[test]
fn the_busy_counter_is_released_when_generation_fails() {
    let mut scheduler = scheduler_with_budget(24495);
    preload(&mut scheduler);
    assert_eq!(scheduler.running_generations(), 0, "в покое занятых нет");

    // However the generation ended, the session is closed.
    let session = place(&mut scheduler, "Resident", 2).unwrap_or_else(|e| panic!("{e}"));
    assert_eq!(scheduler.running_generations(), 1);
    scheduler.close(session);

    assert_eq!(
        scheduler.running_generations(),
        0,
        "после неудачной генерации счётчик обязан быть снят"
    );
    assert!(scheduler.busy_models().is_empty());
}

#[test]
fn model_fitting_on_top_of_the_resident_is_selected() {
    let mut scheduler = scheduler_with_budget(24495);
    preload(&mut scheduler);
    match place(&mut scheduler, "Heavy", 2) {
        Ok(session) => assert_eq!(session.model(), "Fits"),
        Err(why) => {
            panic!("кандидат, помещающийся поверх резидента, обязан быть выбран: {why}")
        }
    }
}

#[test]
fn model_exceeding_the_budget_with_the_resident_is_rejected() {
    let mut scheduler = scheduler_with_budget(24495);
    preload(&mut scheduler);
    if let Ok(session) = place(&mut scheduler, "Heaviest", 2) {
        panic!(
            "кандидат '{}' не помещается вместе с резидентом, но был выбран",
            session.model()
        );
    }
}

#[test]
fn reachability_names_unreachable_models_and_empty_categories() {
    let scheduler = scheduler_with_budget(24495);
    let report = scheduler.reachability();

    assert_eq!(report.budget_mb, 24495);
    assert_eq!(report.resident_mb, 6000, "резидент занимает бюджет постоянно");
    assert_eq!(
        report.unreachable,
        vec![("TooBig".to_string(), 26000)],
        "недостижим ровно тот, кто не влезает поверх резидента"
    );
    assert_eq!(report.empty_categories, vec!["Heaviest".to_string()]);
    assert!(report.served_by_fallback.is_empty());

    let tight = scheduler_with_budget(8000);
    let tight_report = tight.reachability();
    let mut empty = tight_report.empty_categories.clone();
    empty.sort();
    assert_eq!(empty, vec!["Heaviest".to_string(), "Heavy".to_string()]);
    assert_eq!(
        tight_report.unreachable,
        vec![("TooBig".to_string(), 26000), ("Fits".to_string(), 18000)]
    );
}

#[test]
fn the_same_model_was_unreachable_under_the_old_vram_sized_budget() {
    let mut scheduler = scheduler_with_budget(8000);
    preload(&mut scheduler);
    if let Ok(session) = place(&mut scheduler, "Heavy", 2) {
        panic!(
            "при бюджете размером с видеопамять '{}' не должен был проходить",
            session.model()
        );
    }
}

#[test]
fn the_report_is_written_line_by_line() {
    let scheduler = scheduler_with_budget(24495);
    let lines: Vec<(bool, String)> = scheduler
        .reachability()
        .log_reachability()
        .into_iter()
        .map(|l| (l.warning, l.line))
        .collect();
    assert_eq!(
        lines,
        vec![
            (
                false,
                "== достижимость == бюджет 24495 MB, из них 6000 MB заняты резидентами постоянно \
                 (свободно под задачу: 18495 MB)"
                    .to_string()
            ),
            (
                true,
                "== достижимость == модель 'TooBig' НЕДОСТИЖИМА: 26000 MB + 6000 MB резидентов \
                 > 24495 MB бюджета"
                    .to_string()
            ),
            (
                true,
                "== достижимость == категория 'Heaviest' ПУСТА: ни один кандидат цепочки \
                 не проходит, задачи в ней будут падать"
                    .to_string()
            ),
        ]
    );
}

#[test]
fn nothing_wrong_is_reported_too() {
    let scheduler = build(
        vec![("A", resource(10, false)), ("B", resource(200, false))],
        vec![("One", category("A", &[]))],
        300,
    );
    let lines: Vec<String> = scheduler
        .reachability()
        .log_reachability()
        .into_iter()
        .map(|l| l.line)
        .collect();
    assert_eq!(lines.len(), 3);
    assert_eq!(lines[1], "== достижимость == все модели реестра достижимы");
    assert_eq!(
        lines[2],
        "== достижимость == все категории обслуживаются назначенными моделями"
    );
}

#[test]
fn a_fallback_is_named_in_the_report_and_taken_in_practice() {
    let mut scheduler = build(
        vec![("Huge", resource(500, false)), ("Small", resource(50, false))],
        vec![("Work", category("Huge", &["Unknown", "Small"]))],
        100,
    );
    let report = scheduler.reachability();
    assert_eq!(
        report.served_by_fallback,
        vec![("Work".to_string(), "Huge".to_string(), "Small".to_string())]
    );
    let session = place(&mut scheduler, "Work", 1).unwrap_or_else(|e| panic!("{e}"));
    assert_eq!(session.model(), "Small");
}

#[test]
fn the_least_recently_used_model_makes_room() {
    let mut scheduler = build(
        vec![
            ("A", resource(40, false)),
            ("B", resource(40, false)),
            ("C", resource(40, false)),
        ],
        vec![
            ("a", category("A", &[])),
            ("b", category("B", &[])),
            ("c", category("C", &[])),
        ],
        100,
    );
    load(&mut scheduler, "a", 1);
    load(&mut scheduler, "b", 2);
    // A is used again, so B is the one that was not used for longest.
    load(&mut scheduler, "a", 3);
    assert_eq!(scheduler.pick_eviction_victim(), Some("B".to_string()));

    let effect = scheduler.begin_session("c", false, at(4));
    assert!(matches!(effect, Effect::Unload { ref model, .. } if model == "B"));
    assert!(scheduler.awaits_unload());
    assert_eq!(scheduler.active_operation().unwrap().kind, "выгрузка");
    let effect = scheduler.unload_finished(true, at(5));
    assert!(matches!(effect, Effect::Load { ref model, .. } if model == "C"));
    assert!(scheduler.awaits_load());
    assert!(matches!(scheduler.load_finished(true, at(6)), Effect::Ready(_)));
    assert!(is_loaded(&scheduler, "A") && !is_loaded(&scheduler, "B") && is_loaded(&scheduler, "C"));
    assert_eq!(scheduler.used_model_memory_mb(), 80);
}

#[test]
fn a_failed_unload_passes_the_candidate_over() {
    let mut scheduler = build(
        vec![
            ("A", resource(80, false)),
            ("B", resource(80, false)),
            ("C", resource(10, false)),
        ],
        vec![("a", category("A", &[])), ("b", category("B", &["C"]))],
        100,
    );
    load(&mut scheduler, "a", 1);
    assert!(matches!(scheduler.begin_session("b", false, at(2)), Effect::Unload { .. }));
    let effect = scheduler.unload_finished(false, at(3));
    assert!(matches!(effect, Effect::Load { ref model, .. } if model == "C"));
    assert!(is_loaded(&scheduler, "A"));
}

#[test]
fn refusals_name_their_reasons() {
    let mut manual = category("Resident", &[]);
    manual.manual_only = true;
    let mut scheduler = build(
        vec![("Resident", resource(60, true)), ("Big", resource(500, false))],
        vec![("Manual", manual), ("Big", category("Big", &[]))],
        100,
    );
    assert_eq!(
        refusal(scheduler.begin_session("Nope", false, at(1))),
        "категория 'Nope' не найдена в Capability Registry"
    );
    assert_eq!(
        refusal(scheduler.begin_session("Manual", false, at(1))),
        "категория 'Manual' требует явного запроса пользователя (manual_only)"
    );
    assert!(matches!(scheduler.begin_session("Manual", true, at(1)), Effect::Load { .. }));
    assert!(matches!(scheduler.load_finished(true, at(1)), Effect::Ready(_)));
    assert_eq!(
        refusal(scheduler.run_with_model("Nope", at(2))),
        "модель 'Nope' отсутствует в Resource Registry"
    );
    assert_eq!(
        refusal(scheduler.run_with_model("Big", at(2))),
        "система занята другой задачей, а модель 'Big' не загружена — повторите позже"
    );
}

#[test]
fn a_named_model_is_placed_by_the_same_rules() {
    let mut scheduler = scheduler_with_budget(24495);
    preload(&mut scheduler);
    let session = match scheduler.run_with_model("Resident", at(2)) {
        Effect::Ready(session) => session,
        _ => panic!("резидент загружен"),
    };
    scheduler.close(session);
    assert_eq!(
        refusal(scheduler.run_with_model("TooBig", at(3))),
        "не удалось разместить модель 'TooBig' в VRAM"
    );
    assert!(matches!(
        scheduler.run_with_model("Fits", at(4)),
        Effect::Load { ref model, .. } if model == "Fits"
    ));
}

#[test]
fn residents_that_do_not_fit_are_refused_before_any_load() {
    let scheduler = build(
        vec![("A", resource(70, true)), ("B", resource(50, true))],
        vec![],
        100,
    );
    assert_eq!(
        scheduler.preload_plan().unwrap_err(),
        "always_loaded модели требуют 120 MB памяти, а бюджет всего 100 MB — \
         проверьте resource_registry.yaml"
    );
}

#[test]
fn a_resident_that_cannot_be_loaded_stops_the_start() {
    let mut scheduler = scheduler_with_budget(24495);
    scheduler.preload_begin("Resident", at(1));
    assert_eq!(scheduler.active_operation().unwrap().reason, "always_loaded");
    let err = scheduler
        .preload_finished("Resident", Err("нет места".to_string()), at(2))
        .unwrap_err();
    assert_eq!(err, "не удалось загрузить always_loaded модель Resident: нет места");
    assert!(scheduler.active_operation().is_none());
    assert!(scheduler.snapshot().is_empty());
}

#[test]
fn leftovers_are_unloaded_and_forgotten() {
    let mut scheduler = scheduler_with_budget(24495);
    preload(&mut scheduler);
    assert!(scheduler.unload_stale_instances(vec![]).is_empty());
    assert!(is_loaded(&scheduler, "Resident"));
    let stale = vec!["a".to_string(), "a:2".to_string()];
    let session = place(&mut scheduler, "Resident", 2).unwrap_or_else(|e| panic!("{e}"));
    scheduler.close(session);
    assert_eq!(scheduler.unload_stale_instances(stale.clone()), stale);
    assert!(scheduler.snapshot().is_empty());
}

#[test]
fn at_the_end_models_in_use_are_unloaded_too() {
    let mut scheduler = scheduler_with_budget(24495);
    preload(&mut scheduler);
    let session = place(&mut scheduler, "Resident", 2).unwrap_or_else(|e| panic!("{e}"));
    let left = vec!["a".to_string(), "a:2".to_string()];
    assert_eq!(scheduler.unload_stale_instances(left.clone()), left);
    assert!(scheduler.snapshot().is_empty());
    scheduler.close(session);
    assert!(scheduler.snapshot().is_empty());
}

fn two_that_do_not_fit_together() -> Scheduler {
    build(
        vec![
            ("Small", resource(10, false)),
            ("A", resource(90, false)),
            ("B", resource(90, false)),
        ],
        vec![
            ("small", category("Small", &[])),
            ("a", category("A", &[])),
            ("b", category("B", &[])),
        ],
        100,
    )
}

#[test]
fn a_model_that_is_being_unloaded_is_not_handed_out() {
    let mut scheduler = two_that_do_not_fit_together();
    load(&mut scheduler, "a", 1);
    load(&mut scheduler, "small", 2);
    let effect = scheduler.begin_session("b", false, at(3));
    assert!(matches!(effect, Effect::Unload { ref model, .. } if model == "A"));

    assert_eq!(
        refusal(scheduler.run_with_model("A", at(4))),
        "GPU сейчас занят другой задачей, повторите позже"
    );
    let Effect::Ready(small) = scheduler.run_with_model("Small", at(4)) else {
        panic!("загруженная модель обязана достаться");
    };
    assert_eq!(
        refusal(scheduler.run_with_model("A", at(5))),
        "система занята другой задачей, а модель 'A' не загружена — повторите позже"
    );
    assert_eq!(
        refusal(scheduler.begin_session("a", false, at(5))),
        "система занята другой задачей, а подходящая для 'a' модель не загружена — \
         повторите позже"
    );

    // The one in use stays, whatever becomes of the unload.
    assert!(matches!(scheduler.unload_finished(true, at(6)), Effect::Load { ref model, .. } if model == "B"));
    assert!(!is_loaded(&scheduler, "A") && is_loaded(&scheduler, "Small"));
    assert!(matches!(scheduler.load_finished(true, at(7)), Effect::Ready(_)));
    assert!(is_loaded(&scheduler, "Small"));
    scheduler.close(small);
}

#[test]
fn a_model_whose_unload_failed_can_be_had_again() {
    let mut scheduler = two_that_do_not_fit_together();
    load(&mut scheduler, "a", 1);
    assert!(matches!(scheduler.begin_session("b", false, at(2)), Effect::Unload { .. }));
    refusal(scheduler.unload_finished(false, at(3)));
    assert!(matches!(scheduler.run_with_model("A", at(4)), Effect::Ready(_)));
}

#[test]
fn the_registry_fills_in_the_temperature_and_the_key() {
    let warm = Temperature { bits: 0.5_f32.to_bits() };
    let own = Temperature { bits: 1.5_f32.to_bits() };
    let mut entry = resource(10, false);
    entry.temperature = Some(warm);
    entry.lm_studio_key = Some("vendor/model".to_string());
    let mut scheduler = build(vec![("M", entry)], vec![], 100);
    let request = |temperature| GenerateRequest {
        messages: vec![Message::new(Role::User, "привет".to_string())],
        tools: vec![],
        temperature,
    };
    let (key, sent) = scheduler.generate_under_guard("M", request(None));
    assert_eq!(key, "vendor/model");
    assert_eq!(sent.temperature, Some(warm));
    assert_eq!(sent.messages[0].content, "привет");
    let (_, sent) = scheduler.generate_under_guard("M", request(Some(own)));
    assert_eq!(sent.temperature, Some(own));
    scheduler.remember_temperature("M", None);
    let (_, sent) = scheduler.generate_under_guard("M", request(None));
    assert_eq!(sent.temperature, None);
}

#[test]
fn the_budget_is_inclusive() {
    assert!(fits_in_budget(60, 40, 100));
    assert!(!fits_in_budget(60, 41, 100));
    assert!(fits_in_budget(u32::MAX - 1, 1, u32::MAX));
}

#[test]
fn what_was_passed_over_is_told() {
    assert_eq!(describe_rejected(&vec![]), "");
    assert_eq!(
        describe_rejected(&vec!["A: нет".to_string(), "B: мало".to_string()]),
        "; пропущены — A: нет; B: мало"
    );
}

#[test]
fn a_placement_whose_request_is_gone_can_be_given_up() {
    let mut scheduler = scheduler_with_budget(24495);
    assert!(matches!(scheduler.begin_session("Heavy", false, at(1)), Effect::Load { .. }));
    scheduler.abandon_placement();
    assert!(scheduler.active_operation().is_none());
    assert!(!scheduler.awaits_load());
    assert!(matches!(scheduler.begin_session("Heavy", false, at(2)), Effect::Load { .. }));
}

#[test]
fn the_status_shows_what_is_going_on() {
    let mut scheduler = scheduler_with_budget(24495);
    preload(&mut scheduler);
    let quiet = status(&scheduler, at(2));
    assert_eq!(quiet.total_model_memory_mb, 24495);
    assert_eq!(quiet.used_model_memory_mb, 6000);
    assert_eq!(quiet.loaded_models.len(), 1);
    assert_eq!(quiet.loaded_models[0].model, "Resident");
    assert_eq!(quiet.loaded_models[0].last_used, at(1));
    assert_eq!(quiet.running_tasks, 0);
    assert_eq!(quiet.max_concurrent_tasks, 2);
    assert!(quiet.busy_models.is_empty());
    assert!(quiet.active_operation.is_none());

    assert!(matches!(scheduler.begin_session("Heavy", false, at(10)), Effect::Load { .. }));
    let later = Timestamp { seconds: 12, nanos: 345_999_999 };
    let operation = status(&scheduler, later).active_operation.unwrap();
    assert_eq!(operation.kind, "загрузка");
    assert_eq!(operation.model, "Fits");
    assert_eq!(operation.reason, "Heavy");
    assert_eq!(operation.started_at, at(10));
    assert_eq!(operation.elapsed_ms, 2345);
    let earlier = Timestamp { seconds: 9, nanos: 999_500_000 };
    assert_eq!(status(&scheduler, earlier).active_operation.unwrap().elapsed_ms, 0);
    assert_eq!(status(&scheduler, at(9)).active_operation.unwrap().elapsed_ms, -1000);

    let session = match scheduler.load_finished(true, at(13)) {
        Effect::Ready(session) => session,
        _ => panic!("загружена"),
    };
    let busy = status(&scheduler, at(14));
    assert_eq!(busy.used_model_memory_mb, 24000);
    assert_eq!(busy.running_tasks, 1);
    assert_eq!(busy.busy_models[0].model, "Fits");
    assert_eq!(busy.busy_models[0].generations, 1);
    scheduler.close(session);
}

#[test]
fn every_model_is_listed_loaded_or_not() {
    let mut scheduler = scheduler_with_budget(24495);
    preload(&mut scheduler);
    scheduler.remember_temperature("Fits", Some(Temperature { bits: 1.0_f32.to_bits() }));
    let models = list_models(&scheduler);
    let names: Vec<&str> = models.iter().map(|m| m.model.as_str()).collect();
    assert_eq!(names, vec!["Resident", "Fits", "TooBig"]);
    assert!(models[0].loaded && models[0].always_loaded);
    assert_eq!(models[0].last_used, Some(at(1)));
    assert_eq!(models[0].preferred_device, "gpu");
    assert!(!models[1].loaded);
    assert_eq!(models[1].last_used, None);
    assert_eq!(models[1].temperature, Some(Temperature { bits: 1.0_f32.to_bits() }));
    assert_eq!(models[1].vram_mb, 18000);
}

#[test]
fn a_temperature_request_is_answered_with_the_right_status() {
    let scheduler = scheduler_with_budget(24495);
    let raw = "Fits:\n  vram_mb: 18000\n";
    let hot = Temperature { bits: 9.0_f32.to_bits() };
    let mild = Temperature { bits: 0.5_f32.to_bits() };
    let (code, text) = set_model_temperature(&scheduler, "Nope", Some(hot), "9", raw)
        .unwrap_err()
        .reply();
    assert_eq!(code, 400);
    assert!(text.contains("0–2"));
    let (code, text) = set_model_temperature(&scheduler, "Nope", Some(mild), "0.5", raw)
        .unwrap_err()
        .reply();
    assert_eq!((code, text.as_str()), (500, "модель 'Nope' отсутствует в Resource Registry"));
    let (code, _) = set_model_temperature(&scheduler, "TooBig", Some(mild), "0.5", raw)
        .unwrap_err()
        .reply();
    assert_eq!(code, 500);
    assert_eq!(
        set_model_temperature(&scheduler, "Fits", Some(mild), "0.5", raw).unwrap(),
        "Fits:\n  vram_mb: 18000\n  temperature: 0.5\n"
    );
}
