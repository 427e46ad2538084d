use kaic_backend::clock::Timestamp;
use kaic_backend::media::fetch::{FetchError, ImageFormat};
use kaic_backend::media::pipeline::{
    admit_all, assemble_render_plan, begin, choose_term, deliver, extract_search_term,
    media_cache_dir, media_query, media_render_dir, plan_from_admitted, Fetching, Search,
    SearchStep,
};
use kaic_backend::media::provenance::{LicensedProvenance, ManifestEntry, MediaKind, Provenance};
use kaic_backend::media::render::{RenderError, RenderOutcome};
use kaic_backend::media::video::{VideoAction, VideoTask};
use kaic_backend::model_backend::{GenerateResponse, Message, Role, ToolCall};
use kaic_backend::task_store::{TaskStatus, TaskStore};

const NOW: Timestamp = Timestamp { seconds: 1_700_000_000, nanos: 0 };
const ID: u128 = 0x0123_4567_89ab_cdef_0123_4567_89ab_cdef;

fn entry(asset_id: &str, license: &str, attribution: &str) -> ManifestEntry {
    ManifestEntry {
        asset_id: asset_id.to_string(),
        kind: MediaKind::Image,
        provenance: Provenance::Licensed(LicensedProvenance {
            source: "openverse".to_string(),
            asset_url: "https://example.org/a.jpg".to_string(),
            landing_url: "https://example.org/p".to_string(),
            license: license.to_string(),
            license_version: "2.0".to_string(),
            license_url: "https://creativecommons.org/licenses/by/2.0/".to_string(),
            license_snapshot: "снимок".to_string(),
            creator: Some("Автор".to_string()),
            creator_url: None,
            attribution: attribution.to_string(),
            retrieved_at: NOW,
        }),
    }
}

fn stored() -> TaskStore {
    let mut store = TaskStore::new();
    store.create(ID, "Video", NOW).unwrap();
    store
}

fn last(store: &TaskStore) -> (&str, &str) {
    let e = store.get(ID).unwrap().context.last().expect("в задаче есть запись");
    (&e.role, &e.content)
}

#[test]
fn video_query_is_the_user_text_verbatim() {
    let messages = vec![
        Message::new(Role::System, "служебное".to_string()),
        Message::new(Role::User, "  горный ручей  ".to_string()),
    ];
    assert_eq!(media_query(&messages), Some("горный ручей".to_string()));
}

#[test]
fn video_task_without_user_text_has_no_query() {
    let messages = vec![Message::new(Role::System, "только служебное".to_string())];
    assert_eq!(media_query(&messages), None);

    let blank = vec![Message::new(Role::User, "   ".to_string())];
    assert_eq!(media_query(&blank), None);

    let mut store = stored();
    assert_eq!(begin(&mut store, ID, &blank, NOW), None);
    assert_eq!(
        last(&store),
        ("system", "Ошибка: в задаче нет пользовательского текста для поиска материалов")
    );
    assert_eq!(store.get(ID).unwrap().status, TaskStatus::Failed);
}

#[test]
fn gate_rejection_of_every_asset_yields_error_not_panic() {
    let entries = vec![
        entry("openverse:1", "by-nd", "credit"),
        entry("openverse:2", "by-nc-nd", "credit"),
    ];
    let reason = assemble_render_plan(entries).expect_err("ND-ассеты не могут дать план");
    assert!(reason.contains("гейт не допустил ни одного"), "причина: {reason}");
    assert!(reason.contains("ND"), "причина обязана называть ND: {reason}");
}

#[test]
fn empty_source_result_is_an_error() {
    let reason = assemble_render_plan(Vec::new()).expect_err("пустой ответ — ошибка");
    assert!(reason.contains("ни одного ассета"), "причина: {reason}");
}

#[test]
fn partial_rejection_keeps_good_assets_and_reports_the_rest() {
    let entries = vec![
        entry("openverse:good", "by", "\"X\" by Автор is licensed under CC BY 2.0."),
        entry("openverse:nd", "by-nd", "credit"),
        entry("openverse:pd", "cc0", ""),
    ];
    let (plan, rejections) = assemble_render_plan(entries).expect("план собирается");

    assert_eq!(plan.asset_ids().len(), 2, "годные ассеты на таймлайне");
    assert_eq!(rejections.len(), 1, "отказ не проглочен");
    assert!(rejections[0].contains("ND"));
    assert!(
        plan.credits_text().contains("Автор"),
        "CC-BY-материал обязан быть в титрах"
    );
}

#[test]
fn cc_by_without_attribution_is_rejected_in_flow() {
    let entries = vec![entry("openverse:1", "by", "")];
    let reason = assemble_render_plan(entries).expect_err("нечем делать титры");
    assert!(reason.contains("атрибуции"), "причина: {reason}");
}

#[test]
fn nothing_admitted_gives_no_plan() {
    assert_eq!(
        plan_from_admitted(Vec::new()),
        Err("план не собран: таймлайн пуст".to_string())
    );
    match admit_all(vec![entry("a", "cc0", ""), entry("b", "by-sa", "c")]) {
        Ok((manifest, admitted, rejections)) => {
            assert_eq!(manifest.len(), 2);
            assert_eq!(admitted.len(), 1);
            assert_eq!(rejections.len(), 1);
        }
        Err(reason) => panic!("{reason}"),
    }
}

#[test]
fn directories_are_named_after_the_task() {
    assert_eq!(
        media_cache_dir(ID),
        ".kaic/media-cache/01234567-89ab-cdef-0123-456789abcdef"
    );
    assert_eq!(media_render_dir(1), ".kaic/renders/00000000-0000-0000-0000-000000000001");
}

#[test]
fn the_search_term_falls_back_to_the_users_words() {
    let mut store = stored();
    let said = "сделай видео про озеро";
    let good = Ok(GenerateResponse::Text("Sure!\n\"mountain lake\"".to_string()));
    assert_eq!(extract_search_term(&mut store, ID, said, good, 412, NOW), "mountain lake");
    assert_eq!(
        last(&store),
        ("system", "поисковый термин: «mountain lake» (из «сделай видео про озеро», 412 мс)")
    );

    let useless = Ok(GenerateResponse::Text("...".to_string()));
    assert_eq!(extract_search_term(&mut store, ID, said, useless, 1, NOW), said);
    assert_eq!(
        last(&store).1,
        "модель не дала пригодный термин; ищу по тексту задачи «сделай видео про озеро»"
    );

    let tools = Ok(GenerateResponse::ToolCalls(vec![ToolCall {
        id: "c".to_string(),
        name: "n".to_string(),
        arguments: "{}".to_string(),
    }]));
    assert_eq!(extract_search_term(&mut store, ID, said, tools, 1, NOW), said);
    assert_eq!(
        last(&store).1,
        "модель запросила вызов инструмента там, где инструментов нет; ищу по тексту задачи"
    );

    assert_eq!(extract_search_term(&mut store, ID, said, Err("таймаут".to_string()), 1, NOW), said);
    assert_eq!(last(&store).1, "извлечение термина не выполнено (таймаут); ищу по тексту задачи");

    let term = Some("lake".to_string());
    assert_eq!(choose_term(&mut store, ID, said, term, u128::MAX, NOW), "lake");
    assert_eq!(
        last(&store).1,
        format!("поисковый термин: «lake» (из «{said}», {} мс)", u128::MAX)
    );
}

#[test]
fn a_search_is_widened_and_ends_with_the_users_words() {
    let mut store = stored();
    let mut search = Search::begin(&mut store, ID, "old stone bridge".to_string(), "мост", NOW);
    assert_eq!(
        last(&store).1,
        "медиа-пайплайн: ищу материалы в Openverse по запросу «old stone bridge»"
    );
    let mut tried = Vec::new();
    let step = loop {
        let Some(words) = search.next() else {
            panic!("поиск обязан закончиться");
        };
        tried.push(words.to_string());
        match search.found(&mut store, ID, Ok(Vec::new()), NOW) {
            SearchStep::Again => {}
            other => break other,
        }
    };
    assert_eq!(tried, vec!["old stone bridge", "old stone", "old", "мост"]);
    match step {
        SearchStep::Candidates { entries, .. } => assert!(entries.is_empty()),
        _ => panic!("пустой поиск — не сбой источника"),
    }

    let mut found = Search::begin(&mut store, ID, "lake view".to_string(), "озеро", NOW);
    assert!(matches!(found.found(&mut store, ID, Ok(Vec::new()), NOW), SearchStep::Again));
    assert_eq!(last(&store).1, "по запросу «lake view» ничего не найдено, расширяю поиск");
    match found.found(&mut store, ID, Ok(vec![entry("a", "cc0", "")]), NOW) {
        SearchStep::Candidates { entries, used_query } => {
            assert_eq!(entries.len(), 1);
            assert_eq!(used_query, "lake");
        }
        _ => panic!("найденное обязано дойти"),
    }

    let mut broken = Search::begin(&mut store, ID, "x".to_string(), "x", NOW);
    let step = broken.found(&mut store, ID, Err("нет сети".to_string()), NOW);
    assert!(matches!(step, SearchStep::Failed));
    assert_eq!(last(&store).1, "Ошибка: источник недоступен: нет сети");
}

#[test]
fn only_what_arrived_is_planned() {
    let mut store = stored();
    let entries = vec![
        entry("a", "cc0", ""),
        entry("b", "by-nd", "credit"),
        entry("c", "by", "кадр автора"),
    ];
    let mut fetching = Fetching::screen(&mut store, ID, entries, "озеро", NOW).expect("есть что скачать");
    assert_eq!(fetching.next().unwrap().asset_id, "a");
    fetching.fetched(Err(FetchError::Empty { asset_id: "a".to_string() }));
    assert_eq!(fetching.next().unwrap().asset_id, "c");
    fetching.fetched(Ok(("dir/c.jpg".to_string(), 900, ImageFormat::Jpeg)));
    assert!(fetching.next().is_none());
    let (plan, files) = fetching.conclude(&mut store, ID, "dir", NOW).expect("план есть");
    assert_eq!(plan.asset_ids(), &vec!["c".to_string()]);
    assert_eq!(plan.credits_text(), "кадр автора");
    assert_eq!(files.len(), 1);
    let notes: Vec<String> =
        store.get(ID).unwrap().context.iter().map(|e| e.content.clone()).collect();
    assert_eq!(notes[0], "источник вернул 3 кандидатов по запросу «озеро», проверяю гейтом");
    assert!(notes[1].starts_with("отклонено гейтом: ассет b: лицензия 'by-nd' не допущена"));
    assert_eq!(notes[2], "не загружено: a: пустой файл");
    assert_eq!(notes[3], "загружено и верифицировано 1 из 2 допущенных, каталог dir");

    let outcome = RenderOutcome { path: "out/render.mp4".to_string(), bytes: 5000, elapsed_ms: 1200 };
    deliver(&mut store, ID, &plan, &files, Ok(outcome), NOW);
    let task = store.get(ID).unwrap();
    assert_eq!(task.status, TaskStatus::Done);
    let summary = task.context.iter().find(|e| e.role == "assistant").unwrap();
    assert_eq!(
        summary.content,
        "Видео готово.\nАссетов на таймлайне: 1\n\nФайлы (скачаны и верифицированы):\n\
         \u{20}\u{20}c → dir/c.jpg (900 байт, jpg)\n\nТитры:\nкадр автора\n\n\
         Результат: out/render.mp4 (5000 байт, рендер 1200 мс)"
    );
    let artifact = task.context.iter().find(|e| e.role == "artifact").unwrap();
    assert_eq!(artifact.content, "out/render.mp4");
}

#[test]
fn a_task_fails_when_nothing_arrives_or_nothing_renders() {
    let mut store = stored();
    let mut fetching =
        Fetching::screen(&mut store, ID, vec![entry("a", "cc0", "")], "q", NOW).unwrap();
    fetching.fetched(Err(FetchError::Empty { asset_id: "a".to_string() }));
    assert!(fetching.conclude(&mut store, ID, "dir", NOW).is_none());
    assert_eq!(
        last(&store).1,
        "Ошибка: ни один допущенный ассет не удалось загрузить и верифицировать"
    );

    let mut rejected = stored();
    assert!(Fetching::screen(&mut rejected, ID, Vec::new(), "q", NOW).is_none());
    assert_eq!(last(&rejected).1, "Ошибка: источник не вернул ни одного ассета");
    assert_eq!(rejected.get(ID).unwrap().status, TaskStatus::Failed);

    let mut unrendered = stored();
    let (plan, _) = assemble_render_plan(vec![entry("a", "cc0", "")]).unwrap();
    deliver(&mut unrendered, ID, &plan, &Vec::new(), Err(RenderError::NoInputs), NOW);
    assert_eq!(unrendered.get(ID).unwrap().status, TaskStatus::Failed);
    assert!(last(&unrendered).1.contains("нечего рендерить: нет ни одного файла"));
}

fn asked(video: &VideoTask) -> String {
    match video.next() {
        VideoAction::Extract(text) => format!("extract {text}"),
        VideoAction::Search(words) => format!("search {words}"),
        VideoAction::Fetch(entry) => format!("fetch {}", entry.asset_id),
        VideoAction::Render { plan, files } => {
            format!("render {} of {}", plan.asset_ids().join(","), files.len())
        }
        VideoAction::Finished => "finished".to_string(),
    }
}

#[test]
fn a_video_goes_from_words_to_a_file() {
    let mut store = stored();
    let said = vec![Message::new(Role::User, " озеро ".to_string())];
    let mut video = VideoTask::begin(&mut store, ID, &said, NOW);
    assert_eq!(video.target_dir(), media_cache_dir(ID));
    assert_eq!(asked(&video), "extract озеро");

    // What was not asked for changes nothing.
    video.found(&mut store, Err("рано".to_string()), NOW);
    video.rendered(&mut store, Err(RenderError::NoInputs), NOW);
    assert_eq!(asked(&video), "extract озеро");
    assert!(store.get(ID).unwrap().context.is_empty());

    let reply = Ok(GenerateResponse::Text("mountain lake".to_string()));
    video.extracted(&mut store, reply, 5, NOW);
    assert_eq!(asked(&video), "search mountain lake");
    video.found(&mut store, Ok(Vec::new()), NOW);
    assert_eq!(asked(&video), "search mountain");
    let found = vec![entry("a", "cc0", ""), entry("n", "by-nd", "c"), entry("b", "by", "автор")];
    video.found(&mut store, Ok(found), NOW);
    assert_eq!(asked(&video), "fetch a");
    video.fetched(&mut store, Err(FetchError::Empty { asset_id: "a".to_string() }), NOW);
    assert_eq!(asked(&video), "fetch b");
    video.fetched(&mut store, Ok(("b.png".to_string(), 100, ImageFormat::Png)), NOW);
    assert_eq!(asked(&video), "render b of 1");
    let outcome = RenderOutcome { path: "v.mp4".to_string(), bytes: 9, elapsed_ms: 1 };
    video.rendered(&mut store, Ok(outcome), NOW);
    assert_eq!(asked(&video), "finished");
    assert_eq!(store.get(ID).unwrap().status, TaskStatus::Done);
}

#[test]
fn a_video_ends_where_there_is_nothing_to_go_on_with() {
    let mut wordless = stored();
    assert_eq!(asked(&VideoTask::begin(&mut wordless, ID, &Vec::new(), NOW)), "finished");

    let said = vec![Message::new(Role::User, "озеро".to_string())];
    let mut offline = stored();
    let mut video = VideoTask::begin(&mut offline, ID, &said, NOW);
    video.extracted(&mut offline, Err("нет".to_string()), 1, NOW);
    assert_eq!(asked(&video), "search озеро");
    video.found(&mut offline, Err("нет сети".to_string()), NOW);
    assert_eq!(asked(&video), "finished");
    assert_eq!(last(&offline).1, "Ошибка: источник недоступен: нет сети");

    let mut barren = stored();
    let mut video = VideoTask::begin(&mut barren, ID, &said, NOW);
    video.extracted(&mut barren, Err("нет".to_string()), 1, NOW);
    video.found(&mut barren, Ok(Vec::new()), NOW);
    assert_eq!(asked(&video), "finished");
    assert_eq!(last(&barren).1, "Ошибка: источник не вернул ни одного ассета");
}
