use kaic_backend::clock::Timestamp;
use kaic_backend::media::credits::{
    build_credits, escape_drawtext, plan_render, BuildError,
};
use kaic_backend::media::fetch::{
    detect_image_format, downloadable_url, head_hex, safe_file_stem, Download, DownloadedAsset,
    FetchError, ImageFormat, MAX_ASSET_BYTES,
};
use kaic_backend::media::gate::{
    admit_asset, rejection_reason, requires_attribution, GateRejection, Timeline,
};
use kaic_backend::media::openverse::{
    search_answered, search_failure, search_parameters, to_manifest_entries, to_manifest_entry, SearchResponse,
    SearchResult,
};
use kaic_backend::media::provenance::{
    LicensedProvenance, Manifest, ManifestEntry, MediaKind, Provenance, UserProvenance,
};
use kaic_backend::media::render::{
    build_args, build_filter_complex, check_exit, check_output, escape_filter_path,
    looks_like_mp4, prepare_render, tail_lines, ProcessEnd, RenderError, CREDITS_FILE, OUTPUT_FILE,
};

const NOW: Timestamp = Timestamp { seconds: 1_700_000_000, nanos: 0 };

fn licensed(license: &str, attribution: &str) -> Provenance {
    Provenance::Licensed(LicensedProvenance {
        source: "openverse".to_string(),
        asset_url: "https://example.org/a.jpg".to_string(),
        landing_url: "https://example.org/page".to_string(),
        license: license.to_string(),
        license_version: "2.0".to_string(),
        license_url: "https://creativecommons.org/licenses/by/2.0/".to_string(),
        license_snapshot: "текст лицензии на момент получения".to_string(),
        creator: Some("Автор".to_string()),
        creator_url: None,
        attribution: attribution.to_string(),
        retrieved_at: NOW,
    })
}

fn own(rights_confirmation: &str) -> Provenance {
    Provenance::UserOwned(UserProvenance {
        original_path: "a.jpg".to_string(),
        rights_confirmation: rights_confirmation.to_string(),
        confirmed_at: NOW,
    })
}

fn manifest_with(asset_id: &str, kind: MediaKind, provenance: Provenance) -> Manifest {
    let mut manifest = Manifest::new();
    manifest.insert(ManifestEntry {
        asset_id: asset_id.to_string(),
        kind,
        provenance,
    });
    manifest
}

fn timeline_with(entries: &[(&str, &str, &str)]) -> Timeline {
    let mut manifest = Manifest::new();
    for (id, license, attribution) in entries {
        manifest.insert(ManifestEntry {
            asset_id: id.to_string(),
            kind: MediaKind::Image,
            provenance: licensed(license, attribution),
        });
    }
    let mut timeline = Timeline::new();
    for (id, _, _) in entries {
        timeline.push(admit_asset(&manifest, id).expect("ассет допущен гейтом"));
    }
    timeline
}

// Provenance.

#[test]
fn unconfirmed_user_rights_are_detected() {
    let base = UserProvenance {
        original_path: "C:/photos/a.jpg".to_string(),
        rights_confirmation: String::new(),
        confirmed_at: NOW,
    };
    assert!(!base.is_confirmed(), "пустое подтверждение — не подтверждение");

    let blank = UserProvenance {
        rights_confirmation: "   ".to_string(),
        ..base.clone()
    };
    assert!(!blank.is_confirmed(), "пробелы — не подтверждение");

    let ok = UserProvenance {
        rights_confirmation: "снято мной, права мои".to_string(),
        ..base
    };
    assert!(ok.is_confirmed());
}

#[test]
fn manifest_lookup_is_by_asset_id() {
    let mut manifest = Manifest::new();
    assert!(manifest.is_empty());

    manifest.insert(ManifestEntry {
        asset_id: "a1".to_string(),
        kind: MediaKind::Image,
        provenance: own("мои"),
    });

    assert_eq!(manifest.len(), 1);
    assert!(manifest.get("a1").is_some());
    assert!(manifest.get("не-существует").is_none());
}

#[test]
fn a_later_entry_replaces_the_earlier_one() {
    let mut manifest = manifest_with("a", MediaKind::Image, own("мои"));
    manifest.insert(ManifestEntry {
        asset_id: "a".to_string(),
        kind: MediaKind::Video,
        provenance: own("мои"),
    });
    assert_eq!(manifest.len(), 1);
    assert_eq!(manifest.get("a").unwrap().kind, MediaKind::Video);
}

// Admission.

#[test]
fn asset_without_manifest_entry_is_rejected() {
    let manifest = Manifest::new();
    let result = admit_asset(&manifest, "неизвестный");
    assert_eq!(
        result,
        Err(GateRejection::NoManifestEntry {
            asset_id: "неизвестный".to_string()
        })
    );
}

#[test]
fn audio_is_rejected_even_with_perfect_license() {
    let manifest = manifest_with("m1", MediaKind::Audio, licensed("cc0", ""));
    let result = admit_asset(&manifest, "m1");
    assert_eq!(
        result,
        Err(GateRejection::AudioNotAllowed {
            asset_id: "m1".to_string()
        })
    );
}

#[test]
fn no_derivatives_licenses_are_rejected() {
    for license in ["by-nd", "by-nc-nd"] {
        let manifest = manifest_with("a", MediaKind::Image, licensed(license, "credit"));
        let result = admit_asset(&manifest, "a");
        match result {
            Err(GateRejection::LicenseNotAllowed { reason, .. }) => {
                assert!(reason.contains("ND"), "причина должна называть ND: {reason}");
            }
            other => panic!("ND-лицензия {license} обязана быть отвергнута, получено {other:?}"),
        }
    }
}

#[test]
fn nc_and_sa_are_not_authorized_for_v1() {
    for license in ["by-nc", "by-nc-sa", "by-sa"] {
        let manifest = manifest_with("a", MediaKind::Image, licensed(license, "credit"));
        assert!(
            matches!(
                admit_asset(&manifest, "a"),
                Err(GateRejection::LicenseNotAllowed { .. })
            ),
            "лицензия {license} не разрешалась архитектором для v1"
        );
    }
}

#[test]
fn cc_by_requires_attribution_string() {
    let manifest = manifest_with("a", MediaKind::Image, licensed("by", "   "));
    assert_eq!(
        admit_asset(&manifest, "a"),
        Err(GateRejection::AttributionMissing {
            asset_id: "a".to_string()
        })
    );
}

#[test]
fn cc_by_passes_and_carries_credit() {
    let manifest = manifest_with(
        "a",
        MediaKind::Image,
        licensed("by", "\"Mountains\" by Kiwi Tom is licensed under CC BY 2.0."),
    );
    let admitted = admit_asset(&manifest, "a").expect("CC-BY допущен");
    assert_eq!(admitted.license(), "by");
    assert!(admitted.credit().is_some(), "CC-BY обязан нести титры");
    assert_eq!(admitted.kind(), MediaKind::Image);
}

#[test]
fn public_domain_needs_no_credit() {
    for license in ["cc0", "pdm"] {
        let manifest = manifest_with("a", MediaKind::Image, licensed(license, ""));
        let admitted = admit_asset(&manifest, "a").expect("public domain допущен");
        assert!(admitted.credit().is_none(), "{license} не требует атрибуции");
    }
}

#[test]
fn user_material_requires_explicit_rights_confirmation() {
    let manifest = manifest_with("u1", MediaKind::Image, own(""));
    assert_eq!(
        admit_asset(&manifest, "u1"),
        Err(GateRejection::RightsNotConfirmed {
            asset_id: "u1".to_string()
        })
    );

    let manifest = manifest_with("u2", MediaKind::Image, own("снято мной"));
    assert!(admit_asset(&manifest, "u2").is_ok());
    assert_eq!(admit_asset(&manifest, "u2").unwrap().license(), "user-owned");
}

#[test]
fn timeline_accepts_only_admitted_assets() {
    let manifest = manifest_with("a", MediaKind::Image, licensed("cc0", ""));
    let admitted = admit_asset(&manifest, "a").expect("допущен");

    let mut timeline = Timeline::new();
    assert!(timeline.is_empty());
    timeline.push(admitted);

    assert_eq!(timeline.assets().len(), 1);
    assert_eq!(timeline.assets()[0].asset_id(), "a");
}

#[test]
fn rejections_read_as_sentences() {
    let id = || "x".to_string();
    assert_eq!(
        GateRejection::NoManifestEntry { asset_id: id() }.message(),
        "ассет x отсутствует в провенанс-манифесте"
    );
    assert_eq!(
        GateRejection::AudioNotAllowed { asset_id: id() }.message(),
        "ассет x — аудио; музыка исключена из v1"
    );
    assert_eq!(
        GateRejection::LicenseNotAllowed {
            asset_id: id(),
            license: "by-sa".to_string(),
            reason: rejection_reason("by-sa"),
        }
        .message(),
        "ассет x: лицензия 'by-sa' не допущена — \
         ShareAlike распространяет свою лицензию на весь результат; для v1 не разрешена"
    );
    assert_eq!(
        GateRejection::AttributionMissing { asset_id: id() }.message(),
        "ассет x: лицензия требует атрибуции, но автор не указан"
    );
    assert_eq!(
        GateRejection::RightsNotConfirmed { asset_id: id() }.message(),
        "ассет x: права пользователя не подтверждены"
    );
    assert_eq!(rejection_reason("sampling"), "лицензия не входит в список разрешённых для v1");
    assert!(rejection_reason("by-nc").contains("NC"));
    assert!(requires_attribution("by") && !requires_attribution("pdm"));
}

// Credits.

#[test]
fn empty_timeline_cannot_be_rendered() {
    let timeline = Timeline::new();
    assert_eq!(plan_render(&timeline), Err(BuildError::EmptyTimeline));
    assert!(Timeline::default().is_empty());
    assert_eq!(build_credits(&timeline), Err(BuildError::EmptyTimeline));
    assert_eq!(BuildError::EmptyTimeline.message(), "таймлайн пуст");
}

#[test]
fn cc_by_asset_forces_credits_into_the_plan() {
    let credit = "\"Mountains\" by Kiwi Tom is licensed under CC BY 2.0.";
    let timeline = timeline_with(&[("a1", "by", credit)]);

    let plan = plan_render(&timeline).expect("план собирается");

    assert!(
        plan.credits_text().contains("Kiwi Tom"),
        "титры обязаны называть автора CC-BY-материала"
    );
    assert!(plan.ffmpeg_args("out.mp4").iter().any(|a| a.contains("drawtext")));
}

#[test]
fn public_domain_only_project_has_empty_credits_and_still_renders() {
    let timeline = timeline_with(&[("a1", "cc0", "")]);
    let plan = plan_render(&timeline).expect("план собирается");
    assert_eq!(plan.credits_text(), "");
}

#[test]
fn duplicate_authors_are_not_repeated() {
    let credit = "\"X\" by Один Автор is licensed under CC BY 2.0.";
    let timeline = timeline_with(&[("a1", "by", credit), ("a2", "by", credit)]);

    let plan = plan_render(&timeline).expect("план собирается");

    assert_eq!(
        plan.credits_text().lines().count(),
        1,
        "один автор — одна строка титров"
    );
    assert_eq!(plan.asset_ids().len(), 2, "но оба ассета остаются на таймлайне");
}

#[test]
fn mixed_project_credits_only_the_licenses_that_require_it() {
    let credit = "\"Y\" by Второй is licensed under CC BY 2.0.";
    let timeline = timeline_with(&[("pd", "pdm", ""), ("by", "by", credit)]);

    let plan = plan_render(&timeline).expect("план собирается");

    assert_eq!(plan.credits_text(), credit);
    assert_eq!(plan.asset_ids().len(), 2);
}

#[test]
fn drawtext_special_characters_are_escaped() {
    let credit = "\"A: B\" by O'Brien is licensed under CC BY 2.0.";
    let timeline = timeline_with(&[("a1", "by", credit)]);

    let plan = plan_render(&timeline).expect("план собирается");
    let args = plan.ffmpeg_args("out.mp4");
    let vf = args.iter().find(|a| a.contains("drawtext")).expect("есть drawtext");

    assert!(vf.contains("\\:"), "двоеточие должно быть экранировано");
    assert!(vf.contains("\\'"), "апостроф должен быть экранирован");
}

#[test]
fn the_plan_lists_its_arguments_in_order() {
    let timeline = timeline_with(&[("a", "by", " one "), ("b", "by", "two"), ("c", "by", "one")]);
    let plan = plan_render(&timeline).unwrap();
    assert_eq!(plan.clone(), plan);
    assert_eq!(timeline.clone().assets(), timeline.assets());
    assert_eq!(plan.credits_text(), "one\ntwo");
    assert_eq!(
        plan.ffmpeg_args("o.mp4"),
        vec!["-i", "a", "-i", "b", "-i", "c", "-vf", "drawtext=text='one · two'", "o.mp4"]
    );
    assert_eq!(escape_drawtext("\\ ' : \n"), "\\\\ \\' \\:  · ");
}

#[test]
fn a_missing_credit_reads_as_a_sentence() {
    let error = BuildError::CreditMissing { asset_id: "z".to_string() };
    assert_eq!(error.message(), "ассет z требует атрибуции, но титров для него нет");
}

// Openverse.

fn real_result() -> SearchResult {
    SearchResult {
        id: "f9812900-83f8-49a6".to_string(),
        title: Some("mountain".to_string()),
        url: "https://live.staticflickr.com/1/mountain.jpg".to_string(),
        foreign_landing_url: "https://www.flickr.com/photos/kiwitom/1".to_string(),
        license: "by".to_string(),
        license_version: Some("2.0".to_string()),
        license_url: Some("https://creativecommons.org/licenses/by/2.0/".to_string()),
        creator: Some("Kiwi Tom".to_string()),
        creator_url: None,
        attribution: Some("\"mountain\" by Kiwi Tom is licensed under CC BY 2.0.".to_string()),
    }
}

#[test]
fn real_response_becomes_manifest_entry_with_full_provenance() {
    let entry = to_manifest_entry(&real_result(), NOW);

    assert!(entry.asset_id.starts_with("openverse:"));
    assert_eq!(entry.kind, MediaKind::Image);

    let Provenance::Licensed(p) = &entry.provenance else {
        panic!("ассет из источника обязан быть Licensed");
    };
    assert_eq!(p.source, "openverse");
    assert!(!p.asset_url.is_empty(), "URL");
    assert_eq!(p.license, "by", "идентификатор лицензии");
    assert!(p.creator.is_some(), "автор");
    assert!(!p.license_snapshot.is_empty(), "снимок текста лицензии");
    assert_eq!(p.retrieved_at, NOW, "время получения");
    assert_eq!(
        p.license_snapshot,
        "\"mountain\" by Kiwi Tom is licensed under CC BY 2.0. | \
         https://creativecommons.org/licenses/by/2.0/ | версия 2.0"
    );
}

#[test]
fn entry_from_real_response_passes_the_gate_and_carries_credit() {
    let entry = to_manifest_entry(&real_result(), NOW);
    let asset_id = entry.asset_id.clone();

    let mut manifest = Manifest::new();
    manifest.insert(entry);

    let admitted = admit_asset(&manifest, &asset_id).expect("CC-BY из Openverse допускается");
    assert!(
        admitted.credit().is_some(),
        "CC-BY обязан принести строку титров"
    );
}

#[test]
fn missing_optional_fields_do_not_panic() {
    let minimal = SearchResult {
        id: "x1".to_string(),
        title: None,
        url: "https://example.org/a.jpg".to_string(),
        foreign_landing_url: "https://example.org/p".to_string(),
        license: "by".to_string(),
        license_version: None,
        license_url: None,
        creator: None,
        creator_url: None,
        attribution: None,
    };
    let entry = to_manifest_entry(&minimal, NOW);
    let Provenance::Licensed(p) = &entry.provenance else {
        panic!("Licensed");
    };
    assert_eq!(p.license_url, "https://creativecommons.org/licenses/by/");
    assert_eq!(p.license_snapshot, " | https://creativecommons.org/licenses/by/ | версия ");

    let asset_id = entry.asset_id.clone();
    let mut manifest = Manifest::new();
    manifest.insert(entry);
    assert!(
        admit_asset(&manifest, &asset_id).is_err(),
        "CC-BY без строки автора использовать нельзя"
    );
}

#[test]
fn end_to_end_from_real_source_response_to_render_plan() {
    let parsed = SearchResponse { results: vec![real_result()] };

    let mut manifest = Manifest::new();
    let mut ids = Vec::new();
    for entry in to_manifest_entries(&parsed, NOW) {
        ids.push(entry.asset_id.clone());
        manifest.insert(entry);
    }

    let mut timeline = Timeline::new();
    for id in &ids {
        timeline.push(admit_asset(&manifest, id).expect("ассет допущен"));
    }

    let plan = plan_render(&timeline).expect("план собирается");

    assert_eq!(plan.asset_ids().len(), ids.len());
    assert!(
        !plan.credits_text().is_empty(),
        "проект из CC-BY-материала обязан иметь непустые титры"
    );
}

#[test]
fn user_material_and_licensed_material_coexist() {
    let mut manifest = Manifest::new();
    let licensed = to_manifest_entry(&real_result(), NOW);
    let licensed_id = licensed.asset_id.clone();
    manifest.insert(licensed);
    manifest.insert(ManifestEntry {
        asset_id: "user:my-photo".to_string(),
        kind: MediaKind::Image,
        provenance: Provenance::UserOwned(UserProvenance {
            original_path: "C:/photos/my.jpg".to_string(),
            rights_confirmation: "снято мной, права мои".to_string(),
            confirmed_at: NOW,
        }),
    });

    let mut timeline = Timeline::new();
    timeline.push(admit_asset(&manifest, "user:my-photo").expect("свой материал допущен"));
    timeline.push(admit_asset(&manifest, &licensed_id).expect("лицензионный допущен"));

    let plan = plan_render(&timeline).expect("план собирается");

    assert_eq!(plan.asset_ids().len(), 2);
    assert_eq!(
        plan.credits_text().lines().count(),
        1,
        "в титрах ровно один CC-BY-материал"
    );
}

#[test]
fn unmanifested_asset_never_reaches_the_timeline() {
    let manifest = Manifest::new();
    let rejection = admit_asset(&manifest, "скачано-мимо-пайплайна.jpg")
        .expect_err("ассет без манифеста обязан быть отвергнут");
    assert!(matches!(rejection, GateRejection::NoManifestEntry { .. }));

    let timeline = Timeline::new();
    assert!(timeline.is_empty());
}

#[test]
fn a_search_is_asked_and_refused_in_words() {
    let licenses = vec!["cc0".to_string(), "by".to_string()];
    let parameters = search_parameters("горное озеро", &licenses, 5);
    let parameters: Vec<(&str, &str)> =
        parameters.iter().map(|(k, v)| (&k[..], v.as_str())).collect();
    assert_eq!(
        parameters,
        vec![("q", "горное озеро"), ("license", "cc0,by"), ("page_size", "5")]
    );
    let why = "License 'x' does not exist.";
    let told = "Openverse ответил 400 Bad Request на https://x/: License 'x' does not exist.";
    assert_eq!(search_failure("400 Bad Request", "https://x/", why), told);
    assert_eq!(search_answered(400, "400 Bad Request", "https://x/", why), Err(told.to_string()));
    assert_eq!(search_answered(200, "200 OK", "https://x/", "{}"), Ok(()));
    assert_eq!(search_answered(299, "299", "https://x/", "{}"), Ok(()));
    assert!(search_answered(199, "199", "https://x/", "{}").is_err());
    assert!(search_answered(300, "300 Multiple Choices", "https://x/", "{}").is_err());
}

// Downloads.

fn entry(kind: MediaKind, provenance: Provenance) -> ManifestEntry {
    ManifestEntry {
        asset_id: "openverse:abc-123".to_string(),
        kind,
        provenance,
    }
}

#[test]
fn detects_real_image_signatures() {
    assert_eq!(detect_image_format(&[0xFF, 0xD8, 0xFF, 0xE0]), Some(ImageFormat::Jpeg));
    assert_eq!(
        detect_image_format(&[0x89, b'P', b'N', b'G', 0x0D, 0x0A, 0x1A, 0x0A]),
        Some(ImageFormat::Png)
    );
    assert_eq!(detect_image_format(b"GIF89a...."), Some(ImageFormat::Gif));

    let mut webp = Vec::from(*b"RIFF");
    webp.extend_from_slice(&[0, 0, 0, 0]);
    webp.extend_from_slice(b"WEBP");
    assert_eq!(detect_image_format(&webp), Some(ImageFormat::WebP));
}

#[test]
fn html_error_page_is_not_an_image() {
    assert_eq!(detect_image_format(b"<!DOCTYPE html><html>"), None);
    assert_eq!(detect_image_format(b""), None);
    assert_eq!(detect_image_format(&[0xFF]), None);
}

#[test]
fn user_material_is_not_downloadable() {
    let entry = entry(MediaKind::Image, own("мои"));
    assert_eq!(downloadable_url(&entry), None);
    let result = Download::start(&entry);
    assert!(matches!(result, Err(FetchError::NotDownloadable { .. })));
}

#[test]
fn non_image_kind_is_refused_before_any_network_call() {
    let entry = entry(MediaKind::Audio, licensed("by", "credit"));
    let result = Download::start(&entry);
    assert!(matches!(
        result,
        Err(FetchError::KindMismatch {
            declared: MediaKind::Audio,
            ..
        })
    ));
}

#[test]
fn unreachable_host_is_an_error_not_a_panic() {
    let entry = entry(MediaKind::Image, licensed("by", "credit"));
    let (download, url) = Download::start(&entry).unwrap_or_else(|e| panic!("{}", e.message()));
    assert_eq!(url, "https://example.org/a.jpg");
    let error = download.http_error("connection refused".to_string());
    assert!(matches!(error, FetchError::Http { .. }));
    assert_eq!(
        error.message(),
        "openverse:abc-123: ошибка загрузки — connection refused"
    );
}

#[test]
fn only_a_success_is_taken_in() {
    let entry = entry(MediaKind::Image, licensed("by", "credit"));
    let (download, _) = Download::start(&entry).unwrap_or_else(|e| panic!("{}", e.message()));
    let refused = download.answered(403, "403 Forbidden");
    assert_eq!(
        refused,
        Err(FetchError::Http {
            asset_id: "openverse:abc-123".to_string(),
            detail: "HTTP 403 Forbidden".to_string(),
        })
    );
    assert_eq!(
        refused.unwrap_err().message(),
        "openverse:abc-123: ошибка загрузки — HTTP 403 Forbidden"
    );
    assert_eq!(download.answered(200, "200 OK"), Ok(()));
    assert_eq!(download.answered(299, "299"), Ok(()));
    assert!(download.answered(199, "199").is_err());
    assert!(download.answered(300, "300 Multiple Choices").is_err());
}

#[test]
fn asset_id_becomes_a_safe_file_name() {
    let stem = safe_file_stem("openverse:f9812900-83f8-49a6");
    assert!(!stem.contains(':'));
    assert!(stem.starts_with("openverse_"));
    assert_eq!(safe_file_stem("a/б\\..c"), "a_____c");
}

#[test]
fn head_hex_is_readable_for_diagnostics() {
    assert_eq!(head_hex(b"<!DOC"), "3c 21 44 4f 43");
    assert_eq!(head_hex(&[0, 255, 16, 1, 2, 3, 4, 5, 6, 7]), "00 ff 10 01 02 03 04 05");
    assert_eq!(head_hex(b""), "");
}

fn begin() -> Download {
    let entry = entry(MediaKind::Image, licensed("by", "credit"));
    match Download::start(&entry) {
        Ok((download, _)) => download,
        Err(e) => panic!("{}", e.message()),
    }
}

#[test]
fn a_picture_is_taken_chunk_by_chunk() {
    let mut download = begin();
    let mut jpeg = vec![0xFF, 0xD8, 0xFF];
    jpeg.resize(100, 7);
    download.take_chunk(&jpeg[..40].to_vec()).unwrap();
    download.take_chunk(&jpeg[40..].to_vec()).unwrap();
    let verified = download.finish().unwrap_or_else(|e| panic!("{}", e.message()));
    assert_eq!(verified.body, jpeg);
    assert_eq!(verified.format, ImageFormat::Jpeg);
    assert_eq!(verified.file_name, "openverse_abc-123.jpg");
    assert_eq!(verified.asset_id, "openverse:abc-123");
}

#[test]
fn what_is_no_picture_is_refused() {
    let mut small = begin();
    small.take_chunk(&vec![0xFF, 0xD8, 0xFF]).unwrap();
    let error = small.finish().err().unwrap();
    assert_eq!(error, FetchError::Empty { asset_id: "openverse:abc-123".to_string() });
    assert_eq!(error.message(), "openverse:abc-123: пустой файл");

    let mut page = begin();
    page.take_chunk(&b"<!DOCTYPE html>".repeat(10)).unwrap();
    assert_eq!(
        page.finish().err().unwrap().message(),
        "openverse:abc-123: содержимое не является изображением \
         (первые байты: 3c 21 44 4f 43 54 59 50)"
    );
}

#[test]
fn a_download_stops_at_the_limit() {
    let mut download = begin();
    download.take_chunk(&vec![0; MAX_ASSET_BYTES as usize]).unwrap();
    let error = download.take_chunk(&vec![0]).unwrap_err();
    assert_eq!(
        error.message(),
        "openverse:abc-123: файл превышает лимит 33554432 байт"
    );
}

#[test]
fn other_download_errors_read_as_sentences() {
    assert_eq!(
        FetchError::NotDownloadable { asset_id: "u".to_string() }.message(),
        "u: нечего скачивать (материал пользователя)"
    );
    assert_eq!(
        FetchError::KindMismatch { asset_id: "v".to_string(), declared: MediaKind::Video }.message(),
        "v: манифест заявляет Video, а скачано изображение"
    );
    assert_eq!(
        Download::io_error("w", "disk full".to_string()).message(),
        "w: не удалось сохранить — disk full"
    );
    assert_eq!(ImageFormat::WebP.extension(), "webp");
    assert_eq!(ImageFormat::Png.extension(), "png");
    assert_eq!(ImageFormat::Gif.extension(), "gif");
}

// Rendering.

fn asset(path: &str) -> DownloadedAsset {
    DownloadedAsset {
        asset_id: "openverse:test".to_string(),
        path: path.to_string(),
        bytes: 1024,
        format: ImageFormat::Jpeg,
    }
}

#[test]
fn every_argument_is_a_separate_argv_element() {
    let files = vec![asset("C:/Кирпич Space/a b.jpg")];
    let args = build_args(&files, "filter", "C:/out dir/render.mp4");

    assert!(args.contains(&"C:/Кирпич Space/a b.jpg".to_string()));
    assert!(args.contains(&"C:/out dir/render.mp4".to_string()));
    assert!(args.contains(&"filter".to_string()));
    assert!(!args.iter().any(|a| a.contains("-i C:/")));
}

#[test]
fn filter_escapes_windows_paths() {
    let filter = build_filter_complex(2, "C:/renders/credits.txt");

    assert!(filter.contains("C\\:/renders/credits.txt"));
    assert!(filter.contains("C\\:/Windows/Fonts/arial.ttf"));
    assert!(filter.contains("[0:v]scale=1280:720"));
    assert!(filter.contains("[1:v]scale=1280:720"));
    assert!(filter.contains("concat=n=2:v=1:a=0"));
}

#[test]
fn credits_text_never_becomes_an_argument() {
    let nasty = "\"A: B\" by O'Brien — CC BY 2.0; rm -rf /";
    let filter = build_filter_complex(1, "C:/r/credits.txt");
    let args = build_args(&vec![asset("a.jpg")], &filter, "out.mp4");

    assert!(!args.iter().any(|a| a.contains(nasty)));
    assert!(filter.contains("textfile="));
    assert!(!filter.contains("text='"));
}

#[test]
fn mp4_signature_is_checked_not_assumed() {
    let mut good = vec![0u8, 0, 0, 0x20];
    good.extend_from_slice(b"ftypisom");
    assert!(looks_like_mp4(&good));

    assert!(!looks_like_mp4(b"<!DOCTYPE html>"));
    assert!(!looks_like_mp4(&[]));
}

#[test]
fn empty_input_list_is_refused() {
    let filter = build_filter_complex(0, "c.txt");
    assert!(filter.contains("concat=n=0"));
}

#[test]
fn no_inputs_fails_before_spawning() {
    let result = prepare_render(&vec![], true, "./unused/credits.txt", "./unused/render.mp4");
    assert_eq!(result, Err(RenderError::NoInputs));
    assert_eq!(
        prepare_render(&vec![asset("a.jpg")], false, "c", "o"),
        Err(RenderError::FfmpegUnavailable)
    );
}

#[test]
fn broken_asset_path_gives_failed_not_panic() {
    let end = ProcessEnd::Exited {
        success: false,
        code: Some(1),
        stderr: "ffmpeg version 7\n\nC:/definitely/missing/asset.jpg: No such file\n  \n\
                 Error opening input\nError opening input files\n"
            .to_string(),
    };
    match check_exit(end) {
        Err(RenderError::Failed { code, stderr_tail }) => {
            assert_ne!(code, Some(0), "код возврата должен быть ненулевым");
            assert!(!stderr_tail.is_empty(), "причина обязана попасть в отчёт");
            assert_eq!(
                stderr_tail,
                "C:/definitely/missing/asset.jpg: No such file | Error opening input | \
                 Error opening input files"
            );
        }
        other => panic!("ожидался Failed от ffmpeg, получено {other:?}"),
    }
}

#[test]
fn the_arguments_stand_in_their_order() {
    let filter = build_filter_complex(1, "c.txt");
    assert_eq!(
        filter,
        "[0:v]scale=1280:720:force_original_aspect_ratio=decrease,\
         pad=1280:720:(ow-iw)/2:(oh-ih)/2,setsar=1[v0];\
         [v0]concat=n=1:v=1:a=0[vc];\
         [vc]drawtext=fontfile='C\\:/Windows/Fonts/arial.ttf':textfile='c.txt':\
         x=20:y=h-th-20:fontsize=20:fontcolor=white:box=1:boxcolor=black@0.6:boxborderw=10[vout]"
    );
    let args = prepare_render(&vec![asset("a.jpg"), asset("b.jpg")], true, "c.txt", "o.mp4").unwrap();
    assert_eq!(args[0], "-y");
    assert_eq!(&args[1..7], &["-loop", "1", "-t", "3", "-i", "a.jpg"]);
    assert_eq!(&args[7..13], &["-loop", "1", "-t", "3", "-i", "b.jpg"]);
    assert_eq!(args[13], "-filter_complex");
    assert_eq!(
        &args[15..],
        &["-map", "[vout]", "-c:v", "libx264", "-pix_fmt", "yuv420p", "-r", "30", "o.mp4"]
    );
    assert_eq!(escape_filter_path("C:\\a\\b"), "C\\:/a/b");
    assert_eq!((CREDITS_FILE, OUTPUT_FILE), ("credits.txt", "render.mp4"));
}

#[test]
fn a_render_is_checked_to_the_end() {
    assert_eq!(check_exit(ProcessEnd::TimedOut), Err(RenderError::TimedOut { seconds: 300 }));
    assert_eq!(
        check_exit(ProcessEnd::NotStarted("no".to_string())),
        Err(RenderError::Spawn("no".to_string()))
    );
    let fine = ProcessEnd::Exited { success: true, code: Some(0), stderr: String::new() };
    assert_eq!(check_exit(fine), Ok(()));
    let mut head = vec![0u8, 0, 0, 0x20];
    head.extend_from_slice(b"ftypisom");
    assert_eq!(check_output(10, &head), Ok(()));
    assert_eq!(check_output(0, &head), Err(RenderError::EmptyOutput));
    assert_eq!(
        check_output(5, b"<html>"),
        Err(RenderError::NotAnMp4 { head: "3c 68 74 6d 6c 3e".to_string() })
    );
    assert_eq!(tail_lines("a\nb", 3), "a | b");
    assert_eq!(tail_lines("a\r\nb\r\n\nc\nd", 2), "c | d");
}

#[test]
fn render_errors_read_as_sentences() {
    let texts = [
        (
            RenderError::FfmpegUnavailable,
            "ffmpeg не найден в PATH — установите его и повторите (сами мы его не ставим)",
        ),
        (RenderError::NoInputs, "нечего рендерить: нет ни одного файла"),
        (RenderError::Spawn("x".to_string()), "не удалось запустить ffmpeg: x"),
        (
            RenderError::Failed { code: Some(-2), stderr_tail: "y".to_string() },
            "ffmpeg завершился с кодом -2: y",
        ),
        (
            RenderError::Failed { code: None, stderr_tail: "y".to_string() },
            "ffmpeg прерван сигналом: y",
        ),
        (RenderError::TimedOut { seconds: 300 }, "ffmpeg не уложился в 300 с и был снят"),
        (RenderError::Io("z".to_string()), "ошибка файловой системы: z"),
        (RenderError::EmptyOutput, "ffmpeg отчитался об успехе, но файл пуст"),
        (
            RenderError::NotAnMp4 { head: "00".to_string() },
            "результат не является MP4 (первые байты: 00)",
        ),
    ];
    for (error, text) in texts {
        assert_eq!(error.message(), text);
    }
}
