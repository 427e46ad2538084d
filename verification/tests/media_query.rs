use kaic_backend::media::query::{
    build_messages, build_request, narrowing_variants, sanitize, strip_trailing_stopwords,
    MAX_TERM_WORDS,
};
use kaic_backend::model_backend::Role;

#[test]
fn narrowing_goes_from_specific_to_broad() {
    assert_eq!(
        narrowing_variants("Озеро горы вода"),
        vec!["Озеро горы вода", "Озеро горы", "Озеро"]
    );
}

#[test]
fn single_word_has_nothing_to_narrow() {
    assert_eq!(narrowing_variants("озеро"), vec!["озеро"]);
    assert!(narrowing_variants("").is_empty());
}

#[test]
fn trailing_preposition_is_stripped_in_both_languages() {
    assert_eq!(strip_trailing_stopwords("снежный лес на"), "снежный лес");
    assert_eq!(strip_trailing_stopwords("старый маяк на"), "старый маяк");
    assert_eq!(strip_trailing_stopwords("Old lighthouse on"), "Old lighthouse");
    assert_eq!(strip_trailing_stopwords("улица под"), "улица");
}

#[test]
fn meaningful_last_word_is_kept() {
    assert_eq!(strip_trailing_stopwords("mountain lake"), "mountain lake");
    assert_eq!(strip_trailing_stopwords("горное озеро"), "горное озеро");
    assert_eq!(strip_trailing_stopwords("busy city street"), "busy city street");
}

#[test]
fn stopword_inside_the_phrase_is_untouched() {
    assert_eq!(strip_trailing_stopwords("bridge over river"), "bridge over river");
    assert_eq!(strip_trailing_stopwords("дом у моря"), "дом у моря");
}

#[test]
fn stripping_never_yields_an_empty_term() {
    assert_eq!(strip_trailing_stopwords("на"), "на");
    assert_eq!(strip_trailing_stopwords("of the"), "of");
    assert!(!strip_trailing_stopwords("под над").is_empty());
}

#[test]
fn sanitize_applies_stripping_after_the_three_word_limit() {
    assert_eq!(
        sanitize("старый маяк на скалистом берегу"),
        Some("старый маяк".to_string())
    );
    assert_eq!(
        sanitize("busy city street in the rain"),
        Some("busy city street".to_string())
    );
}

#[test]
fn extracts_plain_answer() {
    assert_eq!(sanitize("горное озеро"), Some("горное озеро".to_string()));
}

#[test]
fn strips_decoration_models_like_to_add() {
    assert_eq!(sanitize("\"горное озеро\""), Some("горное озеро".to_string()));
    assert_eq!(sanitize("«горное озеро»"), Some("горное озеро".to_string()));
    assert_eq!(sanitize("- горное озеро"), Some("горное озеро".to_string()));
    assert_eq!(sanitize("горное озеро."), Some("горное озеро".to_string()));
}

#[test]
fn takes_the_last_line_when_model_adds_preamble() {
    let raw = "Конечно! Вот ключевые слова:\n\nгорное озеро";
    assert_eq!(sanitize(raw), Some("горное озеро".to_string()));
}

#[test]
fn preamble_is_dropped_whatever_separates_it_from_the_answer() {
    for sep in ['\u{2028}', '\u{85}', '\u{0b}', '\u{0c}', '\u{2029}'] {
        let raw = format!("mountain lake{sep}city bridge");
        assert_eq!(
            sanitize(&raw),
            Some("city bridge".to_string()),
            "разделитель U+{:04X} не отделил преамбулу",
            sep as u32
        );
    }
}

#[test]
fn whatever_stands_before_the_answer_is_dropped() {
    for end in ['\n', '\u{1e}', '\u{2029}'] {
        for answer in ["city bridge", "old\nmill  \n\n", "..\n", "\"\" "] {
            let raw = format!("Sure, here are some words:{end}{answer}");
            assert_eq!(sanitize(&raw), sanitize(answer));
        }
    }
}

#[test]
fn every_end_of_a_line_ends_the_preamble() {
    for sep in ['\n', '\r', '\u{1c}', '\u{1d}', '\u{1e}'] {
        let raw = format!("mountain lake{sep}city bridge{sep} {sep}");
        assert_eq!(sanitize(&raw), Some("city bridge".to_string()));
        // With blank lines alone behind it, the first line is the answer.
        let raw = format!("mountain lake{sep} {sep}");
        assert_eq!(sanitize(&raw), Some("mountain lake".to_string()));
    }
    // A unit separator ends no line, and is no letter either.
    assert_eq!(sanitize("city\u{1f} bridge"), Some("city bridge".to_string()));
}

#[test]
fn a_separator_inside_the_answer_does_not_split_words_together() {
    assert_eq!(
        sanitize("mountain lake\u{2028}горное озеро"),
        Some("горное озеро".to_string())
    );
}

#[test]
fn caps_word_count_because_openverse_requires_all_words_to_match() {
    let raw = "горное озеро закат туман отражение красота";
    let term = sanitize(raw).expect("термин есть");
    assert_eq!(term.split_whitespace().count(), MAX_TERM_WORDS);
    assert_eq!(term, "горное озеро закат");
}

#[test]
fn rejects_retelling_instead_of_keywords() {
    let raw = "Пользователь просит подготовить видеоролик про красивое \
               горное озеро в предгорьях с закатом и туманом";
    assert_eq!(sanitize(raw), None);
}

#[test]
fn rejects_empty_and_punctuation_only() {
    assert_eq!(sanitize(""), None);
    assert_eq!(sanitize("   \n  "), None);
    assert_eq!(sanitize("...."), None);
    assert_eq!(sanitize("\"\""), None);
}

#[test]
fn keeps_latin_terms_intact() {
    assert_eq!(sanitize("mountain lake"), Some("mountain lake".to_string()));
}

#[test]
fn prompt_names_no_command_words() {
    let messages = build_messages("сделай видео про горное озеро");
    assert_eq!(messages.len(), 2);
    assert!(messages[1].content.contains("сделай видео про горное озеро"));
    assert!(messages[0].content.contains("связная фраза"));
    assert!(messages[0].content.contains("НЕ перечисляй синонимы"));
    assert_eq!(messages[0].role, Role::System);
    assert_eq!(
        messages[1].content,
        "Задача: сделай видео про горное озеро\nКлючевые слова:"
    );
}

#[test]
fn the_request_offers_no_tools() {
    let request = build_request("x");
    assert!(request.tools.is_empty());
    assert_eq!(request.temperature, None);
    assert_eq!(request.messages.len(), 2);
}

#[test]
fn the_length_limit_is_inclusive() {
    let sixty = format!("{} {}", "a".repeat(29), "b".repeat(30));
    assert_eq!(sanitize(&sixty), Some(sixty.clone()));
    let more = format!("{} {}", "a".repeat(30), "b".repeat(30));
    assert_eq!(sanitize(&more), None);
}

#[test]
fn letters_and_hyphens_stay_the_rest_goes() {
    assert_eq!(sanitize("well-known (old) bridge!"), Some("well-known old bridge".to_string()));
    assert_eq!(sanitize("*  ночной город, 2024:"), Some("ночной город 2024".to_string()));
    assert_eq!(sanitize("Дом У"), Some("Дом".to_string()));
}
