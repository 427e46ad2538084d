use kaic_backend::router::{contains_any, Category, Router, TaskMetadata};

#[test]
fn agent_override_wins_regardless_of_text_or_metadata() {
    let metadata = TaskMetadata {
        agent_category: Some(Category::Video),
        file_count: 100,
        total_lines: 5000,
    };
    assert_eq!(
        Router::classify("рассчитай тягу двигателя", &metadata),
        Category::Video
    );
}

#[test]
fn large_metadata_wins_over_keywords() {
    let metadata = TaskMetadata {
        agent_category: None,
        file_count: 20,
        total_lines: 200,
    };
    assert_eq!(
        Router::classify("напиши функцию сортировки", &metadata),
        Category::LargeProject
    );
}

#[test]
fn keywords_classify_engineering() {
    let metadata = TaskMetadata::default();
    assert_eq!(
        Router::classify("посчитай расчёт тяги для двигателя Арматура", &metadata),
        Category::Engineering
    );
}

#[test]
fn keywords_classify_programming() {
    let metadata = TaskMetadata::default();
    assert_eq!(
        Router::classify("напиши функцию сортировки на Rust", &metadata),
        Category::Programming
    );
}

#[test]
fn unknown_text_defaults_to_simple() {
    let metadata = TaskMetadata::default();
    assert_eq!(
        Router::classify("привет, как дела?", &metadata),
        Category::Simple
    );
}

#[test]
fn category_as_str_matches_registry_keys() {
    assert_eq!(Category::LargeProject.as_str(), "LargeProject");
    assert_eq!(Category::DeepAnalysis.as_str(), "DeepAnalysis");
}

#[test]
fn every_category_has_its_name() {
    assert_eq!(Category::Simple.as_str(), "Simple");
    assert_eq!(Category::Programming.as_str(), "Programming");
    assert_eq!(Category::Engineering.as_str(), "Engineering");
    assert_eq!(Category::Video.as_str(), "Video");
    assert_eq!(Category::Research.as_str(), "Research");
}

#[test]
fn capital_letters_are_no_obstacle() {
    let metadata = TaskMetadata::default();
    assert_eq!(Router::classify("СМОНТИРУЙ ролик", &metadata), Category::Video);
    assert_eq!(Router::classify("Исследуй тему", &metadata), Category::Research);
    assert_eq!(Router::classify_lowered("СМОНТИРУЙ ролик", &metadata), Category::Simple);
}

#[test]
fn the_more_specific_words_go_first() {
    let metadata = TaskMetadata::default();
    // "рефактори" speaks of an analysis, "рефактор" alone of programming.
    assert_eq!(Router::classify("рефактори модуль", &metadata), Category::DeepAnalysis);
    assert_eq!(Router::classify("рефакторинг модуля", &metadata), Category::DeepAnalysis);
    assert_eq!(Router::classify("рефактор модуля", &metadata), Category::Programming);
    assert_eq!(Router::classify("видео про двигатель", &metadata), Category::Engineering);
}

#[test]
fn the_thresholds_are_inclusive() {
    let by_files = |n: usize| TaskMetadata { agent_category: None, file_count: n, total_lines: 0 };
    let by_lines = |n: usize| TaskMetadata { agent_category: None, file_count: 0, total_lines: n };
    assert_eq!(Router::classify("", &by_files(10)), Category::LargeProject);
    assert_eq!(Router::classify("", &by_files(9)), Category::Simple);
    assert_eq!(Router::classify("", &by_lines(1000)), Category::LargeProject);
    assert_eq!(Router::classify("", &by_lines(999)), Category::Simple);
}

#[test]
fn a_word_is_found_anywhere() {
    assert!(contains_any("abcdef", &["x", "cde"]));
    assert!(!contains_any("abcdef", &["x", "ce"]));
    assert!(!contains_any("abc", &[]));
    assert!(contains_any("", &[""]));
}
