use kaic_backend::capability_registry::{CapabilityEntry, CapabilityRegistry};
use kaic_backend::keyed::Keyed;

fn entry(primary: &str, fallback: &[&str]) -> CapabilityEntry {
    CapabilityEntry {
        primary: primary.to_string(),
        fallback: fallback.iter().map(|m| m.to_string()).collect(),
        manual_only: false,
    }
}

fn registry(entries: Vec<(&str, CapabilityEntry)>) -> CapabilityRegistry {
    let mut table = Keyed::new();
    for (name, entry) in entries {
        table.insert(name.to_string(), entry);
    }
    CapabilityRegistry::new(table)
}

#[test]
fn candidates_returns_primary_then_fallback() {
    let registry = registry(vec![("Programming", entry("Fable9B", &["GLM47", "GPTOSS20"]))]);
    assert_eq!(
        registry.candidates("Programming"),
        vec!["Fable9B", "GLM47", "GPTOSS20"]
    );
}

#[test]
fn unknown_category_returns_empty() {
    let registry = registry(vec![]);
    assert!(registry.candidates("Unknown").is_empty());
}

#[test]
fn manual_only_defaults_to_false() {
    let registry = registry(vec![("Programming", entry("Fable9B", &[]))]);
    assert!(!registry.is_manual_only("Programming"));
    assert!(!registry.is_manual_only("Unknown"));
}

#[test]
fn a_manual_only_category_says_so() {
    let mut manual = entry("Qwen40B", &[]);
    manual.manual_only = true;
    let registry = registry(vec![("DeepAnalysis", manual), ("Simple", entry("Fable9B", &[]))]);
    assert!(registry.is_manual_only("DeepAnalysis"));
    assert!(!registry.is_manual_only("Simple"));
    assert_eq!(registry.get("DeepAnalysis").unwrap().primary, "Qwen40B");
    assert!(registry.get("Video").is_none());
    assert_eq!(registry.categories(), vec!["DeepAnalysis", "Simple"]);
}

#[test]
fn a_later_value_replaces_the_earlier_one_in_its_place() {
    let mut table: Keyed<u8> = Keyed::new();
    table.insert("a".to_string(), 1);
    table.insert("b".to_string(), 2);
    table.insert("a".to_string(), 3);
    assert_eq!(table.len(), 2);
    assert_eq!(table.key_at(0), "a");
    assert_eq!(*table.value_at(0), 3);
    assert_eq!(table.position("b"), Some(1));
    table.remove("a");
    assert!(!table.contains("a"));
    assert_eq!(table.get("b"), Some(&2));
    assert_eq!(table.position("a"), None);
}
