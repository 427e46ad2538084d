use kaic_backend::keyed::Keyed;
use kaic_backend::resource_registry::{
    replace_temperature_line, validate_temperature, PreferredDevice, ResourceEntry,
    ResourceRegistry, Temperature,
};

const SAMPLE: &str = "# шапка с обоснованием
Fable9B:
  vram_mb: 5734
  # комментарий про измерение
  temperature: null
  load_seconds: 9

Nemotron:
  vram_mb: 25723
  temperature: null
";

fn replace(raw: &str, model: &str, value: Option<f32>) -> Result<String, String> {
    let shown = value.map(|v| v.to_string());
    replace_temperature_line(raw, model, shown.as_deref())
}

fn temperature(value: f32) -> Temperature {
    Temperature { bits: value.to_bits() }
}

fn validate(value: Option<f32>) -> Result<(), String> {
    let shown = value.map(|v| v.to_string()).unwrap_or_default();
    validate_temperature(value.map(temperature), &shown)
}

#[test]
fn set_temperature_preserves_comments() {
    let out = replace(SAMPLE, "Fable9B", Some(0.2)).expect("правка удалась");

    assert!(out.contains("# шапка с обоснованием"));
    assert!(out.contains("# комментарий про измерение"));
    assert!(out.contains("  temperature: 0.2"));
    assert!(out.contains("Nemotron:
  vram_mb: 25723
  temperature: null"));
}

#[test]
fn set_temperature_touches_only_the_named_model() {
    let out = replace(SAMPLE, "Nemotron", Some(1.5)).expect("правка удалась");

    assert!(out.contains("Nemotron:
  vram_mb: 25723
  temperature: 1.5"));
    assert!(out.contains("  temperature: null
  load_seconds: 9"));
}

#[test]
fn null_is_written_back_as_null_not_dropped() {
    let with_value = replace(SAMPLE, "Fable9B", Some(0.7)).unwrap();
    let cleared = replace(&with_value, "Fable9B", None).unwrap();

    assert!(cleared.contains("  temperature: null"));
    assert!(!cleared.contains("0.7"));
    assert_eq!(cleared, SAMPLE);
}

#[test]
fn missing_temperature_line_is_appended_to_the_block() {
    let without = "Fable9B:
  vram_mb: 5734

Nemotron:
  vram_mb: 1
";
    let out = replace(without, "Fable9B", Some(0.3)).unwrap();

    assert!(out.contains("Fable9B:
  vram_mb: 5734
  temperature: 0.3"));
    assert_eq!(out, "Fable9B:
  vram_mb: 5734
  temperature: 0.3

Nemotron:
  vram_mb: 1
");
}

#[test]
fn unknown_model_is_an_error_not_a_silent_noop() {
    let err = replace(SAMPLE, "НетТакой", Some(0.5)).expect_err("несуществующая модель — ошибка");
    assert!(err.contains("не найден"));
    assert_eq!(err, "блок модели 'НетТакой' не найден в YAML");
}

#[test]
fn temperature_outside_our_range_is_rejected() {
    for bad in [-1.0_f32, -0.1, 2.01, 9.0, f32::NAN] {
        let err = validate(Some(bad)).expect_err("значение вне диапазона");
        assert!(err.contains("temperature"), "ошибка называет поле: {err}");
        assert!(err.contains("0–2"), "ошибка называет диапазон: {err}");
    }
    assert!(validate(Some(0.0)).is_ok());
    assert!(validate(Some(2.0)).is_ok());
    assert!(validate(None).is_ok());
}

#[test]
fn the_range_holds_at_its_very_ends() {
    assert!(validate(Some(-0.0)).is_ok());
    assert!(validate(Some(f32::MIN_POSITIVE)).is_ok());
    assert!(validate(Some(f32::from_bits(2.0_f32.to_bits() + 1))).is_err());
    assert!(validate(Some(f32::from_bits((-0.0_f32).to_bits() + 1))).is_err());
    assert!(validate(Some(f32::INFINITY)).is_err());
    assert!(validate(Some(f32::NEG_INFINITY)).is_err());
    assert!(validate(Some(-f32::NAN)).is_err());
    assert_eq!(
        validate(Some(9.5)).unwrap_err(),
        "temperature должна быть числом в диапазоне 0–2 (или null, чтобы снять настройку); получено 9.5"
    );
}

#[test]
fn set_temperature_writes_through_a_temp_file_and_leaves_none_behind() {
    let raw = "# шапка с обоснованием
Fable9B:
  vram_mb: 5734
  load_seconds: 9
  temperature: null
";
    let mut registry = sample_registry();
    let written = registry
        .set_temperature("Fable9B", Some(temperature(1.0)), "1", raw)
        .unwrap();
    assert!(written.contains("  temperature: 1"));
    assert!(written.contains("# шапка с обоснованием"));
    // Nothing is in force before the text is stored.
    assert_eq!(registry.temperature_for("Fable9B"), None);
    registry.remember_temperature("Fable9B", Some(temperature(1.0)));
    assert_eq!(registry.temperature_for("Fable9B"), Some(temperature(1.0)));
    assert_eq!(registry.temperature_for("Nemotron"), None);
}

fn entry(vram_mb: u32, ram_offload_mb: u32, load_seconds: u32, always_loaded: bool) -> ResourceEntry {
    ResourceEntry {
        vram_mb,
        ram_offload_mb,
        load_seconds,
        always_loaded,
        preferred_device: PreferredDevice::default(),
        lm_studio_key: None,
        context_length: None,
        max_context_length: None,
        temperature: None,
        path: None,
    }
}

fn sample_registry() -> ResourceRegistry {
    let mut table = Keyed::new();
    table.insert("Nemotron".to_string(), entry(3000, 0, 2, true));
    table.insert("Fable9B".to_string(), entry(6000, 0, 5, true));
    table.insert("Qwen40B".to_string(), entry(6000, 18000, 90, false));
    let registry = ResourceRegistry::new(table);
    assert!(registry.check_sizes());
    registry
}

#[test]
fn get_returns_known_model() {
    let registry = sample_registry();
    let entry = registry.get("Fable9B").unwrap();
    assert_eq!(entry.vram_mb, 6000);
    assert!(entry.always_loaded);
}

#[test]
fn get_returns_none_for_unknown_model() {
    let registry = sample_registry();
    assert!(registry.get("Unknown").is_none());
}

#[test]
fn always_loaded_vram_sums_only_flagged_models() {
    let registry = sample_registry();
    assert_eq!(registry.always_loaded_vram_mb(), 9000);
    assert_eq!(registry.always_loaded_models(), vec!["Nemotron", "Fable9B"]);
}

#[test]
fn ram_offload_defaults_to_zero() {
    let registry = sample_registry();
    assert_eq!(registry.get("Nemotron").unwrap().ram_offload_mb, 0);
}

#[test]
fn preferred_device_defaults_to_gpu() {
    let registry = sample_registry();
    assert_eq!(
        registry.get("Nemotron").unwrap().preferred_device,
        PreferredDevice::Gpu
    );
}

#[test]
fn path_defaults_to_none() {
    let registry = sample_registry();
    assert_eq!(registry.get("Nemotron").unwrap().path, None);
}

#[test]
fn a_temperature_is_refused_for_the_right_reason() {
    let registry = sample_registry();
    assert_eq!(
        registry.set_temperature("Нет", Some(temperature(9.0)), "9", SAMPLE).unwrap_err(),
        "модель 'Нет' отсутствует в Resource Registry"
    );
    assert!(registry
        .set_temperature("Fable9B", Some(temperature(9.0)), "9", SAMPLE)
        .unwrap_err()
        .contains("0–2"));
    assert_eq!(
        registry.set_temperature("Qwen40B", None, "", SAMPLE).unwrap_err(),
        "блок модели 'Qwen40B' не найден в YAML"
    );
}

#[test]
fn the_last_temperature_wins() {
    let once = replace(SAMPLE, "Fable9B", Some(0.5)).unwrap();
    let twice = replace(&once, "Fable9B", Some(1.0)).unwrap();
    assert_eq!(twice, replace(SAMPLE, "Fable9B", Some(1.0)).unwrap());
}

#[test]
fn a_label_is_turned_into_the_providers_key() {
    let mut named = entry(1, 0, 1, false);
    named.lm_studio_key = Some("qwen/qwen3".to_string());
    let mut table = Keyed::new();
    table.insert("Qwen".to_string(), named);
    table.insert("Plain".to_string(), entry(2, 0, 1, false));
    let registry = ResourceRegistry::new(table);
    assert_eq!(registry.provider_key("Qwen"), "qwen/qwen3");
    assert_eq!(registry.provider_key("Plain"), "Plain");
    assert_eq!(registry.provider_key("Unknown"), "Unknown");
}

#[test]
fn sizes_that_do_not_fit_are_noticed() {
    let mut table = Keyed::new();
    table.insert("a".to_string(), entry(u32::MAX, 0, 1, false));
    table.insert("b".to_string(), entry(1, 0, 1, false));
    assert!(!ResourceRegistry::new(table).check_sizes());
}

#[test]
fn a_setting_at_run_time_hides_the_one_of_the_file() {
    let mut hot = entry(1, 0, 1, false);
    hot.temperature = Some(temperature(1.5));
    let mut table = Keyed::new();
    table.insert("Hot".to_string(), hot);
    let mut registry = ResourceRegistry::new(table);
    assert_eq!(registry.temperature_for("Hot"), Some(temperature(1.5)));
    registry.remember_temperature("Hot", None);
    assert_eq!(registry.temperature_for("Hot"), None);
    assert_eq!(registry.all().len(), 1);
}
