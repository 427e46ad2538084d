use kaic_backend::control_auth::{ControlToken, ENV_VAR, MIN_LEN};

fn token_of(secret: &str) -> ControlToken {
    match ControlToken::from_raw(secret.to_string()) {
        Ok(token) => token,
        Err(e) => panic!("{e}"),
    }
}

#[test]
fn debug_does_not_print_the_secret() {
    let token = token_of("supersecretvalue0123");
    let shown = token.debug();
    assert!(
        !shown.contains("supersecretvalue0123"),
        "Debug напечатал секрет: {shown}"
    );
    assert!(shown.contains("скрыт"), "Debug должен говорить, что скрыл: {shown}");
}

#[test]
fn a_missing_header_is_refused() {
    let token = token_of("0123456789abcdef0123");
    assert!(!token.accepts(None));
}

#[test]
fn a_wrong_token_is_refused() {
    let token = token_of("0123456789abcdef0123");
    assert!(!token.accepts(Some("Bearer 0123456789abcdef0124")));
}

#[test]
fn a_correct_token_is_accepted() {
    let token = token_of("0123456789abcdef0123");
    assert!(token.accepts(Some("Bearer 0123456789abcdef0123")));
}

#[test]
fn the_scheme_is_case_insensitive_but_the_secret_is_not() {
    let token = token_of("0123456789abcdefABCD");
    assert!(token.accepts(Some("bearer 0123456789abcdefABCD")));
    assert!(token.accepts(Some("BEARER 0123456789abcdefABCD")));
    assert!(!token.accepts(Some("Bearer 0123456789abcdefabcd")));
}

#[test]
fn a_bare_token_without_the_scheme_is_refused() {
    let token = token_of("0123456789abcdef0123");
    assert!(!token.accepts(Some("0123456789abcdef0123")));
}

#[test]
fn a_prefix_of_the_secret_is_refused() {
    let token = token_of("0123456789abcdef0123");
    assert!(!token.accepts(Some("Bearer 0123456789abcdef012")));
    assert!(!token.accepts(Some("Bearer 0123456789abcdef01234")));
}

#[test]
fn a_short_secret_is_refused_at_construction() {
    let err = ControlToken::from_raw("короткий".to_string()).err().unwrap();
    assert!(
        err.contains("короче"),
        "ошибка должна называть причину, а не быть безымянной: {err}"
    );
}

#[test]
fn a_secret_of_exactly_the_minimum_length_is_accepted() {
    let value = "a".repeat(MIN_LEN);
    assert!(ControlToken::from_raw(value).is_ok());
}

#[test]
fn surrounding_whitespace_does_not_become_part_of_the_secret() {
    let token = ControlToken::from_raw(format!("  {}  \r\n", "a".repeat(MIN_LEN))).unwrap_or_else(|e| panic!("{e}"));
    assert!(token.accepts(Some(&format!("Bearer {}", "a".repeat(MIN_LEN)))));
}

#[test]
fn a_secret_is_measured_in_characters() {
    assert!(ControlToken::from_raw("ё".repeat(MIN_LEN - 1)).is_err());
    assert!(ControlToken::from_raw("ё".repeat(MIN_LEN)).is_ok());
    let err = ControlToken::from_raw(" ab ".to_string()).err().unwrap();
    assert_eq!(
        err,
        "KAIC_CONTROL_TOKEN короче 16 символов (2 символов). \
         Короткий секрет перебирается локально быстрее, чем это будет замечено"
    );
}

#[test]
fn there_is_no_way_without_a_secret() {
    let err = ControlToken::from_env(None).err().unwrap();
    assert!(err.starts_with("переменная KAIC_CONTROL_TOKEN не задана."));
    assert!(err.ends_with("$env:KAIC_CONTROL_TOKEN = \"<не менее 16 символов>\""));
    assert!(err.contains(ENV_VAR));
    assert!(ControlToken::from_env(Some("x".to_string())).is_err());
    assert!(ControlToken::from_env(Some("x".repeat(16))).is_ok());
}

#[test]
fn whoever_does_not_show_the_secret_is_told_how() {
    let token = token_of("0123456789abcdef0123");
    assert!(token.require_token(Some("Bearer 0123456789abcdef0123")).is_none());
    let refused = token.require_token(None).unwrap();
    assert_eq!(refused.status, 401);
    assert_eq!(refused.challenge, "Bearer realm=\"kaic-control-center\"");
    assert_eq!(
        refused.body,
        "Control Center API требует Authorization: Bearer <KAIC_CONTROL_TOKEN>"
    );
}

#[test]
fn the_secret_is_compared_byte_for_byte() {
    let token = token_of("ключ-от-всех-дверей");
    assert!(token.matches("ключ-от-всех-дверей"));
    assert!(!token.matches("ключ-от-всех-двереи"));
    assert!(!token.matches(""));
    assert!(token.accepts(Some("Bearer   ключ-от-всех-дверей\t")));
    assert!(!token.accepts(Some("Basic ключ-от-всех-дверей")));
    assert_eq!(token.debug(), "ControlToken(<19 символов, скрыт>)");
}
