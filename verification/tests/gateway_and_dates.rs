use tracking_engine::{
    activate_request_body, format_date, instance_request_body, interpret_activation,
    interpret_checkout, interpret_deactivation, interpret_validation, json_string, parse_date,
    ActivateLicenseKeyArgs, Date, EngineError, GenerateCheckoutSessionResponse,
};

#[test]
fn dates_parse_and_format_canonically() {
    let d = parse_date("2024-06-01").unwrap();
    assert_eq!(d, Date { year: 2024, month: 6, day: 1 });
    assert_eq!(format_date(&d), "2024-06-01");
    let early = parse_date("0001-12-31").unwrap();
    assert_eq!(format_date(&early), "0001-12-31");
}

#[test]
fn malformed_dates_are_rejected() {
    assert!(parse_date("2024-6-1").is_none());
    assert!(parse_date("2024-06-01x").is_none());
    assert!(parse_date("2024/06/01").is_none());
    assert!(parse_date("2023-02-29").is_none());
    assert!(parse_date("2024-00-10").is_none());
    assert!(parse_date("").is_none());
}

#[test]
fn leap_day_parses_in_leap_years_only() {
    assert!(parse_date("2024-02-29").is_some());
    assert!(parse_date("2000-02-29").is_some());
    assert!(parse_date("1900-02-29").is_none());
    assert!(parse_date("2023-02-29").is_none());
}

#[test]
fn json_strings_escape_quotes_backslashes_and_controls() {
    assert_eq!(json_string("plain"), "\"plain\"");
    assert_eq!(json_string("a\"b"), "\"a\\\"b\"");
    assert_eq!(json_string("a\\b"), "\"a\\\\b\"");
    assert_eq!(json_string("line\nbreak"), "\"line\\nbreak\"");
    assert_eq!(json_string("tab\there"), "\"tab\\there\"");
    assert_eq!(json_string("\u{1}"), "\"\\u0001\"");
    assert_eq!(json_string("\u{1f}"), "\"\\u001f\"");
}

#[test]
fn activation_body_names_key_and_instance_name() {
    let args = ActivateLicenseKeyArgs {
        license_key: "abc-123".to_string(),
        instance_name: "my \"machine\"".to_string(),
    };
    assert_eq!(
        activate_request_body(&args),
        "{\"key\":\"abc-123\",\"instance_name\":\"my \\\"machine\\\"\"}"
    );
}

#[test]
fn instance_body_names_key_and_instance_id() {
    assert_eq!(
        instance_request_body("abc-123", "inst-9"),
        "{\"key\":\"abc-123\",\"instance_id\":\"inst-9\"}"
    );
}

#[test]
fn activation_outcome_follows_the_success_flag() {
    let ok = interpret_activation(Ok(true)).unwrap();
    assert!(ok.is_activated);
    assert_eq!(ok.instance_id, "1");
    let no = interpret_activation(Ok(false)).unwrap();
    assert!(!no.is_activated);
    let err = interpret_activation(Err("connection refused".to_string()));
    assert!(matches!(err, Err(EngineError::RemoteFailure(m)) if m == "connection refused"));
}

#[test]
fn validation_and_deactivation_outcomes_follow_the_flag() {
    assert!(interpret_validation(Ok(true)).unwrap().is_valid);
    assert!(!interpret_validation(Ok(false)).unwrap().is_valid);
    assert!(matches!(
        interpret_validation(Err("timeout".to_string())),
        Err(EngineError::RemoteFailure(_))
    ));
    assert!(interpret_deactivation(Ok(true)).unwrap().is_deactivated);
    assert!(!interpret_deactivation(Ok(false)).unwrap().is_deactivated);
    assert!(matches!(
        interpret_deactivation(Err("timeout".to_string())),
        Err(EngineError::RemoteFailure(_))
    ));
}

#[test]
fn checkout_outcome_yields_the_url_or_reports_failure() {
    let resp = GenerateCheckoutSessionResponse {
        id: "cs_1".to_string(),
        object: "checkout".to_string(),
        product: "prod_1".to_string(),
        units: None,
        status: "open".to_string(),
        checkout_url: "https://pay.example/session/cs_1".to_string(),
        mode: "payment".to_string(),
    };
    assert_eq!(
        interpret_checkout(Ok(resp)).unwrap(),
        "https://pay.example/session/cs_1"
    );
    assert!(matches!(
        interpret_checkout(Err("connection refused".to_string())),
        Err(EngineError::RemoteFailure(m)) if m == "connection refused"
    ));
}
