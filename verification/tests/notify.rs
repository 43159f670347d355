use aoe2_tournament_bot::notify::{
    format_body, format_body_at, forwards_event, level_enabled, MessageVisitor, Severity, DISCORD_LIMIT,
};

#[test]
fn level_threshold_error_forwards_only_error() {
    assert!(level_enabled(&Severity::Error, &Severity::Error));
    assert!(!level_enabled(&Severity::Warn, &Severity::Error));
    assert!(!level_enabled(&Severity::Info, &Severity::Error));
}

#[test]
fn level_threshold_warn_forwards_error_and_warn() {
    assert!(level_enabled(&Severity::Error, &Severity::Warn));
    assert!(level_enabled(&Severity::Warn, &Severity::Warn));
    assert!(!level_enabled(&Severity::Info, &Severity::Warn));
}

#[test]
fn format_body_has_header_and_fenced_block() {
    let body = format_body(&Severity::Error, "aoe2_tournament_bot::handler", "boom", &[]);
    assert!(body.starts_with("🔴 ERROR · aoe2_tournament_bot::handler · "));
    assert!(body.contains("\n```\nboom\n```"));
}

#[test]
fn format_body_appends_fields() {
    let fields = vec![("id".to_string(), "42".to_string())];
    let body = format_body(&Severity::Error, "t", "msg", &fields);
    assert!(body.contains("msg\nid=42"));
}

#[test]
fn format_body_truncates_to_discord_limit_on_char_boundary() {
    let huge = "é".repeat(4000);
    let body = format_body(&Severity::Error, "t", &huge, &[]);
    assert!(body.len() <= DISCORD_LIMIT);
    assert!(body.contains("… (truncated)"));
    assert_eq!(body, String::from_utf8(body.clone().into_bytes()).unwrap());
}

#[test]
fn format_body_short_message_not_truncated() {
    let body = format_body(&Severity::Error, "t", "short", &[]);
    assert!(!body.contains("truncated"));
}

#[test]
fn format_body_at_exact_layout() {
    let fields = vec![
        ("a".to_string(), "1".to_string()),
        ("b".to_string(), "2".to_string()),
    ];
    let body = format_body_at(&Severity::Warn, "x::y", "", &fields, "2024-01-02T03:04:05Z");
    assert_eq!(body, "🔴 WARN · x::y · 2024-01-02T03:04:05Z\n```\na=1\nb=2\n```");
}

#[test]
fn format_body_at_fills_the_limit_exactly_when_truncating() {
    let huge = "x".repeat(5000);
    let body = format_body_at(&Severity::Error, "t", &huge, &[], "ts");
    assert_eq!(body.len(), DISCORD_LIMIT);
    assert!(body.ends_with("x\n… (truncated)\n```"));
}

#[test]
fn visitor_routes_message_field_and_keeps_others_in_order() {
    let mut v = MessageVisitor::new();
    v.put("id", "42".to_string());
    v.put("message", "hello".to_string());
    v.put("tournament", "SF".to_string());
    assert_eq!(v.message.as_deref(), Some("hello"));
    assert_eq!(
        v.fields,
        vec![
            ("id".to_string(), "42".to_string()),
            ("tournament".to_string(), "SF".to_string())
        ]
    );
}

#[test]
fn severity_names_are_upper_case() {
    assert_eq!(Severity::Error.name(), "ERROR");
    assert_eq!(Severity::Trace.name(), "TRACE");
    assert!(level_enabled(&Severity::Info, &Severity::Trace));
}

#[test]
fn forwarding_skips_discord_client_and_own_events() {
    let own = "aoe2_tournament_bot::notify";
    assert!(forwards_event(&Severity::Error, &Severity::Error, "aoe2_tournament_bot::handler", own));
    assert!(!forwards_event(&Severity::Error, &Severity::Error, "serenity::http", own));
    assert!(!forwards_event(&Severity::Error, &Severity::Error, own, own));
    assert!(!forwards_event(&Severity::Warn, &Severity::Error, "x", own));
    assert!(forwards_event(&Severity::Error, &Severity::Error, "seren", own));
}
