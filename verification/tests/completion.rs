use querypie_cli::cli::completion::{
    cache_engine, complete, complete_values, completion_step, completion_words, connection_matches,
    option_value, selected_database, sorted_unique, starts_with, unique_cached_session,
    unquote_completion_value, CompletionAction, CompletionContext, CompletionEvent, CompletionKind,
    CompletionPhase,
};
use querypie_cli::config::Config;
use querypie_cli::failure::Failure;
use querypie_cli::qpapi::grpcweb::GrpcError;
use querypie_cli::sessioncache::Entry;

fn cache_entry(host: &str, connection: &str, engine: &str) -> Entry {
    Entry {
        host: host.to_string(),
        connection: connection.to_string(),
        engine: engine.to_string(),
        input_db: String::new(),
        window_id: format!("{engine}-window"),
        session: format!("{engine}-session"),
        resolved_db: format!("{engine}_db"),
        db_type: 0,
        opened_at: 1,
    }
}

#[test]
fn reads_long_option_values() {
    let words = vec![
        "--host".to_string(),
        "querypie.example.com".to_string(),
        "--connection=main".to_string(),
    ];
    assert_eq!(
        option_value(&words, "--host", None).as_deref(),
        Some("querypie.example.com")
    );
    assert_eq!(
        option_value(&words, "--connection", Some("-c")).as_deref(),
        Some("main")
    );
}

#[test]
fn reads_short_option_values() {
    let words = vec!["-c".to_string(), "main".to_string()];
    assert_eq!(
        option_value(&words, "--connection", Some("-c")).as_deref(),
        Some("main")
    );
}

#[test]
fn reads_quoted_option_values() {
    let words = vec![
        "--connection".to_string(),
        "\"example-main [US]\"".to_string(),
        "--db='example_app'".to_string(),
        "--schema=\"public\"".to_string(),
    ];
    assert_eq!(
        option_value(&words, "--connection", Some("-c")).as_deref(),
        Some("example-main [US]")
    );
    assert_eq!(
        option_value(&words, "--db", Some("-d")).as_deref(),
        Some("example_app")
    );
    assert_eq!(
        option_value(&words, "--schema", None).as_deref(),
        Some("public")
    );
    assert_eq!(
        unquote_completion_value(r#""example \"main\"""#),
        "example \"main\""
    );
}

#[test]
fn option_value_at_the_end_is_missing() {
    let words = vec!["--host".to_string()];
    assert_eq!(option_value(&words, "--host", None), None);
    assert_eq!(option_value(&vec!["-x".to_string()], "--host", None), None);
}

#[test]
fn unquote_keeps_unknown_escapes() {
    assert_eq!(unquote_completion_value(r#""a\nb\\c\$""#), r"a\nb\c$");
    assert_eq!(unquote_completion_value("'it"), "it");
    assert_eq!(unquote_completion_value("plain"), "plain");
    assert_eq!(unquote_completion_value("\""), "");
}

#[test]
fn matches_quoted_current_prefixes() {
    assert!(starts_with("example-main [US]", Some("\"example")));
    assert!(starts_with("example-main [US]", Some("'example")));
}

#[test]
fn starts_with_rejects_non_unicode_input() {
    assert!(!starts_with("example", None));
    assert!(!starts_with("example", Some("main")));
}

#[test]
fn selects_unique_cached_session() {
    let entry = cache_entry("querypie.example.com", "main", "mysql");
    let selected = unique_cached_session(
        vec![
            entry.clone(),
            cache_entry("querypie.example.com", "analytics", "postgresql"),
        ],
        "querypie.example.com",
        "main",
    );
    assert_eq!(
        selected.map(|entry| entry.engine),
        Some("mysql".to_string())
    );
}

#[test]
fn ignores_ambiguous_cached_sessions() {
    let selected = unique_cached_session(
        vec![
            cache_entry("querypie.example.com", "main", "mysql"),
            cache_entry("querypie.example.com", "main", "postgresql"),
        ],
        "querypie.example.com",
        "main",
    );
    assert!(selected.is_none());
}

#[test]
fn stores_opened_engine_when_context_engine_is_empty() {
    assert_eq!(
        cache_engine(&CompletionContext::default(), "mysql"),
        "mysql"
    );
    let ctx = CompletionContext {
        engine: "postgresql".to_string(),
        ..CompletionContext::default()
    };
    assert_eq!(cache_engine(&ctx, "mysql"), "postgresql");
}

#[test]
fn selected_database_prefers_the_typed_one() {
    assert_eq!(selected_database(&CompletionContext::default(), "app".to_string()), "app");
    let ctx = CompletionContext { database: "rep".to_string(), ..CompletionContext::default() };
    assert_eq!(selected_database(&ctx, "app".to_string()), "rep");
}

#[test]
fn context_falls_back_on_config() {
    let words = vec!["-c".to_string(), " ".to_string(), "--engine".to_string(), "mysql".to_string()];
    let cfg = Config {
        host: "cfg.example".to_string(),
        connection: "cfg-conn".to_string(),
        database: "cfg-db".to_string(),
    };
    let ctx = CompletionContext::from_words(&words, cfg);
    assert_eq!(ctx.host, "cfg.example");
    assert_eq!(ctx.connection, "cfg-conn");
    assert_eq!(ctx.engine, "mysql");
    assert_eq!(ctx.database, "cfg-db");
    assert_eq!(ctx.schema, "");
}

#[test]
fn sorted_unique_sorts_and_dedups() {
    let values = vec!["b".to_string(), "a".to_string(), "b".to_string(), "B".to_string()];
    assert_eq!(sorted_unique(values), vec!["B", "a", "b"]);
}

#[test]
fn connection_matching_ignores_case() {
    assert!(connection_matches("Production-Main", "prod"));
    assert!(connection_matches("anything", "  "));
    assert!(!connection_matches("staging", "prod"));
}

#[test]
fn completion_words_follow_the_separator() {
    let args = vec![
        "querypie".to_string(),
        "--".to_string(),
        "/usr/bin/querypie".to_string(),
        "--host".to_string(),
    ];
    assert_eq!(completion_words(&args), vec!["--host"]);
    assert!(completion_words(&vec!["querypie".to_string()]).is_empty());
}

#[test]
fn complete_filters_by_prefix() {
    let values = vec!["main".to_string(), "analytics".to_string(), "mailer".to_string()];
    assert_eq!(complete(values, Some("ma")), vec!["main", "mailer"]);
}

#[test]
fn session_completion_needs_a_connection() {
    let ctx = CompletionContext { host: "h".to_string(), ..CompletionContext::default() };
    let (_, action) = complete_values(CompletionKind::Table, &ctx);
    assert!(matches!(action, CompletionAction::Finish(Ok(ref v)) if v.is_empty()));
    let (_, action) = complete_values(CompletionKind::Connection, &CompletionContext::default());
    assert!(matches!(action, CompletionAction::Finish(Err(Failure::Message(ref m))) if m == "host is required"));
}

#[test]
fn completion_reopens_a_lost_session_once() {
    let ctx = CompletionContext {
        host: "h".to_string(),
        connection: "main".to_string(),
        ..CompletionContext::default()
    };
    let (phase, action) = complete_values(CompletionKind::Schema, &ctx);
    assert!(matches!(action, CompletionAction::ReadCookie));
    let (phase, action) = completion_step(CompletionKind::Schema, phase, CompletionEvent::Cookies(Ok(Some("c".to_string()))));
    assert!(matches!(action, CompletionAction::List { reopen: false, .. }));
    let gone = Failure::Grpc(GrpcError {
        code: "10".to_string(),
        app_code: 0,
        message: "SessionNotFound".to_string(),
        domain: String::new(),
    });
    let (phase, action) = completion_step(
        CompletionKind::Schema,
        phase,
        CompletionEvent::Listed { result: Err(gone.clone()), resolved: true },
    );
    assert!(matches!(action, CompletionAction::List { reopen: true, .. }));
    let (phase, action) = completion_step(
        CompletionKind::Schema,
        phase,
        CompletionEvent::Listed { result: Err(gone), resolved: true },
    );
    assert!(matches!(action, CompletionAction::Finish(Err(_))));
    assert!(matches!(phase, CompletionPhase::Done));
}
