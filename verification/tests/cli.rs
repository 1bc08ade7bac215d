use querypie_cli::auth::error::AuthError;
use querypie_cli::cli::commands::{
    fmt, no_truncate_env, ConnectionArg, ConnectionSelectionArgs, DatabaseSelectionArgs, OutputArgs,
    TableSelectionArgs,
};
use querypie_cli::cli::session::{
    cached_db_type, db_type_for_engine, resolved_database, session_entry, session_step, validate_database,
    with_session, SessionAction, SessionEvent, SessionPhase,
};
use querypie_cli::cli::{capitalize_first, pick_non_empty, render_error, replace_with, replace_with_non_empty, Global};
use querypie_cli::config::{default_config_file, Config};
use querypie_cli::failure::Failure;
use querypie_cli::formatting::OutputFormat;
use querypie_cli::qpapi::grpcweb::GrpcError;
use querypie_cli::qpapi::session::OpenedSession;
use querypie_cli::sessioncache::Entry;

fn global() -> Global {
    Global::new(
        None,
        false,
        Config {
            host: "h.example".to_string(),
            connection: "main".to_string(),
            database: "app".to_string(),
        },
    )
}

#[test]
fn flags_win_over_config_unless_blank() {
    assert_eq!(pick_non_empty(Some("flag".to_string()), "cfg".to_string()), "flag");
    assert_eq!(pick_non_empty(Some("  ".to_string()), "cfg".to_string()), "cfg");
    assert_eq!(pick_non_empty(None, "cfg".to_string()), "cfg");
    let mut t = "old".to_string();
    replace_with_non_empty(&mut t, &Some(" ".to_string()));
    assert_eq!(t, "old");
    replace_with(&mut t, &Some(String::new()));
    assert_eq!(t, "");
}

#[test]
fn selection_flags_update_the_global() {
    let mut g = global();
    let args = TableSelectionArgs {
        database: DatabaseSelectionArgs {
            connection: ConnectionSelectionArgs {
                connection: ConnectionArg { connection: Some("other".to_string()) },
                engine: Some("mysql".to_string()),
            },
            database: Some("".to_string()),
        },
        schema: Some("public".to_string()),
    };
    args.apply_to(&mut g);
    assert_eq!(g.connection, "other");
    assert_eq!(g.engine, "mysql");
    assert_eq!(g.database, "app");
    assert_eq!(g.schema, "public");
    assert_eq!(g.host, "h.example");
}

#[test]
fn require_host_names_the_config_file() {
    let mut g = global();
    assert_eq!(g.require_host("/c.yml").unwrap(), "h.example");
    g.host = " ".to_string();
    match g.require_host("/c.yml") {
        Err(Failure::Message(m)) => assert_eq!(m, "no QueryPie host: pass --host or set `host:` in /c.yml"),
        _ => panic!("expected an error"),
    }
}

#[test]
fn engines_map_to_db_types() {
    assert_eq!(db_type_for_engine(" MySQL "), 1);
    assert_eq!(db_type_for_engine("postgres"), 3);
    assert_eq!(db_type_for_engine("mongo"), 13);
    assert_eq!(db_type_for_engine("oracle"), 0);
    let mut e = Entry {
        host: "h".to_string(),
        connection: "c".to_string(),
        engine: "postgresql".to_string(),
        input_db: String::new(),
        window_id: "w".to_string(),
        session: "s".to_string(),
        resolved_db: "d".to_string(),
        db_type: 0,
        opened_at: 0,
    };
    assert_eq!(cached_db_type(&e), 3);
    e.db_type = 1;
    assert_eq!(cached_db_type(&e), 1);
}

#[test]
fn resolved_database_prefers_input() {
    assert_eq!(resolved_database("  ", "app"), ("app".to_string(), false));
    assert_eq!(resolved_database(" rep ", "app"), ("rep".to_string(), true));
    assert_eq!(resolved_database("app", "app"), ("app".to_string(), false));
}

#[test]
fn validate_database_reports_inaccessible_db() {
    let names = vec!["app".to_string()];
    assert!(validate_database("app", "main", &names).is_ok());
    assert!(validate_database(" ", "main", &vec![]).is_ok());
    match validate_database("x", "main", &names) {
        Err(Failure::Message(m)) => assert_eq!(m, "database `x` is not accessible for connection `main`"),
        _ => panic!("expected an error"),
    }
}

#[test]
fn with_session_retries_once_after_refresh() {
    let g = global();
    let (phase, action) = with_session(&g);
    assert!(matches!(action, SessionAction::Resolve { reopen: false }));
    let (phase, action) = session_step(phase, SessionEvent::Resolved(Ok(())));
    assert!(matches!(action, SessionAction::Run));
    let expired = Failure::Grpc(GrpcError {
        code: "16".to_string(),
        app_code: 0,
        message: "invalid token".to_string(),
        domain: String::new(),
    });
    let (phase, action) = session_step(phase, SessionEvent::Ran(Err(expired.clone())));
    assert!(matches!(action, SessionAction::RefreshAndResolve));
    let (phase, action) = session_step(phase, SessionEvent::Resolved(Ok(())));
    assert!(matches!(action, SessionAction::Run));
    assert_eq!(phase, SessionPhase::LastRun);
    let (_, action) = session_step(phase, SessionEvent::Ran(Err(expired)));
    assert!(matches!(action, SessionAction::Finish(Err(_))));
}

#[test]
fn with_session_requires_a_connection() {
    let mut g = global();
    g.connection = String::new();
    let (_, action) = with_session(&g);
    match action {
        SessionAction::Finish(Err(Failure::Message(m))) => {
            assert_eq!(m, "no connection: pass --connection or set `connection:` in config")
        }
        _ => panic!("expected an error"),
    }
}

#[test]
fn capitalizes_first_character() {
    assert_eq!(capitalize_first("login failed: x"), "Login failed: x");
    assert_eq!(capitalize_first("ßx"), "SSx");
    assert_eq!(capitalize_first(""), "Login failed");
}

#[test]
fn render_error_adds_hints() {
    let err = Failure::Grpc(GrpcError {
        code: "7".to_string(),
        app_code: 10308,
        message: "Denied".to_string(),
        domain: String::new(),
    });
    assert_eq!(
        render_error(&err),
        vec![
            "error: Denied".to_string(),
            "  Your access to this connection has expired. Request access again in QueryPie.".to_string()
        ]
    );
    assert_eq!(render_error(&Failure::Message("boom".to_string())), vec!["error: boom".to_string()]);
    assert!(render_error(&Failure::StatusFailed).is_empty());
    assert_eq!(
        render_error(&Failure::LoginFailed("Nope".to_string())),
        vec!["\u{1b}[31mX\u{1b}[0m Nope".to_string()]
    );
}

#[test]
fn truncation_follows_flag_and_environment() {
    let out = OutputArgs { no_truncate: false, output: OutputFormat::Text };
    assert!(fmt(out, None).truncate);
    assert!(!fmt(out, Some(" YES ".to_string())).truncate);
    assert!(fmt(out, Some("no".to_string())).truncate);
    assert!(!fmt(OutputArgs { no_truncate: true, output: OutputFormat::Json }, None).truncate);
    assert!(no_truncate_env(Some("1".to_string())));
    assert!(!no_truncate_env(None));
}

#[test]
fn config_trims_values_and_finds_default_file() {
    let cfg = Config {
        host: " h ".to_string(),
        connection: "\tc\n".to_string(),
        database: "d".to_string(),
    }
    .trimmed();
    assert_eq!((cfg.host.as_str(), cfg.connection.as_str(), cfg.database.as_str()), ("h", "c", "d"));
    assert_eq!(
        default_config_file(Some("/xdg/".to_string()), None),
        "/xdg/querypie/config.json"
    );
    assert_eq!(
        default_config_file(None, Some("/home/u".to_string())),
        "/home/u/.config/querypie/config.json"
    );
    assert_eq!(default_config_file(None, None), "./.config/querypie/config.json");
}

#[test]
fn failure_messages() {
    assert_eq!(
        Failure::Auth(AuthError::LoginCanceled).message(),
        "Login canceled before a QueryPie session was established"
    );
    assert_eq!(Failure::StatusFailed.message(), "auth status failed");
    assert_eq!(Failure::LoginFailed("x".to_string()).message(), "x");
}

#[test]
fn opened_sessions_are_cached_under_the_full_connection_name() {
    let mut g = global();
    g.connection = "prod".to_string();
    let opened = OpenedSession {
        connection: "prod-main".to_string(),
        session: "s1".to_string(),
        engine: "mysql".to_string(),
        version: "8".to_string(),
        db: "app".to_string(),
        db_type: 1,
    };
    let e = session_entry(&g, "h.example".to_string(), "w1".to_string(), &opened, "app".to_string(), 42);
    assert_eq!(e.connection, "prod-main");
    assert_eq!(e.engine, "mysql");
    assert_eq!(e.input_db, g.database);
    assert_eq!((e.session.as_str(), e.window_id.as_str(), e.db_type, e.opened_at), ("s1", "w1", 1, 42));
}
