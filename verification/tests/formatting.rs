use querypie_cli::auth::status::{AuthCheck, AuthState};
use querypie_cli::formatting::style::{error_icon, null_value, success_icon};
use querypie_cli::formatting::table::render_table;
use querypie_cli::formatting::{
    auth_status, connections, names, query_limit_reached, query_result, query_result_json,
    query_result_summary, script, Options, OutputFormat, Shown,
};
use querypie_cli::qpapi::session::Connection;
use querypie_cli::qpapi::sql::{Cell, ColumnInfo, ResultSet};

fn result_set(row_count: usize) -> ResultSet {
    ResultSet {
        columns: vec![ColumnInfo {
            name: "id".to_string(),
            column_type: "System.Int64".to_string(),
        }],
        rows: (0..row_count)
            .map(|index| {
                vec![Cell {
                    value: (index + 1).to_string(),
                    is_null: false,
                }]
            })
            .collect(),
    }
}

fn text(truncate: bool) -> Options {
    Options { output: OutputFormat::Text, truncate }
}

#[test]
fn query_summary_reports_limit_status() {
    for (row_count, limit, expected) in [
        (1000, 1000, "(1000 rows, limit reached)"),
        (42, 1000, "(42 rows)"),
    ] {
        assert_eq!(query_result_summary(&result_set(row_count), limit), expected);
    }
}

#[test]
fn query_json_includes_limit_metadata() {
    let res = result_set(1);
    let value = query_result_json(&res, 1);
    assert_eq!(value.limit, 1);
    assert_eq!(value.limit_reached, true);
    assert_eq!(value.columns[0].name, "id");
    assert_eq!(value.rows[0][0], Some("1".to_string()));
}

#[test]
fn limit_is_compared_as_unsigned() {
    assert!(query_limit_reached(0, 0));
    assert!(!query_limit_reached(9, 10));
    assert!(!query_limit_reached(5, -1));
    assert!(query_limit_reached(usize::MAX, -1));
}

#[test]
fn icons_are_coloured() {
    assert_eq!(success_icon(), "\u{1b}[32m✓\u{1b}[0m");
    assert_eq!(error_icon(), "\u{1b}[31mX\u{1b}[0m");
    assert_eq!(null_value(), "\u{1b}[90mNULL\u{1b}[0m");
}

#[test]
fn table_pads_and_separates_columns() {
    let lines = render_table(
        &vec!["NAME".to_string(), "ENGINE".to_string()],
        &vec![vec!["db1".to_string(), "mysql".to_string()]],
        None,
    );
    assert_eq!(lines, vec!["NAME  ENGINE", "----  ------", "db1   mysql "]);
}

#[test]
fn table_without_headers_joins_with_tabs() {
    let lines = render_table(&vec![], &vec![vec!["a".to_string(), "b".to_string()]], None);
    assert_eq!(lines, vec!["a\tb"]);
}

#[test]
fn table_narrows_wide_columns_to_terminal() {
    let lines = render_table(
        &vec!["COLUMN".to_string(), "VALUE".to_string()],
        &vec![vec!["abcdefghijklmnop".to_string(), "x".to_string()]],
        Some(15),
    );
    assert_eq!(lines[2], "abcdefg…  x    ");
    assert_eq!(lines[0], "COLUMN    VALUE");
}

#[test]
fn ansi_codes_do_not_count_towards_width() {
    let lines = render_table(
        &vec!["V".to_string()],
        &vec![vec![null_value()], vec!["abcdef".to_string()]],
        None,
    );
    assert_eq!(lines[1], "------");
    assert_eq!(lines[2], format!("{}  ", null_value()));
}

#[test]
fn connections_show_access() {
    let conns = vec![Connection {
        name: "main".to_string(),
        cluster_uuid: "u".to_string(),
        cluster_id: 1,
        db_type: 1,
        deactivated: true,
    }];
    match connections(&conns, text(false)) {
        Shown::Lines(lines) => assert_eq!(lines, vec!["NAME  ENGINE  ACCESS ", "----  ------  -------", "main  mysql   expired"]),
        _ => panic!("expected lines"),
    }
    match connections(&conns, Options { output: OutputFormat::Json, truncate: true }) {
        Shown::Json(rows) => {
            assert_eq!(rows[0].access, "expired");
            assert_eq!(rows[0].engine, "mysql");
        }
        _ => panic!("expected rows"),
    }
}

#[test]
fn names_and_scripts_are_shown_as_lines() {
    match names(&vec!["a".to_string(), "b".to_string()], text(true)) {
        Shown::Lines(lines) => assert_eq!(lines, vec!["a", "b"]),
        _ => panic!("expected lines"),
    }
    match script("CREATE TABLE t", Options { output: OutputFormat::Json, truncate: false }) {
        Shown::Json(s) => assert_eq!(s, "CREATE TABLE t"),
        _ => panic!("expected json"),
    }
}

#[test]
fn query_result_shows_nulls_and_summary() {
    let res = ResultSet {
        columns: vec![ColumnInfo { name: "v".to_string(), column_type: "System.String".to_string() }],
        rows: vec![vec![Cell { value: String::new(), is_null: true }]],
    };
    match query_result(&res, 1000, text(false)) {
        Shown::Lines(lines) => {
            assert_eq!(lines.len(), 5);
            assert_eq!(lines[2], null_value());
            assert_eq!(lines[3], "");
            assert_eq!(lines[4], "(1 rows)");
        }
        _ => panic!("expected lines"),
    }
}

#[test]
fn auth_status_reports_each_host() {
    let checks = vec![
        AuthCheck { host: "a".to_string(), state: AuthState::Valid },
        AuthCheck { host: "b".to_string(), state: AuthState::Expired },
    ];
    let (lines, failed) = auth_status(&checks);
    assert!(failed);
    assert_eq!(lines[0], "a");
    assert_eq!(lines[1], format!("  {} Logged in to a", success_icon()));
    assert_eq!(lines[4], "");
    assert_eq!(lines[5], "b");
    assert_eq!(lines[7], "  - The QueryPie webview session is expired.");
    assert_eq!(lines[8], "  - To re-authenticate, run: querypie --host b auth login");
    let (_, ok) = auth_status(&vec![AuthCheck { host: "a".to_string(), state: AuthState::Valid }]);
    assert!(!ok);
}
