use querypie_cli::qpapi::session::{first_instance, opened_session, InstancesResponse, OpenResponse};
use querypie_cli::failure::Failure;
use querypie_cli::qpapi::sql::{data_table_result, ColumnInfo};
use base64::Engine;
use querypie_cli::keyed::Keyed;
use querypie_cli::qpapi::catalog::{decode_table_structure, DictionaryDataTable, DictionaryDataTableRow, StructureResponse};
use querypie_cli::qpapi::grpcweb::{
    check_response_status, decode_frames, decode_response_body, encode_frame, engine_grpc_url, new_grpc_error, CommonError,
    jar_get, jar_insert, parse_cookie_header, set_cookie_pair, CallError, FrameError, GrpcError,
};
use querypie_cli::qpapi::session::{find_connection, Connection, ConnectionError};
use querypie_cli::qpapi::sql::{
    decode_execute_columns, decode_result, first_statement, query_limit, query_plan, Column, CommandExecutedState, DataTable,
    ExecutionPayload, ExecutionPayloadGroup, GetDataTableResponse, SqlError,
};
use rmpv::Value;

fn merge_set_cookies(cookies: &str, set_cookies: &[String]) -> String {
    let mut parsed = parse_cookie_header(cookies);
    for set_cookie in set_cookies {
        let Some((name, value)) = set_cookie_pair(set_cookie) else {
            continue;
        };
        let name = name.trim();
        if !name.is_empty() {
            jar_insert(
                &mut parsed,
                &name.chars().collect(),
                &value.trim().chars().collect(),
            );
        }
    }
    parsed
        .into_iter()
        .filter(|item: &Keyed<String>| !item.value.is_empty())
        .map(|item| format!("{}={}", item.key, item.value))
        .collect::<Vec<_>>()
        .join("; ")
}

#[test]
fn frame_roundtrip() {
    let payload = [1u8, 2, 3];
    let body = encode_frame(&payload);
    let frames = decode_frames(&body).ok().expect("frames");
    assert_eq!(frames.len(), 1);
    assert_eq!(frames[0].flag, 0);
    assert_eq!(frames[0].payload, payload);
}

#[test]
fn rejects_truncated_frame() {
    let body = base64::engine::general_purpose::STANDARD.encode([0, 0, 0, 0, 3, 1]);
    let result = decode_frames(&body);
    assert!(matches!(result, Err(FrameError::Truncated)));
}

#[test]
fn rejects_bad_base64() {
    assert!(matches!(decode_frames("!!!"), Err(FrameError::Base64(_))));
}

#[test]
fn encode_frame_prefixes_length() {
    assert_eq!(encode_frame(&[7]), "AAAAAAEH");
}

#[test]
fn set_cookie_updates_cookie_header() {
    let cookies = "qp_access_token=old; qp_refresh_token=refresh";
    let set_cookies = [
        "qp_access_token=new; Path=/; HttpOnly".to_string(),
        "qp_refresh_token=rotated; Path=/engine-grpc/api.user.AccountService/RefreshToken".to_string(),
    ];
    let merged = merge_set_cookies(cookies, &set_cookies);
    let parsed = parse_cookie_header(&merged);
    assert_eq!(jar_get(&parsed, "qp_access_token").map(String::as_str), Some("new"));
    assert_eq!(jar_get(&parsed, "qp_refresh_token").map(String::as_str), Some("rotated"));
}

#[test]
fn hints_explain_known_errors() {
    let err = GrpcError {
        code: "2".to_string(),
        app_code: 0,
        message: "Connect Timeout".to_string(),
        domain: String::new(),
    };
    assert_eq!(
        err.hint(),
        Some("QueryPie could not reach the database. Check the connection/instance, or try again.")
    );
    let gone = GrpcError {
        code: "10".to_string(),
        app_code: 0,
        message: "x SessionNotFound".to_string(),
        domain: String::new(),
    };
    assert!(gone.is_session_not_found());
    assert!(!gone.is_auth_expired());
}

#[test]
fn response_status_zero_is_ok() {
    assert!(check_response_status(Some("0".to_string()), None).is_ok());
    assert!(check_response_status(None, None).is_ok());
    let err = check_response_status(Some("16".to_string()), Some("denied".to_string())).unwrap_err();
    assert_eq!(err.code, "16");
}

#[test]
fn response_body_concatenates_data_frames() {
    let body = encode_frame(&[1, 2]);
    match decode_response_body(&body) {
        Ok(data) => assert_eq!(data, vec![1, 2]),
        Err(_) => panic!("expected data"),
    }
    assert!(matches!(decode_response_body("%%%"), Err(CallError::Frame(_))));
}

#[test]
fn engine_urls_name_the_method() {
    assert_eq!(
        engine_grpc_url("h.example", "api.user.AccountService/RefreshToken"),
        "https://h.example/engine-grpc/api.user.AccountService/RefreshToken"
    );
}

#[test]
fn decodes_table_structure() {
    let response = StructureResponse {
        data_table: Some(DictionaryDataTable {
            columns: vec!["ColumnName".to_string(), "DataType".to_string()],
            rows: vec![DictionaryDataTableRow {
                values: vec!["id".to_string(), "bigint".to_string()],
            }],
        }),
    };
    let decoded = decode_table_structure(response).ok().unwrap();
    assert_eq!(decoded.headers, vec!["ColumnName", "DataType"]);
    assert_eq!(decoded.rows, vec![vec!["id", "bigint"]]);
}

#[test]
fn table_structure_needs_a_table() {
    assert!(decode_table_structure(StructureResponse { data_table: None }).is_err());
}

fn msgpack_rows(rows: Vec<Vec<Value>>) -> Vec<u8> {
    let rows = rows
        .into_iter()
        .map(|cells| Value::Map(vec![(Value::from("v"), Value::Array(cells))]))
        .collect::<Vec<_>>();
    let mut out = Vec::new();
    rmpv::encode::write_value(&mut out, &Value::Array(rows)).unwrap();
    out
}

fn cell_value(value: Value) -> Value {
    Value::Map(vec![(Value::from("v"), value), (Value::from("n"), Value::Boolean(false))])
}

fn table_of(rows: Vec<Vec<u8>>) -> GetDataTableResponse {
    GetDataTableResponse {
        table: Some(DataTable { handle: "h".to_string(), row_count: 0, columns: vec![], rows }),
    }
}

#[test]
fn decodes_msgpack_rows_from_data_table() {
    let response = GetDataTableResponse {
        table: Some(DataTable {
            handle: "handle".to_string(),
            row_count: 1,
            columns: vec![
                Column { ordinal: 1, name: "id".to_string(), column_type: "System.Int64".to_string() },
                Column { ordinal: 2, name: "name".to_string(), column_type: "System.String".to_string() },
            ],
            rows: vec![msgpack_rows(vec![vec![cell_value(Value::from(1)), cell_value(Value::from("alice"))]])],
        }),
    };
    let result = decode_result(&response).ok().unwrap();
    assert_eq!(result.columns.len(), 2);
    assert_eq!(result.rows.len(), 1);
    assert_eq!(result.rows[0][0].value, "1");
    assert_eq!(result.rows[0][1].value, "alice");
}

#[test]
fn null_cells_are_marked() {
    let null_cell = Value::Map(vec![(Value::from("v"), Value::Nil), (Value::from("n"), Value::Boolean(true))]);
    let result = decode_result(&table_of(vec![msgpack_rows(vec![vec![null_cell]])])).ok().unwrap();
    assert!(result.rows[0][0].is_null);
    assert_eq!(result.rows[0][0].value, "");
    assert!(decode_result(&GetDataTableResponse { table: None }).is_err());
}

#[test]
fn rows_of_every_block_follow_in_order() {
    let first = msgpack_rows(vec![vec![cell_value(Value::from("a"))], vec![cell_value(Value::from(true))]]);
    let second = msgpack_rows(vec![vec![cell_value(Value::Nil), Value::from(7)]]);
    let not_rows = {
        let mut out = Vec::new();
        rmpv::encode::write_value(&mut out, &Value::from("not an array")).unwrap();
        out
    };
    let result = decode_result(&table_of(vec![first, not_rows, second])).ok().unwrap();
    assert_eq!(result.rows.len(), 3);
    assert_eq!(result.rows[0][0].value, "a");
    assert_eq!(result.rows[1][0].value, "true");
    assert_eq!(result.rows[2][0].value, "");
    assert!(!result.rows[2][0].is_null);
    assert_eq!(result.rows[2][1].value, "7");
}

#[test]
fn decodes_columns_from_execute_payload() {
    let group = ExecutionPayloadGroup {
        payloads: vec![ExecutionPayload {
            sql_id: "handle".to_string(),
            executed: Some(CommandExecutedState {
                sql: "select id where 1 = 0".to_string(),
                execution_time: 1,
                db: "example_db".to_string(),
                object_name: String::new(),
                columns: vec![Column {
                    ordinal: 1,
                    name: "id".to_string(),
                    column_type: "System.Int64".to_string(),
                }],
                is_editable: false,
            }),
            sentence_index: 0,
        }],
    };
    let columns = decode_execute_columns(Some(&group));
    assert_eq!(columns.len(), 1);
    assert_eq!(columns[0].name, "id");
    assert_eq!(columns[0].column_type, "System.Int64");
    assert!(decode_execute_columns(None).is_empty());
}

#[test]
fn query_limit_defaults_when_not_positive() {
    assert_eq!(query_limit(5), 5);
    assert!(query_limit(0) > 0);
}

fn conn(name: &str, db_type: i32) -> Connection {
    Connection {
        name: name.to_string(),
        cluster_uuid: format!("{name}-uuid"),
        cluster_id: 1,
        db_type,
        deactivated: false,
    }
}

#[test]
fn find_connection_prefers_exact_names() {
    let conns = vec![conn("prod", 1), conn("production", 1)];
    assert_eq!(find_connection(&conns, "prod", "").ok().unwrap().name, "prod");
    match find_connection(&vec![conn("prod-a", 1), conn("prod-b", 3)], "prod", "") {
        Err(ConnectionError::Ambiguous { choices, .. }) => {
            assert_eq!(choices, vec!["prod-a (mysql)", "prod-b (postgresql)"])
        }
        _ => panic!("expected ambiguity"),
    }
    assert_eq!(
        find_connection(&vec![conn("prod-a", 1), conn("prod-b", 3)], "prod", " PostgreSQL ").ok().unwrap().name,
        "prod-b"
    );
    assert!(matches!(find_connection(&conns, "x", ""), Err(ConnectionError::NotFound { .. })));
}

fn trailer_body(trailer: &str) -> String {
    let mut raw = vec![0x80u8];
    raw.extend_from_slice(&(trailer.len() as u32).to_be_bytes());
    raw.extend_from_slice(trailer.as_bytes());
    base64::engine::general_purpose::STANDARD.encode(raw)
}

#[test]
fn trailer_status_fails_the_call() {
    let body = trailer_body("grpc-status: 16\r\ngrpc-message: denied\r\n");
    match decode_response_body(&body) {
        Err(CallError::Status(status)) => {
            assert_eq!(status.code, "16");
            assert_eq!(status.message, "denied");
        }
        _ => panic!("expected a failed status"),
    }
    let ok = trailer_body("Grpc-Status: 0\r\n");
    assert_eq!(decode_response_body(&ok).ok(), Some(vec![]));
}

#[test]
fn status_messages_that_are_not_base64_stay_as_they_are() {
    let err = new_grpc_error("2", "plain text", None);
    assert_eq!(err.code, "2");
    assert_eq!(err.app_code, 0);
    assert_eq!(err.message, "plain text");
}

#[test]
fn status_messages_decode_to_their_printable_bytes() {
    let encoded = base64::engine::general_purpose::STANDARD.encode([0x08u8, b'h', b'i', 0x01]);
    let err = new_grpc_error("3", &encoded, None);
    assert_eq!(err.message, "hi");
    let err = new_grpc_error(
        "3",
        &encoded,
        Some(CommonError { code: 10308, message: Some("Denied".to_string()), source: Some("ENGINE".to_string()) }),
    );
    assert_eq!(err.app_code, 10308);
    assert_eq!(err.message, "Denied");
    assert_eq!(err.domain, "ENGINE");
}

#[test]
fn sessions_need_an_instance_and_a_session_id() {
    let c = conn("main", 3);
    match first_instance(&InstancesResponse { instances: vec![] }, &c) {
        Err(err @ ConnectionError::NoInstances { .. }) => {
            assert_eq!(err.message(), "connection \"main\" has no instances")
        }
        _ => panic!("expected no instances"),
    }
    let resp = OpenResponse {
        session: String::new(),
        engine: "postgresql".to_string(),
        version: "16".to_string(),
        db: "app".to_string(),
    };
    match opened_session(resp.clone(), &c) {
        Err(err) => assert_eq!(err.message(), "open returned no session"),
        Ok(_) => panic!("expected no session"),
    }
    let opened = opened_session(OpenResponse { session: "s".to_string(), ..resp }, &c).ok().unwrap();
    assert_eq!(opened.db_type, 3);
    assert_eq!(opened.db, "app");
    assert_eq!(opened.connection, "main");
}

#[test]
fn undecodable_blocks_fail_the_result() {
    let good = msgpack_rows(vec![vec![cell_value(Value::from(1))]]);
    match decode_result(&table_of(vec![good, Vec::new()])) {
        Err(err) => assert!(err.message().starts_with("I/O error while reading marker byte")),
        Ok(_) => panic!("expected a decode error"),
    }
    let truncated = vec![0x92u8];
    assert!(matches!(decode_result(&table_of(vec![truncated])), Err(SqlError::Decode(_))));
}

#[test]
fn missing_result_sets_give_the_executed_columns() {
    let columns = vec![ColumnInfo { name: "id".to_string(), column_type: "System.Int64".to_string() }];
    let gone = Failure::Grpc(GrpcError {
        code: "2".to_string(),
        app_code: 0,
        message: "SqlResultsetNotFound".to_string(),
        domain: String::new(),
    });
    let result = data_table_result(Err(gone), columns).ok().unwrap();
    assert_eq!(result.columns[0].name, "id");
    assert!(result.rows.is_empty());
    let other = data_table_result(Err(Failure::Message("boom".to_string())), vec![]);
    assert!(matches!(other, Err(Failure::Message(ref m)) if m == "boom"));
}

#[test]
fn query_plan_applies_the_limit_to_both_requests() {
    let plan = query_plan(0, 0);
    assert_eq!(plan.dialect, 1);
    assert!(plan.use_limit);
    assert_eq!(plan.row_limit, 1000);
    assert_eq!(plan.row_count, 1000);
    let plan = query_plan(25, 3);
    assert_eq!((plan.dialect, plan.row_limit, plan.row_count), (3, 25, 25));
}

#[test]
fn the_first_parsed_statement_is_executed() {
    assert_eq!(first_statement(vec!["a", "b"]).ok(), Some("a"));
    assert!(matches!(first_statement(Vec::<&str>::new()), Err(SqlError::NoStatement)));
}
