use querypie_cli::sessioncache::{
    clear, clear_connection, find_matching, has_host, host_from_cache_file_name, list, list_host, put,
    remove_matching, ClearScope, Entry, HostCacheFile, SessionEntry,
};

fn cache_file(entries: Vec<(&str, &str, &str, i32)>) -> HostCacheFile {
    let mut file = HostCacheFile::new();
    for (connection, engine, session, db_type) in entries {
        file.insert(
            connection,
            engine,
            "",
            SessionEntry {
                window_id: format!("{session}-window"),
                session: session.to_string(),
                resolved_db: "app".to_string(),
                db_type,
                opened_at: 123,
            },
        );
    }
    file
}

fn insert_entry(file: &mut HostCacheFile, connection: &str, engine: &str, input_db: &str, session: &str, resolved_db: &str) {
    file.insert(
        connection,
        engine,
        input_db,
        SessionEntry {
            window_id: format!("{session}-window"),
            session: session.to_string(),
            resolved_db: resolved_db.to_string(),
            db_type: 1,
            opened_at: 123,
        },
    );
}

#[test]
fn exact_lookup_returns_canonical_cache_entry() {
    let file = cache_file(vec![
        ("production-main", "mysql", "s1", 1),
        ("production-main readonly", "mysql", "s2", 1),
    ]);
    let entry = find_matching(&file, "example.querypie", "production-main", "", "")
        .expect("expected exact cache match");
    assert_eq!(entry.connection, "production-main");
    assert_eq!(entry.engine, "mysql");
    assert_eq!(entry.session, "s1");
    assert_eq!(entry.db_type, 1);
}

#[test]
fn substring_lookup_returns_single_canonical_match() {
    let file = cache_file(vec![("production-main", "mysql", "s1", 1)]);
    let entry = find_matching(&file, "example.querypie", "prod", "", "").expect("expected cache match");
    assert_eq!(entry.connection, "production-main");
}

#[test]
fn substring_lookup_returns_none_for_multiple_matches() {
    let file = cache_file(vec![
        ("production-main", "mysql", "s1", 1),
        ("production-replica", "mysql", "s2", 1),
    ]);
    let entry = find_matching(&file, "example.querypie", "prod", "", "");
    assert!(entry.is_none());
}

#[test]
fn engine_filter_narrows_substring_match() {
    let file = cache_file(vec![
        ("production-main", "mysql", "s1", 1),
        ("production-warehouse", "postgresql", "s2", 3),
    ]);
    let entry = find_matching(&file, "example.querypie", "prod", "postgresql", "")
        .expect("expected engine-filtered cache match");
    assert_eq!(entry.connection, "production-warehouse");
    assert_eq!(entry.engine, "postgresql");
    assert_eq!(entry.db_type, 3);
}

#[test]
fn db_selector_isolates_entries_on_same_connection() {
    let mut file = HostCacheFile::new();
    insert_entry(&mut file, "production-main", "mysql", "", "s-default", "app");
    insert_entry(&mut file, "production-main", "mysql", "reporting", "s-report", "reporting");
    let default = find_matching(&file, "example.querypie", "production-main", "mysql", "")
        .expect("expected default db match");
    assert_eq!(default.session, "s-default");
    assert_eq!(default.resolved_db, "app");
    let reporting = find_matching(&file, "example.querypie", "production-main", "mysql", "reporting")
        .expect("expected reporting db match");
    assert_eq!(reporting.session, "s-report");
    assert_eq!(reporting.resolved_db, "reporting");
    assert!(find_matching(&file, "example.querypie", "production-main", "mysql", "missing").is_none());
}

#[test]
fn clear_removes_single_substring_match() {
    let mut file = cache_file(vec![
        ("production-main", "mysql", "s1", 1),
        ("staging-main", "mysql", "s2", 1),
    ]);
    assert!(remove_matching(&mut file, "prod").is_ok());
    assert!(!file.contains_connection("production-main"));
    assert!(file.contains_connection("staging-main"));
}

#[test]
fn clear_removes_exact_match_before_substring_matches() {
    let mut file = cache_file(vec![
        ("prod", "mysql", "s1", 1),
        ("production-main", "mysql", "s2", 1),
    ]);
    assert!(remove_matching(&mut file, "prod").is_ok());
    assert!(!file.contains_connection("prod"));
    assert!(file.contains_connection("production-main"));
}

#[test]
fn clear_rejects_ambiguous_substring_match() {
    let mut file = cache_file(vec![
        ("production-main", "mysql", "s1", 1),
        ("production-replica", "mysql", "s2", 1),
    ]);
    let err = remove_matching(&mut file, "prod").expect_err("expected ambiguity error");
    assert!(err.message().contains("ambiguous"));
    assert_eq!(file.connection_count(), 2);
}

#[test]
fn ambiguity_message_lists_choices() {
    let mut file = cache_file(vec![
        ("production-main", "mysql", "s1", 1),
        ("production-replica", "mysql", "s2", 1),
    ]);
    let err = remove_matching(&mut file, "prod").unwrap_err();
    assert_eq!(
        err.message(),
        "cached connection \"prod\" is ambiguous:\n  production-main\n  production-replica"
    );
}

#[test]
fn put_then_get_returns_the_entry() {
    let mut file = HostCacheFile::new();
    put(
        &mut file,
        Entry {
            host: "h".to_string(),
            connection: "main".to_string(),
            engine: "mysql".to_string(),
            input_db: "app".to_string(),
            window_id: "w".to_string(),
            session: "s".to_string(),
            resolved_db: "app".to_string(),
            db_type: 1,
            opened_at: 5,
        },
    );
    let found = find_matching(&file, "h", "main", "mysql", "app").unwrap();
    assert_eq!(found.session, "s");
    assert_eq!(found.input_db, "app");
    assert!(has_host(&file, "h"));
    assert_eq!(list_host(&file, "h").len(), 1);
}

#[test]
fn clearing_a_connection_empties_the_file() {
    let mut file = cache_file(vec![("production-main", "mysql", "s1", 1)]);
    assert_eq!(clear_connection(&mut file, "prod").ok(), Some(true));
    assert_eq!(file.connection_count(), 0);
    assert!(!has_host(&file, "h"));
}

#[test]
fn clear_scope_follows_host_and_connection() {
    assert!(matches!(clear("", "x"), ClearScope::AllHosts));
    assert!(matches!(clear("https://h/", " "), ClearScope::Host(ref h) if h == "h"));
    assert!(matches!(clear("h", "main"), ClearScope::Connection { ref host, ref connection } if host == "h" && connection == "main"));
}

#[test]
fn cache_file_names_give_hosts() {
    assert_eq!(host_from_cache_file_name("querypie.example.com.json"), Some("querypie.example.com".to_string()));
    assert_eq!(host_from_cache_file_name("notes.txt"), None);
}

#[test]
fn listed_sessions_come_in_key_order_host_after_host() {
    let mut b = HostCacheFile::new();
    insert_entry(&mut b, "zeta", "mysql", "", "s1", "app");
    insert_entry(&mut b, "alpha", "postgresql", "reports", "s2", "reports");
    insert_entry(&mut b, "alpha", "mysql", "", "s3", "app");
    insert_entry(&mut b, "alpha", "postgresql", "", "s4", "app");
    insert_entry(&mut b, "alpha", "mysql", "", "s5", "app");
    let mut a = HostCacheFile::new();
    insert_entry(&mut a, "main", "mysql", "", "s6", "app");
    let entries = list(&vec![("b.example".to_string(), b), ("a.example".to_string(), a)]);
    let keys: Vec<(&str, &str, &str, &str, &str)> = entries
        .iter()
        .map(|e| (e.host.as_str(), e.connection.as_str(), e.engine.as_str(), e.input_db.as_str(), e.session.as_str()))
        .collect();
    assert_eq!(
        keys,
        vec![
            ("b.example", "alpha", "mysql", "", "s5"),
            ("b.example", "alpha", "postgresql", "", "s4"),
            ("b.example", "alpha", "postgresql", "reports", "s2"),
            ("b.example", "zeta", "mysql", "", "s1"),
            ("a.example", "main", "mysql", "", "s6"),
        ]
    );
}
