//! The database session a command runs in: what it requires, the database
//! it resolves to, and when it is opened again.
use vstd::prelude::*;
use crate::cli::Global;
use crate::failure::{auth_expired, is_auth_expired, is_session_not_found, session_not_found, Failure};
use crate::qpapi::session::OpenedSession;
use crate::sessioncache::Entry;
use crate::text::{append, chars_of, eq_chars, eq_str, is_blank, is_blank_str, lower, lower_vec, string_of, trim, trim_str};

verus! {

/// The message of a missing host.
pub open spec fn no_host_text(config_file: Seq<char>) -> Seq<char> {
    "no QueryPie host: pass --host or set `host:` in "@ + config_file
}

/// The message of a missing connection.
pub open spec fn no_connection_text() -> Seq<char> {
    "no connection: pass --connection or set `connection:` in config"@
}

impl Global {
    /// The host, which must not be blank; `config_file` is named in the
    /// error.
    pub fn require_host(&self, config_file: &str) -> (res: Result<&String, Failure>)
        ensures
            match res {
                Ok(h) => !is_blank(self.host@) && *h == self.host,
                Err(e) => is_blank(self.host@) && (e matches Failure::Message(m) && m@
                    == no_host_text(config_file@)),
            },
    {
        if is_blank_str(self.host.as_str()) {
            let mut t = chars_of("no QueryPie host: pass --host or set `host:` in ");
            append(&mut t, &chars_of(config_file));
            Err(Failure::Message(string_of(&t)))
        } else {
            Ok(&self.host)
        }
    }

    /// The connection must not be blank.
    pub fn require_connection(&self) -> (res: Result<(), Failure>)
        ensures
            match res {
                Ok(()) => !is_blank(self.connection@),
                Err(e) => is_blank(self.connection@) && (e matches Failure::Message(m) && m@
                    == no_connection_text()),
            },
    {
        if is_blank_str(self.connection.as_str()) {
            Err(
                Failure::Message(
                    "no connection: pass --connection or set `connection:` in config".to_owned(),
                ),
            )
        } else {
            Ok(())
        }
    }
}

/// The database type of an engine name, trimmed and in lowercase (0 when
/// unknown).
pub open spec fn engine_db_type(engine: Seq<char>) -> i32 {
    let e = lower(trim(engine));
    if e == "mysql"@ {
        1
    } else if e == "postgresql"@ || e == "postgres"@ {
        3
    } else if e == "mongodb"@ || e == "mongo"@ {
        13
    } else {
        0
    }
}

/// The database type of an engine name.
pub fn db_type_for_engine(engine: &str) -> (res: i32)
    ensures
        res == engine_db_type(engine@),
{
    let e = string_of(&lower_vec(&trim_str(engine)));
    let s = e.as_str();
    if eq_str(s, "mysql") {
        1
    } else if eq_str(s, "postgresql") || eq_str(s, "postgres") {
        3
    } else if eq_str(s, "mongodb") || eq_str(s, "mongo") {
        13
    } else {
        0
    }
}

/// The database type of a cached session: the one stored, or the engine's
/// when none was stored.
pub fn cached_db_type(entry: &Entry) -> (res: i32)
    ensures
        res == if entry.db_type == 0 {
            engine_db_type(entry.engine@)
        } else {
            entry.db_type
        },
{
    if entry.db_type == 0 {
        db_type_for_engine(entry.engine.as_str())
    } else {
        entry.db_type
    }
}

/// The database a new session works in: the one asked for, trimmed, or
/// the session's default when none was asked for; and whether the session
/// must be moved to it.
pub open spec fn database_choice(input_db: Seq<char>, opened_db: Seq<char>) -> (Seq<char>, bool) {
    let wanted = trim(input_db);
    if wanted.len() == 0 {
        (opened_db, false)
    } else {
        (wanted, wanted != opened_db)
    }
}

/// The database a new session works in, and whether to change to it.
pub fn resolved_database(input_db: &str, opened_db: &str) -> (res: (String, bool))
    ensures
        (res.0@, res.1) == database_choice(input_db@, opened_db@),
{
    let wanted = trim_str(input_db);
    if wanted.len() == 0 {
        (opened_db.to_owned(), false)
    } else {
        let opened = chars_of(opened_db);
        let change = !eq_chars(&wanted, &opened);
        (string_of(&wanted), change)
    }
}

/// The cache entry of a session that was opened for the selection: stored
/// under the name of the connection it was opened on, so that a later
/// selection by that full name finds it too.
pub fn session_entry(
    global: &Global,
    host: String,
    window_id: String,
    opened: &OpenedSession,
    resolved_db: String,
    opened_at: i64,
) -> (res: Entry)
    ensures
        res == (Entry {
            host,
            connection: opened.connection,
            engine: opened.engine,
            input_db: global.database,
            window_id,
            session: opened.session,
            resolved_db,
            db_type: opened.db_type,
            opened_at,
        }),
{
    Entry {
        host,
        connection: opened.connection.clone(),
        engine: opened.engine.clone(),
        input_db: global.database.clone(),
        window_id,
        session: opened.session.clone(),
        resolved_db,
        db_type: opened.db_type,
        opened_at,
    }
}

/// The message of a database that the connection does not list.
pub open spec fn inaccessible_text(db: Seq<char>, connection: Seq<char>) -> Seq<char> {
    "database `"@ + db + "` is not accessible for connection `"@ + connection + "`"@
}

/// Is the session's database one that the connection lists; a blank
/// database is not checked.
pub fn validate_database(db: &str, connection: &str, names: &Vec<String>) -> (res: Result<(), Failure>)
    ensures
        match res {
            Ok(()) => is_blank(db@) || exists|i: int| 0 <= i < names@.len() && #[trigger] names@[i]@ == db@,
            Err(e) => !is_blank(db@) && (forall|i: int| 0 <= i < names@.len() ==> #[trigger] names@[i]@ != db@)
                && (e matches Failure::Message(m) && m@ == inaccessible_text(db@, connection@)),
        },
{
    if is_blank_str(db) {
        return Ok(());
    }
    let mut i: usize = 0;
    while i < names.len()
        invariant
            i <= names.len(),
            forall|k: int| 0 <= k < i ==> #[trigger] names@[k]@ != db@,
        decreases names.len() - i,
    {
        if eq_str(names[i].as_str(), db) {
            return Ok(());
        }
        i = i + 1;
    }
    let mut t = chars_of("database `");
    append(&mut t, &chars_of(db));
    append(&mut t, &chars_of("` is not accessible for connection `"));
    append(&mut t, &chars_of(connection));
    append(&mut t, &chars_of("`"));
    Err(Failure::Message(string_of(&t)))
}

// ------------------------------------------------------------------
// Running in a session, opening it again when needed
// ------------------------------------------------------------------
/// Where a run in a session stands.
#[derive(Debug, Clone, Copy, PartialEq, Eq, Structural)]
pub enum SessionPhase {
    /// A session is being found or opened.
    Resolving,
    /// The cookies were refreshed and a session is being opened.
    ResolvingRefreshed,
    /// The command runs for the first time.
    FirstRun,
    /// A session is being opened again after the first run failed.
    Retrying,
    /// The command runs a second time.
    LastRun,
    Done,
}

/// What the caller reports back.
#[derive(Debug)]
pub enum SessionEvent {
    /// A session was resolved, or not.
    Resolved(Result<(), Failure>),
    /// The command ran in it (the database check included).
    Ran(Result<(), Failure>),
}

/// What the caller does next.
#[derive(Debug)]
pub enum SessionAction {
    /// Find a cached session or open one; with `reopen`, open a new one.
    Resolve { reopen: bool },
    /// Refresh the cookies, clear the connection's cached sessions and open
    /// a new session.
    RefreshAndResolve,
    /// Check the session's database and run the command.
    Run,
    Finish(Result<(), Failure>),
}

/// Does the event answer what the phase waits for.
pub open spec fn session_event_fits(phase: SessionPhase, event: SessionEvent) -> bool {
    match phase {
        SessionPhase::Resolving | SessionPhase::ResolvingRefreshed | SessionPhase::Retrying => event is Resolved,
        SessionPhase::FirstRun | SessionPhase::LastRun => event is Ran,
        SessionPhase::Done => false,
    }
}

/// Runs a command in a session of the selected connection: an expired
/// token is refreshed and the command run again once; a session that is
/// gone is opened again and the command run again once.
pub fn with_session(global: &Global) -> (res: (SessionPhase, SessionAction))
    ensures
        is_blank(global.connection@) ==> res.0 == SessionPhase::Done && (res.1 matches SessionAction::Finish(
            Err(Failure::Message(m)),
        ) && m@ == no_connection_text()),
        !is_blank(global.connection@) ==> res.0 == SessionPhase::Resolving && (res.1 matches SessionAction::Resolve { reopen } && !reopen),
{
    match global.require_connection() {
        Err(e) => (SessionPhase::Done, SessionAction::Finish(Err(e))),
        Ok(()) => (SessionPhase::Resolving, SessionAction::Resolve { reopen: false }),
    }
}

/// The next phase and action of a run in a session.
pub fn session_step(phase: SessionPhase, event: SessionEvent) -> (res: (SessionPhase, SessionAction))
    requires
        session_event_fits(phase, event),
    ensures
        match (phase, event) {
            (SessionPhase::Resolving, SessionEvent::Resolved(Err(e))) => if auth_expired(e) {
                res.0 == SessionPhase::ResolvingRefreshed && res.1 is RefreshAndResolve
            } else {
                res.0 == SessionPhase::Done && res.1 == SessionAction::Finish(Err(e))
            },
            (SessionPhase::Resolving, SessionEvent::Resolved(Ok(()))) => res.0 == SessionPhase::FirstRun
                && res.1 is Run,
            (SessionPhase::ResolvingRefreshed, SessionEvent::Resolved(Err(e))) => res.0
                == SessionPhase::Done && res.1 == SessionAction::Finish(Err(e)),
            (SessionPhase::ResolvingRefreshed, SessionEvent::Resolved(Ok(()))) => res.0
                == SessionPhase::FirstRun && res.1 is Run,
            (SessionPhase::FirstRun, SessionEvent::Ran(Ok(()))) => res.0 == SessionPhase::Done
                && res.1 == SessionAction::Finish(Ok(())),
            (SessionPhase::FirstRun, SessionEvent::Ran(Err(e))) => if auth_expired(e) {
                res.0 == SessionPhase::Retrying && res.1 is RefreshAndResolve
            } else if session_not_found(e) {
                res.0 == SessionPhase::Retrying && (res.1 matches SessionAction::Resolve { reopen } && reopen)
            } else {
                res.0 == SessionPhase::Done && res.1 == SessionAction::Finish(Err(e))
            },
            (SessionPhase::Retrying, SessionEvent::Resolved(Err(e))) => res.0 == SessionPhase::Done
                && res.1 == SessionAction::Finish(Err(e)),
            (SessionPhase::Retrying, SessionEvent::Resolved(Ok(()))) => res.0 == SessionPhase::LastRun
                && res.1 is Run,
            (SessionPhase::LastRun, SessionEvent::Ran(r)) => res.0 == SessionPhase::Done && res.1
                == SessionAction::Finish(r),
            _ => false,
        },
{
    if phase == SessionPhase::LastRun {
        return match event {
            SessionEvent::Ran(r) => (SessionPhase::Done, SessionAction::Finish(r)),
            SessionEvent::Resolved(r) => (SessionPhase::Done, SessionAction::Finish(r)),
        };
    }
    match event {
        SessionEvent::Resolved(Ok(())) => {
            if phase == SessionPhase::Retrying {
                (SessionPhase::LastRun, SessionAction::Run)
            } else {
                (SessionPhase::FirstRun, SessionAction::Run)
            }
        },
        SessionEvent::Resolved(Err(e)) => {
            if phase == SessionPhase::Resolving && is_auth_expired(&e) {
                (SessionPhase::ResolvingRefreshed, SessionAction::RefreshAndResolve)
            } else {
                (SessionPhase::Done, SessionAction::Finish(Err(e)))
            }
        },
        SessionEvent::Ran(Ok(())) => (SessionPhase::Done, SessionAction::Finish(Ok(()))),
        SessionEvent::Ran(Err(e)) => {
            if is_auth_expired(&e) {
                (SessionPhase::Retrying, SessionAction::RefreshAndResolve)
            } else if is_session_not_found(&e) {
                (SessionPhase::Retrying, SessionAction::Resolve { reopen: true })
            } else {
                (SessionPhase::Done, SessionAction::Finish(Err(e)))
            }
        },
    }
}

} // verus!
