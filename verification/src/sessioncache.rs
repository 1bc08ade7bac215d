//! The per-host cache of opened database sessions.
//!
//! A host's cache maps a connection name to an engine name to the database
//! given on the command line (empty for the connection's default database)
//! to the cached session.  Keys at every level are kept in ascending
//! lexicographic order, so that the cache is walked in the same order as the
//! sorted maps it is stored as.
use vstd::prelude::*;
use crate::paths::{normalize_host, normalize_host_chars, normalized_host};
use crate::keyed::{
    find_slot, has_pair, lemma_absent_lookup, lemma_found_lookup, lemma_keys_sorted,
    lemma_lookup_absent, lemma_lookup_at, lemma_lookup_some, lemma_lookup_upsert,
    lemma_remove_key_absent, lemma_remove_key_at, lemma_remove_sorted, lemma_upsert_absent,
    lemma_upsert_found, lemma_upsert_others, lemma_upsert_sorted, lookup, remove_key, sorted_keys,
    upsert, Keyed, Slot,
};
use crate::text::{
    chars_of, contains_ignore_case, eq_chars, eq_ignore_case, has_sub, has_suffix, lemma_lex_irreflexive,
    lex_lt, lower, occurs_at, string_of, subrange_vec, trim, trim_str, texts_of};

verus! {

// ------------------------------------------------------------------
// Entries
// ------------------------------------------------------------------
/// A cached session as stored under its connection, engine and database.
#[derive(Debug, Clone)]
pub struct SessionEntry {
    pub window_id: String,
    pub session: String,
    pub resolved_db: String,
    pub db_type: i32,
    pub opened_at: i64,
}

pub struct SessionEntryView {
    pub window_id: Seq<char>,
    pub session: Seq<char>,
    pub resolved_db: Seq<char>,
    pub db_type: i32,
    pub opened_at: i64,
}

impl View for SessionEntry {
    type V = SessionEntryView;

    open spec fn view(&self) -> SessionEntryView {
        SessionEntryView {
            window_id: self.window_id@,
            session: self.session@,
            resolved_db: self.resolved_db@,
            db_type: self.db_type,
            opened_at: self.opened_at,
        }
    }
}

/// A cached session together with the keys it is stored under.
#[derive(Debug, Clone)]
pub struct Entry {
    pub host: String,
    pub connection: String,
    pub engine: String,
    /// Cache key: the database as given on the command line (empty for the
    /// connection default).
    pub input_db: String,
    pub window_id: String,
    pub session: String,
    pub resolved_db: String,
    pub db_type: i32,
    pub opened_at: i64,
}

pub struct EntryView {
    pub host: Seq<char>,
    pub connection: Seq<char>,
    pub engine: Seq<char>,
    pub input_db: Seq<char>,
    pub window_id: Seq<char>,
    pub session: Seq<char>,
    pub resolved_db: Seq<char>,
    pub db_type: i32,
    pub opened_at: i64,
}

impl View for Entry {
    type V = EntryView;

    open spec fn view(&self) -> EntryView {
        EntryView {
            host: self.host@,
            connection: self.connection@,
            engine: self.engine@,
            input_db: self.input_db@,
            window_id: self.window_id@,
            session: self.session@,
            resolved_db: self.resolved_db@,
            db_type: self.db_type,
            opened_at: self.opened_at,
        }
    }
}

/// The public entry for a stored session and the keys it is stored under.
pub open spec fn public_view(
    e: SessionEntryView,
    host: Seq<char>,
    connection: Seq<char>,
    engine: Seq<char>,
    input_db: Seq<char>,
) -> EntryView {
    EntryView {
        host,
        connection,
        engine,
        input_db,
        window_id: e.window_id,
        session: e.session,
        resolved_db: e.resolved_db,
        db_type: e.db_type,
        opened_at: e.opened_at,
    }
}

/// The stored part of a public entry.
pub open spec fn stored_view(e: EntryView) -> SessionEntryView {
    SessionEntryView {
        window_id: e.window_id,
        session: e.session,
        resolved_db: e.resolved_db,
        db_type: e.db_type,
        opened_at: e.opened_at,
    }
}

/// A copy of a string.
pub fn copy_string(s: &String) -> (res: String)
    ensures
        res@ == s@,
{
    s.clone()
}

impl SessionEntry {
    /// A copy of this entry.
    pub fn duplicate(&self) -> (res: SessionEntry)
        ensures
            res@ == self@,
    {
        SessionEntry {
            window_id: copy_string(&self.window_id),
            session: copy_string(&self.session),
            resolved_db: copy_string(&self.resolved_db),
            db_type: self.db_type,
            opened_at: self.opened_at,
        }
    }

    /// The public entry for this session stored under the given keys.
    pub fn to_public(&self, host: &str, connection: &str, engine: &str, input_db: &str) -> (res:
        Entry)
        ensures
            res@ == public_view(self@, host@, connection@, engine@, input_db@),
    {
        Entry {
            host: host.to_owned(),
            connection: connection.to_owned(),
            engine: engine.to_owned(),
            input_db: input_db.to_owned(),
            window_id: copy_string(&self.window_id),
            session: copy_string(&self.session),
            resolved_db: copy_string(&self.resolved_db),
            db_type: self.db_type,
            opened_at: self.opened_at,
        }
    }
}

impl Entry {
    /// A copy of this entry.
    pub fn duplicate(&self) -> (res: Entry)
        ensures
            res == *self,
    {
        Entry {
            host: self.host.clone(),
            connection: self.connection.clone(),
            engine: self.engine.clone(),
            input_db: self.input_db.clone(),
            window_id: self.window_id.clone(),
            session: self.session.clone(),
            resolved_db: self.resolved_db.clone(),
            db_type: self.db_type,
            opened_at: self.opened_at,
        }
    }

    /// The part of this entry that is stored under its keys.
    pub fn into_stored(self) -> (res: SessionEntry)
        ensures
            res@ == stored_view(self@),
    {
        SessionEntry {
            window_id: self.window_id,
            session: self.session,
            resolved_db: self.resolved_db,
            db_type: self.db_type,
            opened_at: self.opened_at,
        }
    }
}

// ------------------------------------------------------------------
// Keyed sequences
// ------------------------------------------------------------------

/// The databases of one engine, each with its cached session.
pub type DbSessions = Vec<Keyed<SessionEntry>>;

/// The engines of one connection, each with its databases.
pub type EngineSessions = Vec<Keyed<DbSessions>>;

/// One connection with its engines.
pub type ConnectionSessions = Keyed<EngineSessions>;

pub type DbsView = Seq<(Seq<char>, SessionEntryView)>;

pub type EnginesView = Seq<(Seq<char>, DbsView)>;

pub type FileView = Seq<(Seq<char>, EnginesView)>;

pub open spec fn dbs_view(d: Seq<Keyed<SessionEntry>>) -> DbsView {
    d.map_values(|x: Keyed<SessionEntry>| (x.key@, x.value@))
}

pub open spec fn engines_view(e: Seq<Keyed<DbSessions>>) -> EnginesView {
    e.map_values(|x: Keyed<DbSessions>| (x.key@, dbs_view(x.value@)))
}

pub open spec fn file_view(c: Seq<ConnectionSessions>) -> FileView {
    c.map_values(|x: ConnectionSessions| (x.key@, engines_view(x.value@)))
}

pub open spec fn engines_wf(e: EnginesView) -> bool {
    &&& sorted_keys(e)
    &&& forall|i: int| 0 <= i < e.len() ==> sorted_keys(#[trigger] e[i].1)
}

pub open spec fn file_wf(f: FileView) -> bool {
    &&& sorted_keys(f)
    &&& forall|i: int| 0 <= i < f.len() ==> engines_wf(#[trigger] f[i].1)
}

// ------------------------------------------------------------------
// The cache of one host
// ------------------------------------------------------------------
/// The sessions cached for one host.
pub struct HostCacheFile {
    sessions: Vec<ConnectionSessions>,
}

impl View for HostCacheFile {
    type V = FileView;

    closed spec fn view(&self) -> FileView {
        file_view(self.sessions@)
    }
}

impl HostCacheFile {
    /// Keys in ascending order at every level.
    pub open spec fn wf(&self) -> bool {
        file_wf(self@)
    }

    /// An empty cache.
    pub fn new() -> (res: HostCacheFile)
        ensures
            res.wf(),
            res@ == Seq::<(Seq<char>, EnginesView)>::empty(),
    {
        let res = HostCacheFile { sessions: Vec::new() };
        assert(res@ =~= Seq::<(Seq<char>, EnginesView)>::empty());
        res
    }

    /// The connections, in order, with their engines and databases.
    pub fn connections(&self) -> (res: &Vec<ConnectionSessions>)
        ensures
            file_view(res@) == self@,
    {
        &self.sessions
    }

    /// The number of cached connections.
    pub fn connection_count(&self) -> (res: usize)
        ensures
            res == self@.len(),
    {
        self.sessions.len()
    }

    /// Is `connection` a cached connection name.
    pub fn contains_connection(&self, connection: &str) -> (res: bool)
        requires
            self.wf(),
        ensures
            res == (lookup(self@, connection@) is Some),
    {
        let key = chars_of(connection);
        proof {
            lemma_keys_sorted(
                self.sessions@,
                |x: ConnectionSessions| (x.key@, engines_view(x.value@)),
            );
        }
        match find_slot(&self.sessions, &key) {
            Slot::Found(i) => {
                proof {
                    assert(self@[i as int].0 == connection@);
                    lemma_lookup_at(self@, i as int);
                }
                true
            },
            Slot::Absent(p) => {
                proof {
                    assert forall|j: int| 0 <= j < self@.len() implies self@[j].0 != connection@ by {
                        assert(self@[j].0 == self.sessions@[j].key@);
                        lemma_lex_irreflexive(connection@);
                    }
                    lemma_lookup_absent(self@, connection@);
                }
                false
            },
        }
    }
}

/// A cache file with `v` stored under connection `c`, engine `e` and
/// database `d`.
pub open spec fn insert_view(
    f: FileView,
    c: Seq<char>,
    e: Seq<char>,
    d: Seq<char>,
    v: SessionEntryView,
) -> FileView {
    let engines = match lookup(f, c) {
        Some(x) => x,
        None => Seq::empty(),
    };
    let dbs = match lookup(engines, e) {
        Some(x) => x,
        None => Seq::empty(),
    };
    upsert(f, c, upsert(engines, e, upsert(dbs, d, v)))
}

/// Stores `entry` under database `d`.
fn upsert_db(dbs: &mut DbSessions, d: &str, entry: SessionEntry)
    requires
        sorted_keys(dbs_view(old(dbs)@)),
    ensures
        dbs_view(final(dbs)@) == upsert(dbs_view(old(dbs)@), d@, entry@),
        sorted_keys(dbs_view(final(dbs)@)),
{
    let key = chars_of(d);
    let ghost old_v = dbs_view(dbs@);
    proof {
        lemma_keys_sorted(dbs@, |x: Keyed<SessionEntry>| (x.key@, x.value@));
    }
    let ghost ev = entry@;
    match find_slot(dbs, &key) {
        Slot::Found(i) => {
            let _ = dbs.remove(i);
            dbs.insert(i, Keyed { key: d.to_owned(), value: entry });
            proof {
                assert(old_v[i as int].0 == d@);
                lemma_upsert_found(old_v, i as int, ev);
                assert(dbs_view(dbs@) =~= old_v.update(i as int, (d@, ev)));
            }
        },
        Slot::Absent(p) => {
            dbs.insert(p, Keyed { key: d.to_owned(), value: entry });
            proof {
                assert forall|j: int| 0 <= j < p implies lex_lt(#[trigger] old_v[j].0, d@) by {
                    assert(old_v[j].0 == old(dbs)@[j].key@);
                }
                assert forall|j: int| p <= j < old_v.len() implies lex_lt(d@, #[trigger] old_v[j].0) by {
                    assert(old_v[j].0 == old(dbs)@[j].key@);
                }
                lemma_upsert_absent(old_v, p as int, d@, ev);
                assert(dbs_view(dbs@) =~= old_v.insert(p as int, (d@, ev)));
            }
        },
    }
    proof {
        lemma_upsert_sorted(old_v, d@, ev);
    }
}

/// Stores `entry` under engine `e` and database `d`.
fn upsert_engine(engines: &mut EngineSessions, e: &str, d: &str, entry: SessionEntry)
    requires
        engines_wf(engines_view(old(engines)@)),
    ensures
        ({
            let old_v = engines_view(old(engines)@);
            let dbs = match lookup(old_v, e@) {
                Some(x) => x,
                None => Seq::empty(),
            };
            engines_view(final(engines)@) == upsert(old_v, e@, upsert(dbs, d@, entry@))
        }),
        engines_wf(engines_view(final(engines)@)),
{
    let key = chars_of(e);
    let ghost old_v = engines_view(engines@);
    proof {
        lemma_keys_sorted(engines@, |x: Keyed<DbSessions>| (x.key@, dbs_view(x.value@)));
    }
    let ghost ev = entry@;
    match find_slot(engines, &key) {
        Slot::Found(i) => {
            let mut slot = engines.remove(i);
            proof {
                assert(old_v[i as int] == (slot.key@, dbs_view(slot.value@)));
                assert(sorted_keys(old_v[i as int].1));
                lemma_found_lookup(old_v, i as int, e@);
            }
            upsert_db(&mut slot.value, d, entry);
            let ghost nv = (slot.key@, dbs_view(slot.value@));
            engines.insert(i, slot);
            proof {
                lemma_upsert_found(old_v, i as int, nv.1);
                assert(engines_view(engines@) =~= old_v.update(i as int, nv));
                lemma_upsert_sorted(old_v, e@, nv.1);
                let nw = engines_view(engines@);
                assert forall|j: int| 0 <= j < nw.len() implies sorted_keys(#[trigger] nw[j].1) by {
                    if j != i {
                        assert(nw[j] == old_v[j]);
                    }
                }
            }
        },
        Slot::Absent(p) => {
            let mut dbs: DbSessions = Vec::new();
            dbs.push(Keyed { key: d.to_owned(), value: entry });
            let ghost nv = (e@, dbs_view(dbs@));
            engines.insert(p, Keyed { key: e.to_owned(), value: dbs });
            proof {
                assert forall|j: int| 0 <= j < p implies lex_lt(#[trigger] old_v[j].0, e@) by {
                    assert(old_v[j].0 == old(engines)@[j].key@);
                }
                assert forall|j: int| p <= j < old_v.len() implies lex_lt(e@, #[trigger] old_v[j].0) by {
                    assert(old_v[j].0 == old(engines)@[j].key@);
                }
                lemma_absent_lookup(old_v, p as int, e@);
                assert(nv.1 =~= upsert(Seq::<(Seq<char>, SessionEntryView)>::empty(), d@, ev));
                lemma_upsert_absent(old_v, p as int, e@, nv.1);
                assert(engines_view(engines@) =~= old_v.insert(p as int, nv));
                lemma_upsert_sorted(old_v, e@, nv.1);
                let nw = engines_view(engines@);
                assert forall|j: int| 0 <= j < nw.len() implies sorted_keys(#[trigger] nw[j].1) by {
                    if j < p {
                        assert(nw[j] == old_v[j]);
                    } else if j > p {
                        assert(nw[j] == old_v[j - 1]);
                    }
                }
            }
        },
    }
}

impl HostCacheFile {
    /// Stores `entry` under connection `connection`, engine `engine` and
    /// database `input_db`, replacing what was stored there.
    pub fn insert(&mut self, connection: &str, engine: &str, input_db: &str, entry: SessionEntry)
        requires
            old(self).wf(),
        ensures
            final(self).wf(),
            final(self)@ == insert_view(old(self)@, connection@, engine@, input_db@, entry@),
    {
        let key = chars_of(connection);
        let ghost old_v = self@;
        proof {
            lemma_keys_sorted(
                self.sessions@,
                |x: ConnectionSessions| (x.key@, engines_view(x.value@)),
            );
        }
        let ghost ev = entry@;
        match find_slot(&self.sessions, &key) {
            Slot::Found(i) => {
                let mut slot = self.sessions.remove(i);
                proof {
                    assert(old_v[i as int] == (slot.key@, engines_view(slot.value@)));
                    assert(engines_wf(old_v[i as int].1));
                    lemma_found_lookup(old_v, i as int, connection@);
                }
                upsert_engine(&mut slot.value, engine, input_db, entry);
                let ghost nv = (slot.key@, engines_view(slot.value@));
                self.sessions.insert(i, slot);
                proof {
                    lemma_upsert_found(old_v, i as int, nv.1);
                    assert(self@ =~= old_v.update(i as int, nv));
                    lemma_upsert_sorted(old_v, connection@, nv.1);
                    let nw = self@;
                    assert forall|j: int| 0 <= j < nw.len() implies engines_wf(#[trigger] nw[j].1) by {
                        if j != i {
                            assert(nw[j] == old_v[j]);
                        }
                    }
                }
            },
            Slot::Absent(p) => {
                let mut engines: EngineSessions = Vec::new();
                proof {
                    assert(engines_view(engines@) =~= Seq::<(Seq<char>, DbsView)>::empty());
                }
                upsert_engine(&mut engines, engine, input_db, entry);
                let ghost nv = (connection@, engines_view(engines@));
                self.sessions.insert(p, Keyed { key: connection.to_owned(), value: engines });
                proof {
                    assert forall|j: int| 0 <= j < p implies lex_lt(#[trigger] old_v[j].0, connection@) by {
                        assert(old_v[j].0 == old(self).sessions@[j].key@);
                    }
                    assert forall|j: int| p <= j < old_v.len() implies lex_lt(
                        connection@,
                        #[trigger] old_v[j].0,
                    ) by {
                        assert(old_v[j].0 == old(self).sessions@[j].key@);
                    }
                    lemma_absent_lookup(old_v, p as int, connection@);
                    lemma_upsert_absent(old_v, p as int, connection@, nv.1);
                    assert(self@ =~= old_v.insert(p as int, nv));
                    lemma_upsert_sorted(old_v, connection@, nv.1);
                    let nw = self@;
                    assert forall|j: int| 0 <= j < nw.len() implies engines_wf(#[trigger] nw[j].1) by {
                        if j < p {
                            assert(nw[j] == old_v[j]);
                        } else if j > p {
                            assert(nw[j] == old_v[j - 1]);
                        }
                    }
                }
            },
        }
    }
}

// ------------------------------------------------------------------
// Lookups
// ------------------------------------------------------------------
/// Does a cached engine match an engine query that has already been trimmed
/// and lower-cased (an empty query matches every engine).
pub open spec fn engine_ok(engine: Seq<char>, query: Seq<char>) -> bool {
    query.len() == 0 || lower(engine) == lower(query)
}

/// The engine query as the cache compares it: trimmed and lower-cased.
pub open spec fn engine_query(engine: Seq<char>) -> Seq<char> {
    lower(trim(engine))
}

/// The engines of one connection that match `query` and hold database `db`,
/// in order, with the session stored there.
pub open spec fn engine_hits(engines: EnginesView, query: Seq<char>, db: Seq<char>) -> Seq<
    (Seq<char>, SessionEntryView),
>
    decreases engines.len(),
{
    if engines.len() == 0 {
        Seq::empty()
    } else {
        let rest = engine_hits(engines.drop_last(), query, db);
        let last = engines.last();
        if engine_ok(last.0, query) && lookup(last.1, db) is Some {
            rest.push((last.0, lookup(last.1, db).unwrap()))
        } else {
            rest
        }
    }
}

/// Is a connection named `conn` selected by the connection query `q`:
/// exactly, or (when `exact` is false) as a different name that contains
/// `q` ignoring ASCII case.
pub open spec fn conn_selected(conn: Seq<char>, q: Seq<char>, exact: bool) -> bool {
    if exact {
        conn == q
    } else {
        conn != q && has_sub(lower(conn), lower(q))
    }
}

pub open spec fn hit_views(
    hits: Seq<(Seq<char>, SessionEntryView)>,
    host: Seq<char>,
    conn: Seq<char>,
    db: Seq<char>,
) -> Seq<EntryView> {
    hits.map_values(|h: (Seq<char>, SessionEntryView)| public_view(h.1, host, conn, h.0, db))
}

/// The entries for database `db` whose connection is selected by `q` and
/// whose engine matches `query`, in cache order.
pub open spec fn matches(
    f: FileView,
    host: Seq<char>,
    q: Seq<char>,
    query: Seq<char>,
    db: Seq<char>,
    exact: bool,
) -> Seq<EntryView>
    decreases f.len(),
{
    if f.len() == 0 {
        Seq::empty()
    } else {
        let rest = matches(f.drop_last(), host, q, query, db, exact);
        let last = f.last();
        if conn_selected(last.0, q, exact) {
            rest + hit_views(engine_hits(last.1, query, db), host, last.0, db)
        } else {
            rest
        }
    }
}

/// The only element of a sequence, if it has exactly one.
pub open spec fn single_view(s: Seq<EntryView>) -> Option<EntryView> {
    if s.len() == 1 {
        Some(s[0])
    } else {
        None
    }
}

/// The cached entry that a lookup by connection, engine and database
/// returns: among entries stored under database `db` whose engine matches
/// the engine query, the exact connection name wins over names that merely
/// contain the query (ignoring ASCII case); an ambiguous lookup returns
/// nothing.
pub open spec fn find_matching_view(
    f: FileView,
    host: Seq<char>,
    conn_query: Seq<char>,
    engine: Seq<char>,
    db: Seq<char>,
) -> Option<EntryView> {
    let query = engine_query(engine);
    let exact = matches(f, host, conn_query, query, db, true);
    if exact.len() > 0 {
        single_view(exact)
    } else {
        single_view(matches(f, host, conn_query, query, db, false))
    }
}

pub open spec fn entries_view(v: Seq<Entry>) -> Seq<EntryView> {
    v.map_values(|e: Entry| e@)
}

/// The session stored under database `db`.
fn find_db<'a>(dbs: &'a DbSessions, db: &Vec<char>) -> (res: Option<&'a SessionEntry>)
    ensures
        match res {
            Some(e) => lookup(dbs_view(dbs@), db@) == Some(e@),
            None => lookup(dbs_view(dbs@), db@) is None,
        },
{
    let ghost v = dbs_view(dbs@);
    let mut i: usize = 0;
    assert(v.skip(0) == v);
    while i < dbs.len()
        invariant
            i <= dbs.len(),
            v == dbs_view(dbs@),
            lookup(v, db@) == lookup(v.skip(i as int), db@),
        decreases dbs.len() - i,
    {
        let k = chars_of(dbs[i].key.as_str());
        assert(v.skip(i as int)[0] == v[i as int]);
        if eq_chars(&k, db) {
            return Some(&dbs[i].value);
        }
        assert(v.skip(i as int).drop_first() == v.skip(i + 1));
        i = i + 1;
    }
    None
}

proof fn lemma_hit_views_push(
    hits: Seq<(Seq<char>, SessionEntryView)>,
    h: (Seq<char>, SessionEntryView),
    host: Seq<char>,
    conn: Seq<char>,
    db: Seq<char>,
)
    ensures
        hit_views(hits.push(h), host, conn, db) == hit_views(hits, host, conn, db).push(
            public_view(h.1, host, conn, h.0, db),
        ),
{
    assert(hit_views(hits.push(h), host, conn, db) =~= hit_views(hits, host, conn, db).push(
        public_view(h.1, host, conn, h.0, db),
    ));
}

/// The cached entry for connection `conn_query`, engine `engine_query` and
/// database `db_query`, reported under `host` (see `find_matching_view`).
pub fn find_matching(
    file: &HostCacheFile,
    host: &str,
    conn_query: &str,
    engine_query: &str,
    db_query: &str,
) -> (res: Option<Entry>)
    ensures
        match res {
            Some(e) => find_matching_view(file@, host@, conn_query@, engine_query@, db_query@)
                == Some(e@),
            None => find_matching_view(file@, host@, conn_query@, engine_query@, db_query@) is None,
        },
{
    let eq_trim = trim_str(engine_query);
    let query = crate::text::lower_vec(&eq_trim);
    let needle = chars_of(conn_query);
    let db = chars_of(db_query);
    let ghost f = file@;
    let conns = &file.sessions;
    let mut exact: Vec<Entry> = Vec::new();
    let mut partial: Vec<Entry> = Vec::new();
    let mut i: usize = 0;
    while i < conns.len()
        invariant
            i <= conns.len(),
            f == file_view(conns@),
            query@ == lower(trim(engine_query@)),
            needle@ == conn_query@,
            db@ == db_query@,
            entries_view(exact@) == matches(f.take(i as int), host@, conn_query@, query@, db@, true),
            entries_view(partial@) == matches(
                f.take(i as int),
                host@,
                conn_query@,
                query@,
                db@,
                false,
            ),
        decreases conns.len() - i,
    {
        let c = &conns[i];
        let name = chars_of(c.key.as_str());
        let is_exact = eq_chars(&name, &needle);
        let is_partial = contains_ignore_case(&name, &needle);
        let engines = &c.value;
        let ghost ev = engines_view(engines@);
        assert(f[i as int] == (c.key@, ev));
        let ghost ex0 = exact@;
        let ghost pa0 = partial@;
        let mut j: usize = 0;
        while j < engines.len()
            invariant
                j <= engines.len(),
                ev == engines_view(engines@),
                query@ == lower(trim(engine_query@)),
                db@ == db_query@,
                name@ == c.key@,
                is_exact == (c.key@ == conn_query@),
                is_partial == has_sub(lower(c.key@), lower(conn_query@)),
                entries_view(exact@) == entries_view(ex0) + (if is_exact {
                    hit_views(engine_hits(ev.take(j as int), query@, db@), host@, c.key@, db@)
                } else {
                    Seq::empty()
                }),
                entries_view(partial@) == entries_view(pa0) + (if !is_exact && is_partial {
                    hit_views(engine_hits(ev.take(j as int), query@, db@), host@, c.key@, db@)
                } else {
                    Seq::empty()
                }),
            decreases engines.len() - j,
        {
            let en = &engines[j];
            let ename = chars_of(en.key.as_str());
            assert(ev[j as int] == (en.key@, dbs_view(en.value@)));
            assert(ev.take(j as int + 1).drop_last() == ev.take(j as int));
            assert(ev.take(j as int + 1).last() == ev[j as int]);
            let ok = query.len() == 0 || eq_ignore_case(&ename, &query);
            if ok {
                match find_db(&en.value, &db) {
                    Some(se) => {
                        let ghost h = (en.key@, se@);
                        let ghost hits0 = engine_hits(ev.take(j as int), query@, db@);
                        assert(engine_hits(ev.take(j as int + 1), query@, db@) == hits0.push(h));
                        proof {
                            lemma_hit_views_push(hits0, h, host@, c.key@, db@);
                        }
                        if is_exact {
                            let e = se.to_public(host, c.key.as_str(), en.key.as_str(), db_query);
                            let ghost before = exact@;
                            exact.push(e);
                            assert(entries_view(exact@) == entries_view(before).push(e@));
                        } else if is_partial {
                            let e = se.to_public(host, c.key.as_str(), en.key.as_str(), db_query);
                            let ghost before = partial@;
                            partial.push(e);
                            assert(entries_view(partial@) == entries_view(before).push(e@));
                        }
                    },
                    None => {
                        assert(engine_hits(ev.take(j as int + 1), query@, db@) == engine_hits(
                            ev.take(j as int),
                            query@,
                            db@,
                        ));
                    },
                }
            } else {
                assert(engine_hits(ev.take(j as int + 1), query@, db@) == engine_hits(
                    ev.take(j as int),
                    query@,
                    db@,
                ));
            }
            j = j + 1;
        }
        assert(ev.take(engines.len() as int) == ev);
        assert(f.take(i as int + 1).drop_last() == f.take(i as int));
        assert(f.take(i as int + 1).last() == f[i as int]);
        i = i + 1;
    }
    assert(f.take(conns.len() as int) == f);
    if exact.len() > 0 {
        if exact.len() == 1 {
            Some(exact.remove(0))
        } else {
            None
        }
    } else if partial.len() == 1 {
        Some(partial.remove(0))
    } else {
        None
    }
}

/// The cached entry for connection `conn_query`, engine `engine` and
/// database `db` in the cache of `host`, reported under the normalized host.
pub fn get_matching(
    file: &HostCacheFile,
    host: &str,
    conn_query: &str,
    engine: &str,
    db: &str,
) -> (res: Option<Entry>)
    ensures
        match res {
            Some(e) => find_matching_view(file@, normalized_host(host@), conn_query@, engine@, db@)
                == Some(e@),
            None => find_matching_view(
                file@,
                normalized_host(host@),
                conn_query@,
                engine@,
                db@,
            ) is None,
        },
{
    let host = normalize_host(host);
    find_matching(file, host.as_str(), conn_query, engine, db)
}

// ------------------------------------------------------------------
// Storing, listing and clearing
// ------------------------------------------------------------------
/// Stores `entry` in its host's cache under its connection, engine and
/// database, replacing what was stored there.
pub fn put(file: &mut HostCacheFile, entry: Entry)
    requires
        old(file).wf(),
    ensures
        final(file).wf(),
        final(file)@ == insert_view(
            old(file)@,
            entry@.connection,
            entry@.engine,
            entry@.input_db,
            stored_view(entry@),
        ),
{
    let connection = copy_string(&entry.connection);
    let engine = copy_string(&entry.engine);
    let input_db = copy_string(&entry.input_db);
    let stored = entry.into_stored();
    file.insert(connection.as_str(), engine.as_str(), input_db.as_str(), stored);
}

pub open spec fn dbs_entries(dbs: DbsView, host: Seq<char>, conn: Seq<char>, engine: Seq<char>) -> Seq<
    EntryView,
> {
    dbs.map_values(|d: (Seq<char>, SessionEntryView)| public_view(d.1, host, conn, engine, d.0))
}

pub open spec fn engine_entries(engines: EnginesView, host: Seq<char>, conn: Seq<char>) -> Seq<
    EntryView,
>
    decreases engines.len(),
{
    if engines.len() == 0 {
        Seq::empty()
    } else {
        engine_entries(engines.drop_last(), host, conn) + dbs_entries(
            engines.last().1,
            host,
            conn,
            engines.last().0,
        )
    }
}

/// Every cached entry of a host, in cache order.
pub open spec fn file_entries(f: FileView, host: Seq<char>) -> Seq<EntryView>
    decreases f.len(),
{
    if f.len() == 0 {
        Seq::empty()
    } else {
        file_entries(f.drop_last(), host) + engine_entries(f.last().1, host, f.last().0)
    }
}

/// Entry `a` comes before entry `b` in (connection, engine, database) order.
pub open spec fn key_before(a: EntryView, b: EntryView) -> bool {
    ||| lex_lt(a.connection, b.connection)
    ||| (a.connection == b.connection && lex_lt(a.engine, b.engine))
    ||| (a.connection == b.connection && a.engine == b.engine && lex_lt(a.input_db, b.input_db))
}

/// Entries in strictly ascending (connection, engine, database) order.
pub open spec fn in_key_order(s: Seq<EntryView>) -> bool {
    forall|i: int, j: int| 0 <= i < j < s.len() ==> key_before(#[trigger] s[i], #[trigger] s[j])
}

/// No two entries share their connection, engine and database.
pub open spec fn keys_distinct(s: Seq<EntryView>) -> bool {
    forall|i: int, j: int|
        0 <= i < j < s.len() ==> !(#[trigger] s[i].connection == #[trigger] s[j].connection
            && s[i].engine == s[j].engine && s[i].input_db == s[j].input_db)
}

proof fn lemma_order_distinct(s: Seq<EntryView>)
    requires
        in_key_order(s),
    ensures
        keys_distinct(s),
{
    assert forall|i: int, j: int| 0 <= i < j < s.len() implies !(#[trigger] s[i].connection
        == #[trigger] s[j].connection && s[i].engine == s[j].engine && s[i].input_db
        == s[j].input_db) by {
        assert(key_before(s[i], s[j]));
        lemma_lex_irreflexive(s[i].connection);
        lemma_lex_irreflexive(s[i].engine);
        lemma_lex_irreflexive(s[i].input_db);
    }
}

proof fn lemma_engine_entries_keys(es: EnginesView, host: Seq<char>, c: Seq<char>)
    ensures
        forall|i: int|
            0 <= i < engine_entries(es, host, c).len() ==> (#[trigger] engine_entries(es, host, c)[i]).host
                == host && engine_entries(es, host, c)[i].connection == c,
    decreases es.len(),
{
    if es.len() > 0 {
        let p = es.drop_last();
        lemma_engine_entries_keys(p, host, c);
        let a = engine_entries(p, host, c);
        let b = dbs_entries(es.last().1, host, c, es.last().0);
        let s = engine_entries(es, host, c);
        assert(s == a + b);
        assert forall|i: int| 0 <= i < s.len() implies (#[trigger] s[i]).host == host
            && s[i].connection == c by {
            if i < a.len() {
                assert(s[i] == a[i]);
            } else {
                assert(s[i] == b[i - a.len()]);
            }
        }
    }
}

proof fn lemma_engine_entries_below(es: EnginesView, host: Seq<char>, c: Seq<char>, k: Seq<char>)
    requires
        forall|m: int| 0 <= m < es.len() ==> lex_lt(#[trigger] es[m].0, k),
    ensures
        forall|i: int|
            0 <= i < engine_entries(es, host, c).len() ==> lex_lt(
                (#[trigger] engine_entries(es, host, c)[i]).engine,
                k,
            ),
    decreases es.len(),
{
    if es.len() > 0 {
        let p = es.drop_last();
        assert forall|m: int| 0 <= m < p.len() implies lex_lt(#[trigger] p[m].0, k) by {
            assert(p[m] == es[m]);
        }
        lemma_engine_entries_below(p, host, c, k);
        assert(lex_lt(es[es.len() - 1].0, k));
        let a = engine_entries(p, host, c);
        let b = dbs_entries(es.last().1, host, c, es.last().0);
        let s = engine_entries(es, host, c);
        assert(s == a + b);
        assert forall|i: int| 0 <= i < s.len() implies lex_lt((#[trigger] s[i]).engine, k) by {
            if i < a.len() {
                assert(s[i] == a[i]);
            } else {
                assert(s[i] == b[i - a.len()]);
            }
        }
    }
}

proof fn lemma_engine_entries_sorted(es: EnginesView, host: Seq<char>, c: Seq<char>)
    requires
        engines_wf(es),
    ensures
        in_key_order(engine_entries(es, host, c)),
    decreases es.len(),
{
    if es.len() > 0 {
        let p = es.drop_last();
        let last = es[es.len() - 1];
        assert(engines_wf(p)) by {
            assert forall|i: int| 0 <= i < p.len() implies sorted_keys(#[trigger] p[i].1) by {
                assert(p[i] == es[i]);
            }
        }
        assert(sorted_keys(last.1));
        lemma_engine_entries_sorted(p, host, c);
        lemma_engine_entries_keys(p, host, c);
        assert forall|m: int| 0 <= m < p.len() implies lex_lt(#[trigger] p[m].0, last.0) by {
            assert(p[m] == es[m]);
        }
        lemma_engine_entries_below(p, host, c, last.0);
        let a = engine_entries(p, host, c);
        let b = dbs_entries(last.1, host, c, last.0);
        let s = engine_entries(es, host, c);
        assert(s == a + b);
        assert forall|i: int, j: int| 0 <= i < j < s.len() implies key_before(
            #[trigger] s[i],
            #[trigger] s[j],
        ) by {
            if j < a.len() {
                assert(s[i] == a[i] && s[j] == a[j]);
            } else if i < a.len() {
                assert(s[i] == a[i]);
                assert(s[j] == b[j - a.len()]);
            } else {
                assert(s[i] == b[i - a.len()]);
                assert(s[j] == b[j - a.len()]);
                assert(lex_lt(last.1[i - a.len()].0, last.1[j - a.len()].0));
            }
        }
    }
}

proof fn lemma_file_entries_keys(f: FileView, host: Seq<char>)
    ensures
        forall|i: int|
            0 <= i < file_entries(f, host).len() ==> (#[trigger] file_entries(f, host)[i]).host == host,
    decreases f.len(),
{
    if f.len() > 0 {
        let p = f.drop_last();
        lemma_file_entries_keys(p, host);
        lemma_engine_entries_keys(f.last().1, host, f.last().0);
        let a = file_entries(p, host);
        let b = engine_entries(f.last().1, host, f.last().0);
        let s = file_entries(f, host);
        assert(s == a + b);
        assert forall|i: int| 0 <= i < s.len() implies (#[trigger] s[i]).host == host by {
            if i < a.len() {
                assert(s[i] == a[i]);
            } else {
                assert(s[i] == b[i - a.len()]);
            }
        }
    }
}

proof fn lemma_file_entries_below(f: FileView, host: Seq<char>, k: Seq<char>)
    requires
        forall|m: int| 0 <= m < f.len() ==> lex_lt(#[trigger] f[m].0, k),
    ensures
        forall|i: int|
            0 <= i < file_entries(f, host).len() ==> lex_lt(
                (#[trigger] file_entries(f, host)[i]).connection,
                k,
            ),
    decreases f.len(),
{
    if f.len() > 0 {
        let p = f.drop_last();
        assert forall|m: int| 0 <= m < p.len() implies lex_lt(#[trigger] p[m].0, k) by {
            assert(p[m] == f[m]);
        }
        lemma_file_entries_below(p, host, k);
        lemma_engine_entries_keys(f.last().1, host, f.last().0);
        assert(lex_lt(f[f.len() - 1].0, k));
        let a = file_entries(p, host);
        let b = engine_entries(f.last().1, host, f.last().0);
        let s = file_entries(f, host);
        assert(s == a + b);
        assert forall|i: int| 0 <= i < s.len() implies lex_lt((#[trigger] s[i]).connection, k) by {
            if i < a.len() {
                assert(s[i] == a[i]);
            } else {
                assert(s[i] == b[i - a.len()]);
            }
        }
    }
}

/// The entries of a well-formed cache come in strictly ascending
/// (connection, engine, database) order, all under the given host.
proof fn lemma_file_entries_sorted(f: FileView, host: Seq<char>)
    requires
        file_wf(f),
    ensures
        in_key_order(file_entries(f, host)),
        keys_distinct(file_entries(f, host)),
        forall|i: int|
            0 <= i < file_entries(f, host).len() ==> (#[trigger] file_entries(f, host)[i]).host == host,
    decreases f.len(),
{
    lemma_file_entries_keys(f, host);
    if f.len() > 0 {
        let p = f.drop_last();
        let last = f[f.len() - 1];
        assert(file_wf(p)) by {
            assert forall|i: int| 0 <= i < p.len() implies engines_wf(#[trigger] p[i].1) by {
                assert(p[i] == f[i]);
            }
        }
        assert(engines_wf(last.1));
        lemma_file_entries_sorted(p, host);
        assert forall|m: int| 0 <= m < p.len() implies lex_lt(#[trigger] p[m].0, last.0) by {
            assert(p[m] == f[m]);
        }
        lemma_file_entries_below(p, host, last.0);
        lemma_engine_entries_sorted(last.1, host, last.0);
        lemma_engine_entries_keys(last.1, host, last.0);
        let a = file_entries(p, host);
        let b = engine_entries(last.1, host, last.0);
        let s = file_entries(f, host);
        assert(s == a + b);
        assert forall|i: int, j: int| 0 <= i < j < s.len() implies key_before(
            #[trigger] s[i],
            #[trigger] s[j],
        ) by {
            if j < a.len() {
                assert(s[i] == a[i] && s[j] == a[j]);
            } else if i < a.len() {
                assert(s[i] == a[i]);
                assert(s[j] == b[j - a.len()]);
            } else {
                assert(s[i] == b[i - a.len()]);
                assert(s[j] == b[j - a.len()]);
            }
        }
    }
    lemma_order_distinct(file_entries(f, host));
}

/// Every cached entry of the host `host`, in ascending (connection, engine,
/// database) order, each key once, all under `host`.
pub fn list_host(file: &HostCacheFile, host: &str) -> (res: Vec<Entry>)
    requires
        file.wf(),
    ensures
        entries_view(res@) == file_entries(file@, host@),
        in_key_order(entries_view(res@)),
        keys_distinct(entries_view(res@)),
        forall|i: int| 0 <= i < res@.len() ==> (#[trigger] res@[i]).host@ == host@,
{
    proof {
        lemma_file_entries_sorted(file@, host@);
    }
    let ghost f = file@;
    let conns = &file.sessions;
    let mut out: Vec<Entry> = Vec::new();
    let mut i: usize = 0;
    while i < conns.len()
        invariant
            i <= conns.len(),
            f == file_view(conns@),
            entries_view(out@) == file_entries(f.take(i as int), host@),
        decreases conns.len() - i,
    {
        let c = &conns[i];
        let engines = &c.value;
        let ghost ev = engines_view(engines@);
        assert(f[i as int] == (c.key@, ev));
        let ghost out0 = entries_view(out@);
        let mut j: usize = 0;
        while j < engines.len()
            invariant
                j <= engines.len(),
                ev == engines_view(engines@),
                entries_view(out@) == out0 + engine_entries(ev.take(j as int), host@, c.key@),
            decreases engines.len() - j,
        {
            let en = &engines[j];
            let dbs = &en.value;
            let ghost dv = dbs_view(dbs@);
            assert(ev[j as int] == (en.key@, dv));
            let ghost out1 = entries_view(out@);
            let mut k: usize = 0;
            while k < dbs.len()
                invariant
                    k <= dbs.len(),
                    dv == dbs_view(dbs@),
                    entries_view(out@) == out1 + dbs_entries(dv.take(k as int), host@, c.key@, en.key@),
                decreases dbs.len() - k,
            {
                let d = &dbs[k];
                assert(dv[k as int] == (d.key@, d.value@));
                let e = d.value.to_public(host, c.key.as_str(), en.key.as_str(), d.key.as_str());
                let ghost before = out@;
                out.push(e);
                assert(entries_view(out@) == entries_view(before).push(e@));
                assert(dbs_entries(dv.take(k as int + 1), host@, c.key@, en.key@) =~= dbs_entries(
                    dv.take(k as int),
                    host@,
                    c.key@,
                    en.key@,
                ).push(e@));
                k = k + 1;
            }
            assert(dv.take(dbs.len() as int) == dv);
            assert(ev.take(j as int + 1).drop_last() == ev.take(j as int));
            assert(ev.take(j as int + 1).last() == ev[j as int]);
            j = j + 1;
        }
        assert(ev.take(engines.len() as int) == ev);
        assert(f.take(i as int + 1).drop_last() == f.take(i as int));
        assert(f.take(i as int + 1).last() == f[i as int]);
        i = i + 1;
    }
    assert(f.take(conns.len() as int) == f);
    assert forall|i: int| 0 <= i < out@.len() implies (#[trigger] out@[i]).host@ == host@ by {
        assert(entries_view(out@)[i] == out@[i]@);
    }
    out
}

/// Every entry of several hosts' caches, host after host.
pub open spec fn all_entries(files: Seq<(String, HostCacheFile)>) -> Seq<EntryView>
    decreases files.len(),
{
    if files.len() == 0 {
        Seq::empty()
    } else {
        all_entries(files.drop_last()) + file_entries(files.last().1@, files.last().0@)
    }
}

/// Every cached entry of the given hosts' caches, host after host; each
/// host's entries come in ascending (connection, engine, database) order,
/// each key once, all under that host.
pub fn list(files: &Vec<(String, HostCacheFile)>) -> (res: Vec<Entry>)
    requires
        forall|i: int| 0 <= i < files@.len() ==> (#[trigger] files@[i]).1.wf(),
    ensures
        entries_view(res@) == all_entries(files@),
        forall|i: int|
            0 <= i < files@.len() ==> {
                let part = file_entries((#[trigger] files@[i]).1@, files@[i].0@);
                &&& in_key_order(part)
                &&& keys_distinct(part)
                &&& forall|k: int| 0 <= k < part.len() ==> (#[trigger] part[k]).host == files@[i].0@
            },
{
    proof {
        assert forall|i: int| 0 <= i < files@.len() implies {
            let part = file_entries((#[trigger] files@[i]).1@, files@[i].0@);
            &&& in_key_order(part)
            &&& keys_distinct(part)
            &&& forall|k: int| 0 <= k < part.len() ==> (#[trigger] part[k]).host == files@[i].0@
        } by {
            lemma_file_entries_sorted(files@[i].1@, files@[i].0@);
        }
    }
    let mut out: Vec<Entry> = Vec::new();
    let mut i: usize = 0;
    while i < files.len()
        invariant
            i <= files.len(),
            entries_view(out@) == all_entries(files@.take(i as int)),
            forall|j: int| 0 <= j < files@.len() ==> (#[trigger] files@[j]).1.wf(),
        decreases files.len() - i,
    {
        let mut part = list_host(&files[i].1, files[i].0.as_str());
        let ghost before = out@;
        let ghost p = part@;
        out.append(&mut part);
        assert(entries_view(out@) =~= entries_view(before) + entries_view(p));
        assert(files@.take(i as int + 1).drop_last() == files@.take(i as int));
        i = i + 1;
    }
    assert(files@.take(files.len() as int) == files@);
    out
}

/// Does the cache of `host` hold any connection (a blank host has none).
pub fn has_host(file: &HostCacheFile, host: &str) -> (res: bool)
    ensures
        res == (normalized_host(host@).len() > 0 && file@.len() > 0),
{
    let h = normalize_host_chars(host);
    h.len() > 0 && file.sessions.len() > 0
}

/// The connection names that a cache query selects, in cache order.
pub open spec fn partial_keys(f: FileView, q: Seq<char>) -> Seq<Seq<char>>
    decreases f.len(),
{
    if f.len() == 0 {
        Seq::empty()
    } else {
        let rest = partial_keys(f.drop_last(), q);
        if has_sub(lower(f.last().0), lower(q)) {
            rest.push(f.last().0)
        } else {
            rest
        }
    }
}

/// The connections that `q` selects for removal: `q` itself when it is a
/// cached connection name, otherwise every name containing `q` ignoring
/// ASCII case.
pub open spec fn matching_view(f: FileView, q: Seq<char>) -> Seq<Seq<char>> {
    if lookup(f, q) is Some {
        seq![q]
    } else {
        partial_keys(f, q)
    }
}

/// The cached connection names that `conn_query` selects.
pub fn matching_connections(file: &HostCacheFile, conn_query: &str) -> (res: Vec<String>)
    requires
        file.wf(),
    ensures
        texts_of(res@) == matching_view(file@, conn_query@),
{
    if file.contains_connection(conn_query) {
        let mut out: Vec<String> = Vec::new();
        out.push(conn_query.to_owned());
        assert(texts_of(out@) =~= seq![conn_query@]);
        return out;
    }
    let ghost f = file@;
    let needle = chars_of(conn_query);
    let conns = &file.sessions;
    let mut out: Vec<String> = Vec::new();
    let mut i: usize = 0;
    while i < conns.len()
        invariant
            i <= conns.len(),
            f == file_view(conns@),
            needle@ == conn_query@,
            texts_of(out@) == partial_keys(f.take(i as int), conn_query@),
        decreases conns.len() - i,
    {
        let name = chars_of(conns[i].key.as_str());
        assert(f[i as int].0 == conns@[i as int].key@);
        assert(f.take(i as int + 1).drop_last() == f.take(i as int));
        assert(f.take(i as int + 1).last() == f[i as int]);
        if contains_ignore_case(&name, &needle) {
            let ghost before = out@;
            out.push(copy_string(&conns[i].key));
            assert(texts_of(out@) =~= texts_of(before).push(conns@[i as int].key@));
        }
        i = i + 1;
    }
    assert(f.take(conns.len() as int) == f);
    out
}

/// Why a cache operation was refused.
#[derive(Debug)]
pub enum CacheError {
    /// More than one cached connection matches the query.
    Ambiguous { query: String, choices: Vec<String> },
}

pub open spec fn ambiguous_message(query: Seq<char>, choices: Seq<Seq<char>>) -> Seq<char> {
    "cached connection "@ + crate::text::debug_quoted(query) + " is ambiguous:\n  "@ + crate::text::join(
        choices,
        "\n  "@,
    )
}

impl CacheError {
    /// The error's message.
    pub fn message(&self) -> (res: String)
        ensures
            match self {
                CacheError::Ambiguous { query, choices } => res@ == ambiguous_message(
                    query@,
                    texts_of(choices@),
                ),
            },
    {
        match self {
            CacheError::Ambiguous { query, choices } => {
                let mut parts: Vec<Vec<char>> = Vec::new();
                let mut i: usize = 0;
                while i < choices.len()
                    invariant
                        i <= choices.len(),
                        parts@.len() == i,
                        forall|k: int| 0 <= k < i ==> #[trigger] parts@[k]@ == choices@[k]@,
                    decreases choices.len() - i,
                {
                    parts.push(chars_of(choices[i].as_str()));
                    i = i + 1;
                }
                assert(parts@.map_values(|p: Vec<char>| p@) =~= texts_of(choices@));
                let sep = chars_of("\n  ");
                let joined = crate::text::join_vec(&parts, &sep);
                let head = chars_of("cached connection ");
                let q = crate::text::debug_string(query.as_str());
                let qv = chars_of(q.as_str());
                let mid = chars_of(" is ambiguous:\n  ");
                let a = crate::text::concat(&head, &qv);
                let b = crate::text::concat(&a, &mid);
                let c = crate::text::concat(&b, &joined);
                string_of(&c)
            },
        }
    }
}

/// Removes the cached connections that `conn_query` selects: nothing when
/// none is selected, the one selected, or, when several are selected,
/// nothing, with the ambiguity reported.
pub fn remove_matching(file: &mut HostCacheFile, conn_query: &str) -> (res: Result<(), CacheError>)
    requires
        old(file).wf(),
    ensures
        final(file).wf(),
        ({
            let m = matching_view(old(file)@, conn_query@);
            if m.len() == 0 {
                res is Ok && final(file)@ == old(file)@
            } else if m.len() == 1 {
                res is Ok && final(file)@ == remove_key(old(file)@, m[0])
            } else {
                &&& final(file)@ == old(file)@
                &&& res matches Err(CacheError::Ambiguous { query, choices })
                &&& query@ == conn_query@
                &&& texts_of(choices@) == m
            }
        }),
{
    let matches = matching_connections(file, conn_query);
    let ghost m = matching_view(file@, conn_query@);
    if matches.len() == 0 {
        Ok(())
    } else if matches.len() == 1 {
        let key = chars_of(matches[0].as_str());
        assert(key@ == m[0]);
        proof {
            lemma_keys_sorted(
                file.sessions@,
                |x: ConnectionSessions| (x.key@, engines_view(x.value@)),
            );
        }
        match find_slot(&file.sessions, &key) {
            Slot::Found(i) => {
                let ghost old_v = file@;
                assert(old_v[i as int].0 == m[0]);
                let _ = file.sessions.remove(i);
                proof {
                    lemma_remove_key_at(old_v, i as int);
                    assert(file@ =~= old_v.remove(i as int));
                    lemma_remove_sorted(old_v, i as int);
                    let nw = file@;
                    assert forall|j: int| 0 <= j < nw.len() implies engines_wf(#[trigger] nw[j].1) by {
                        if j < i {
                            assert(nw[j] == old_v[j]);
                        } else {
                            assert(nw[j] == old_v[j + 1]);
                        }
                    }
                }
                Ok(())
            },
            Slot::Absent(p) => {
                proof {
                    let old_v = file@;
                    assert forall|j: int| 0 <= j < old_v.len() implies old_v[j].0 != m[0] by {
                        assert(old_v[j].0 == file.sessions@[j].key@);
                        lemma_lex_irreflexive(m[0]);
                    }
                    lemma_remove_key_absent(old_v, m[0]);
                }
                Ok(())
            },
        }
    } else {
        Err(CacheError::Ambiguous { query: conn_query.to_owned(), choices: matches })
    }
}

/// What clearing the cache of a host and connection touches.
#[derive(Debug)]
pub enum ClearScope {
    /// The host is blank: every host's cache is removed.
    AllHosts,
    /// The connection is blank: the whole cache of the (normalized) host is
    /// removed.
    Host(String),
    /// Only the connections of the (normalized) host that the connection
    /// query selects are removed.
    Connection { host: String, connection: String },
}

/// What `session clear` removes for `host` and `conn`.
pub fn clear(host: &str, conn: &str) -> (res: ClearScope)
    ensures
        ({
            let h = normalized_host(host@);
            if h.len() == 0 {
                res is AllHosts
            } else if crate::text::is_blank(conn@) {
                res matches ClearScope::Host(x) && x@ == h
            } else {
                res matches ClearScope::Connection { host: x, connection: c } && x@ == h && c@
                    == conn@
            }
        }),
{
    let h = normalize_host(host);
    if h.as_str().is_empty() {
        ClearScope::AllHosts
    } else if crate::text::is_blank_str(conn) {
        ClearScope::Host(h)
    } else {
        ClearScope::Connection { host: h, connection: conn.to_owned() }
    }
}

/// Removes the connections that `conn` selects from a host's cache (see
/// `remove_matching`) and tells whether the cache is now empty, in which
/// case its file is removed rather than saved.
pub fn clear_connection(file: &mut HostCacheFile, conn: &str) -> (res: Result<bool, CacheError>)
    requires
        old(file).wf(),
    ensures
        final(file).wf(),
        ({
            let m = matching_view(old(file)@, conn@);
            if m.len() == 0 {
                res == Ok::<bool, CacheError>(old(file)@.len() == 0) && final(file)@ == old(file)@
            } else if m.len() == 1 {
                final(file)@ == remove_key(old(file)@, m[0]) && res == Ok::<bool, CacheError>(
                    final(file)@.len() == 0,
                )
            } else {
                &&& final(file)@ == old(file)@
                &&& res matches Err(CacheError::Ambiguous { query, choices })
                &&& query@ == conn@
                &&& texts_of(choices@) == m
            }
        }),
{
    match remove_matching(file, conn) {
        Ok(()) => Ok(file.sessions.len() == 0),
        Err(e) => Err(e),
    }
}

/// The host whose cache a file of the cache directory holds: files named
/// `<stem>.json` hold the cache of the normalized stem, unless it is blank
/// or `sessions`.
pub open spec fn host_of_cache_file(name: Seq<char>) -> Option<Seq<char>> {
    if has_suffix(name, ".json"@) && name.len() > 5 {
        let h = normalized_host(name.take(name.len() - 5));
        if h.len() > 0 && h != "sessions"@ {
            Some(h)
        } else {
            None
        }
    } else {
        None
    }
}

/// The host whose cache the cache-directory file named `name` holds.
pub fn host_from_cache_file_name(name: &str) -> (res: Option<String>)
    ensures
        match res {
            Some(h) => host_of_cache_file(name@) == Some(h@),
            None => host_of_cache_file(name@) is None,
        },
{
    let v = chars_of(name);
    let ext = chars_of(".json");
    proof {
        reveal_strlit(".json");
        reveal_strlit("sessions");
    }
    if v.len() <= 5 {
        return None;
    }
    let tail = subrange_vec(&v, v.len() - 5, v.len());
    if !eq_chars(&tail, &ext) {
        return None;
    }
    let stem = subrange_vec(&v, 0, v.len() - 5);
    let stem_s = string_of(&stem);
    let h = normalize_host_chars(stem_s.as_str());
    let sessions = chars_of("sessions");
    if h.len() == 0 || eq_chars(&h, &sessions) {
        None
    } else {
        Some(string_of(&h))
    }
}

// ------------------------------------------------------------------
// Laws
// ------------------------------------------------------------------

proof fn lemma_matches_absent(f: FileView, host: Seq<char>, q: Seq<char>, query: Seq<char>, db: Seq<char>)
    requires
        forall|j: int| 0 <= j < f.len() ==> f[j].0 != q,
    ensures
        matches(f, host, q, query, db, true) == Seq::<EntryView>::empty(),
    decreases f.len(),
{
    if f.len() > 0 {
        lemma_matches_absent(f.drop_last(), host, q, query, db);
    }
}

/// A lookup by part of a connection name: when no cached connection is
/// named exactly `q`, and only the connection at `k` has a name that holds
/// `q` (ASCII case ignored) at some position, wherever that position is,
/// the lookup gives that connection's one entry for the engine and
/// database, reported under the connection's full name.
pub proof fn law_lookup_by_part(
    f: FileView,
    host: Seq<char>,
    q: Seq<char>,
    engine: Seq<char>,
    db: Seq<char>,
    k: int,
    pos: int,
)
    requires
        forall|j: int| 0 <= j < f.len() ==> (#[trigger] f[j]).0 != q,
        0 <= k < f.len(),
        0 <= pos,
        pos + q.len() <= f[k].0.len(),
        lower(f[k].0).subrange(pos, pos + q.len()) == lower(q),
        forall|j: int, p: int|
            #![trigger lower(f[j].0).subrange(p, p + q.len())]
            0 <= j < f.len() && j != k && 0 <= p && p + q.len() <= f[j].0.len() ==> lower(
                f[j].0,
            ).subrange(p, p + q.len()) != lower(q),
        engine_hits(f[k].1, engine_query(engine), db).len() == 1,
    ensures
        ({
            let h = engine_hits(f[k].1, engine_query(engine), db)[0];
            find_matching_view(f, host, q, engine, db) == Some(public_view(h.1, host, f[k].0, h.0, db))
        }),
{
    let query = engine_query(engine);
    lemma_matches_absent(f, host, q, query, db);
    assert(occurs_at(lower(f[k].0), lower(q), pos));
    assert(f[k].0 != q);
    assert forall|j: int| 0 <= j < f.len() && j != k implies !conn_selected(#[trigger] f[j].0, q, false) by {
        if has_sub(lower(f[j].0), lower(q)) {
            let p = choose|p: int| occurs_at(lower(f[j].0), lower(q), p);
            assert(lower(f[j].0).subrange(p, p + q.len()) == lower(q));
        }
    }
    lemma_matches_single(f, host, q, query, db, k);
}

/// The entries of the one selected connection.
proof fn lemma_matches_single(
    f: FileView,
    host: Seq<char>,
    q: Seq<char>,
    query: Seq<char>,
    db: Seq<char>,
    k: int,
)
    requires
        0 <= k < f.len(),
        conn_selected(f[k].0, q, false),
        forall|j: int| 0 <= j < f.len() && j != k ==> !conn_selected(#[trigger] f[j].0, q, false),
    ensures
        matches(f, host, q, query, db, false) == hit_views(engine_hits(f[k].1, query, db), host, f[k].0, db),
    decreases f.len(),
{
    let t = f.drop_last();
    if k == f.len() - 1 {
        assert forall|j: int| 0 <= j < t.len() implies !conn_selected(#[trigger] t[j].0, q, false) by {
            assert(t[j] == f[j]);
        }
        lemma_matches_none(t, host, q, query, db, false);
        assert(matches(f, host, q, query, db, false) =~= hit_views(
            engine_hits(f[k].1, query, db),
            host,
            f[k].0,
            db,
        ));
    } else {
        assert(t[k] == f[k]);
        assert forall|j: int| 0 <= j < t.len() && j != k implies !conn_selected(#[trigger] t[j].0, q, false) by {
            assert(t[j] == f[j]);
        }
        lemma_matches_single(t, host, q, query, db, k);
        assert(f.last() == f[f.len() - 1]);
    }
}

proof fn lemma_matches_none(f: FileView, host: Seq<char>, q: Seq<char>, query: Seq<char>, db: Seq<char>, exact: bool)
    requires
        forall|j: int| 0 <= j < f.len() ==> !conn_selected(#[trigger] f[j].0, q, exact),
    ensures
        matches(f, host, q, query, db, exact) == Seq::<EntryView>::empty(),
    decreases f.len(),
{
    if f.len() > 0 {
        let t = f.drop_last();
        assert forall|j: int| 0 <= j < t.len() implies !conn_selected(#[trigger] t[j].0, q, exact) by {
            assert(t[j] == f[j]);
        }
        lemma_matches_none(t, host, q, query, db, exact);
        assert(f.last() == f[f.len() - 1]);
    }
}

/// Clearing by part of a name: when no cached connection is named exactly
/// `q`, a connection whose name holds `q` (ASCII case ignored) at any
/// position is selected, and when no other name holds it anywhere, that
/// connection alone is selected, so `remove_matching` removes it and only
/// it.
pub proof fn law_clear_by_part(f: FileView, q: Seq<char>, k: int, pos: int)
    requires
        forall|j: int| 0 <= j < f.len() ==> (#[trigger] f[j]).0 != q,
        0 <= k < f.len(),
        0 <= pos,
        pos + q.len() <= f[k].0.len(),
        lower(f[k].0).subrange(pos, pos + q.len()) == lower(q),
    ensures
        matching_view(f, q).contains(f[k].0),
        (forall|j: int, p: int|
            #![trigger lower(f[j].0).subrange(p, p + q.len())]
            0 <= j < f.len() && j != k && 0 <= p && p + q.len() <= f[j].0.len() ==> lower(
                f[j].0,
            ).subrange(p, p + q.len()) != lower(q)) ==> matching_view(f, q) == seq![f[k].0],
{
    lemma_lookup_absent(f, q);
    assert(occurs_at(lower(f[k].0), lower(q), pos));
    lemma_partial_keys_contains(f, q, k);
    if forall|j: int, p: int|
        #![trigger lower(f[j].0).subrange(p, p + q.len())]
        0 <= j < f.len() && j != k && 0 <= p && p + q.len() <= f[j].0.len() ==> lower(
            f[j].0,
        ).subrange(p, p + q.len()) != lower(q) {
        assert forall|j: int| 0 <= j < f.len() && j != k implies !has_sub(lower(#[trigger] f[j].0), lower(q)) by {
            if has_sub(lower(f[j].0), lower(q)) {
                let p = choose|p: int| occurs_at(lower(f[j].0), lower(q), p);
                assert(lower(f[j].0).subrange(p, p + q.len()) == lower(q));
            }
        }
        lemma_partial_keys_only(f, q, k);
    }
}

/// A cached connection whose name holds `q` nowhere (ASCII case ignored) is
/// never selected for clearing by `q`.
pub proof fn law_clear_skips_others(f: FileView, q: Seq<char>, j: int)
    requires
        0 <= j < f.len(),
        f[j].0 != q,
        forall|p: int|
            #![trigger lower(f[j].0).subrange(p, p + q.len())]
            0 <= p && p + q.len() <= f[j].0.len() ==> lower(f[j].0).subrange(p, p + q.len()) != lower(q),
    ensures
        !matching_view(f, q).contains(f[j].0),
{
    if has_sub(lower(f[j].0), lower(q)) {
        let p = choose|p: int| occurs_at(lower(f[j].0), lower(q), p);
        assert(lower(f[j].0).subrange(p, p + q.len()) == lower(q));
    }
    lemma_partial_keys_members(f, q);
}

proof fn lemma_partial_keys_members(f: FileView, q: Seq<char>)
    ensures
        forall|m: int| 0 <= m < partial_keys(f, q).len() ==> has_sub(lower(#[trigger] partial_keys(f, q)[m]), lower(q)),
    decreases f.len(),
{
    if f.len() > 0 {
        lemma_partial_keys_members(f.drop_last(), q);
        let r = partial_keys(f.drop_last(), q);
        if has_sub(lower(f.last().0), lower(q)) {
            assert forall|m: int| 0 <= m < r.push(f.last().0).len() implies has_sub(lower(#[trigger] r.push(f.last().0)[m]), lower(q)) by {
                if m < r.len() {
                    assert(r.push(f.last().0)[m] == r[m]);
                }
            }
        }
    }
}

proof fn lemma_partial_keys_contains(f: FileView, q: Seq<char>, k: int)
    requires
        0 <= k < f.len(),
        has_sub(lower(f[k].0), lower(q)),
    ensures
        partial_keys(f, q).contains(f[k].0),
    decreases f.len(),
{
    let t = f.drop_last();
    if k == f.len() - 1 {
        let r = partial_keys(t, q).push(f.last().0);
        assert(r[r.len() - 1] == f[k].0);
    } else {
        assert(t[k] == f[k]);
        lemma_partial_keys_contains(t, q, k);
        let r = partial_keys(t, q);
        let m = choose|m: int| 0 <= m < r.len() && r[m] == f[k].0;
        if has_sub(lower(f.last().0), lower(q)) {
            assert(r.push(f.last().0)[m] == f[k].0);
        }
    }
}

proof fn lemma_partial_keys_only(f: FileView, q: Seq<char>, k: int)
    requires
        0 <= k < f.len(),
        has_sub(lower(f[k].0), lower(q)),
        forall|j: int| 0 <= j < f.len() && j != k ==> !has_sub(lower(#[trigger] f[j].0), lower(q)),
    ensures
        partial_keys(f, q) == seq![f[k].0],
    decreases f.len(),
{
    let t = f.drop_last();
    if k == f.len() - 1 {
        assert forall|j: int| 0 <= j < t.len() implies !has_sub(lower(#[trigger] t[j].0), lower(q)) by {
            assert(t[j] == f[j]);
        }
        lemma_partial_keys_none(t, q);
        assert(Seq::<Seq<char>>::empty().push(f[k].0) =~= seq![f[k].0]);
    } else {
        assert(t[k] == f[k]);
        assert forall|j: int| 0 <= j < t.len() && j != k implies !has_sub(lower(#[trigger] t[j].0), lower(q)) by {
            assert(t[j] == f[j]);
        }
        lemma_partial_keys_only(t, q, k);
        assert(f.last() == f[f.len() - 1]);
    }
}

proof fn lemma_partial_keys_none(f: FileView, q: Seq<char>)
    requires
        forall|j: int| 0 <= j < f.len() ==> !has_sub(lower(#[trigger] f[j].0), lower(q)),
    ensures
        partial_keys(f, q) == Seq::<Seq<char>>::empty(),
    decreases f.len(),
{
    if f.len() > 0 {
        let t = f.drop_last();
        assert forall|j: int| 0 <= j < t.len() implies !has_sub(lower(#[trigger] t[j].0), lower(q)) by {
            assert(t[j] == f[j]);
        }
        lemma_partial_keys_none(t, q);
        assert(f.last() == f[f.len() - 1]);
    }
}

proof fn lemma_matches_exact(
    f: FileView,
    i: int,
    host: Seq<char>,
    query: Seq<char>,
    db: Seq<char>,
)
    requires
        sorted_keys(f),
        0 <= i < f.len(),
    ensures
        matches(f, host, f[i].0, query, db, true) == hit_views(
            engine_hits(f[i].1, query, db),
            host,
            f[i].0,
            db,
        ),
    decreases f.len(),
{
    let q = f[i].0;
    let t = f.drop_last();
    if i == f.len() - 1 {
        assert forall|j: int| 0 <= j < t.len() implies t[j].0 != q by {
            lemma_lex_irreflexive(q);
        }
        lemma_matches_absent(t, host, q, query, db);
        assert(matches(f, host, q, query, db, true) =~= hit_views(
            engine_hits(f[i].1, query, db),
            host,
            q,
            db,
        ));
    } else {
        lemma_lex_irreflexive(q);
        assert(f.last().0 != q);
        assert(sorted_keys(t));
        assert(t[i] == f[i]);
        lemma_matches_exact(t, i, host, query, db);
    }
}

proof fn lemma_engine_hits_one(
    es: EnginesView,
    p: int,
    query: Seq<char>,
    db: Seq<char>,
)
    requires
        0 <= p < es.len(),
        engine_ok(es[p].0, query),
        lookup(es[p].1, db) is Some,
        forall|j: int|
            0 <= j < es.len() && j != p ==> !(engine_ok(#[trigger] es[j].0, query) && lookup(
                es[j].1,
                db,
            ) is Some),
    ensures
        engine_hits(es, query, db) == seq![(es[p].0, lookup(es[p].1, db).unwrap())],
    decreases es.len(),
{
    let t = es.drop_last();
    if p == es.len() - 1 {
        lemma_engine_hits_none(t, query, db);
        assert(engine_hits(es, query, db) =~= seq![(es[p].0, lookup(es[p].1, db).unwrap())]);
    } else {
        assert(t[p] == es[p]);
        assert forall|j: int|
            0 <= j < t.len() && j != p implies !(engine_ok(#[trigger] t[j].0, query) && lookup(
                t[j].1,
                db,
            ) is Some) by {
            assert(t[j] == es[j]);
        }
        lemma_engine_hits_one(t, p, query, db);
        assert(es.len() - 1 != p);
    }
}

proof fn lemma_engine_hits_none(es: EnginesView, query: Seq<char>, db: Seq<char>)
    requires
        forall|j: int|
            0 <= j < es.len() ==> !(engine_ok(#[trigger] es[j].0, query) && lookup(es[j].1, db) is Some),
    ensures
        engine_hits(es, query, db) == Seq::<(Seq<char>, SessionEntryView)>::empty(),
    decreases es.len(),
{
    if es.len() > 0 {
        let t = es.drop_last();
        assert forall|j: int| 0 <= j < t.len() implies !(engine_ok(#[trigger] t[j].0, query) && lookup(
            t[j].1,
            db,
        ) is Some) by {
            assert(t[j] == es[j]);
        }
        lemma_engine_hits_none(t, query, db);
    }
}

proof fn lemma_lower_idempotent(s: Seq<char>)
    ensures
        lower(lower(s)) == lower(s),
{
    assert(lower(lower(s)) =~= lower(s));
}

proof fn lemma_trim_fixed(s: Seq<char>)
    requires
        s.len() > 0,
        !crate::text::is_ws(s[0]),
        !crate::text::is_ws(s.last()),
    ensures
        trim(s) == s,
{
}

/// No other engine of connection `c` that holds database `d` has a name
/// equal to `engine` ignoring ASCII case.
pub open spec fn no_rival_engine(f: FileView, c: Seq<char>, engine: Seq<char>, d: Seq<char>) -> bool {
    match lookup(f, c) {
        Some(es) => forall|j: int|
            0 <= j < es.len() && es[j].0 != engine && lookup(es[j].1, d) is Some ==> lower(
                #[trigger] es[j].0,
            ) != lower(engine),
        None => true,
    }
}

/// What a lookup gives back of a store: after an entry is stored under its
/// connection, engine and database, a lookup by that same connection,
/// engine and database returns exactly that entry (under the host the
/// lookup reports), provided the engine name has no surrounding white space
/// and no other engine of the connection with that database has the same
/// name ignoring ASCII case.
pub proof fn law_put_then_get(f: FileView, e: EntryView, host: Seq<char>)
    requires
        file_wf(f),
        e.engine.len() > 0,
        !crate::text::is_ws(e.engine[0]),
        !crate::text::is_ws(e.engine.last()),
        no_rival_engine(f, e.connection, e.engine, e.input_db),
    ensures
        find_matching_view(
            insert_view(f, e.connection, e.engine, e.input_db, stored_view(e)),
            host,
            e.connection,
            e.engine,
            e.input_db,
        ) == Some(public_view(stored_view(e), host, e.connection, e.engine, e.input_db)),
{
    let c = e.connection;
    let eng = e.engine;
    let d = e.input_db;
    let v = stored_view(e);
    let engines = match lookup(f, c) {
        Some(x) => x,
        None => Seq::empty(),
    };
    let dbs = match lookup(engines, eng) {
        Some(x) => x,
        None => Seq::empty(),
    };
    let dbs2 = upsert(dbs, d, v);
    let es2 = upsert(engines, eng, dbs2);
    let f2 = upsert(f, c, es2);
    assert(f2 == insert_view(f, c, eng, d, v));
    lemma_trim_fixed(eng);
    let query = engine_query(eng);
    assert(query == lower(eng));
    lemma_lower_idempotent(eng);
    assert(query.len() > 0);
    // the stored database
    if lookup(engines, eng) is Some {
        lemma_lookup_some(engines, eng);
    }
    if lookup(f, c) is Some {
        lemma_lookup_some(f, c);
    }
    assert(sorted_keys(engines)) by {
        if lookup(f, c) is Some {
            let m = choose|m: int| 0 <= m < f.len() && f[m] == (c, lookup(f, c).unwrap());
            assert(engines_wf(f[m].1));
        }
    }
    assert(sorted_keys(dbs)) by {
        if lookup(engines, eng) is Some {
            let m = choose|m: int|
                0 <= m < engines.len() && engines[m] == (eng, lookup(engines, eng).unwrap());
            if lookup(f, c) is Some {
                let m2 = choose|m: int| 0 <= m < f.len() && f[m] == (c, lookup(f, c).unwrap());
                assert(engines_wf(f[m2].1));
            }
            assert(sorted_keys(engines[m].1));
        }
    }
    lemma_lookup_upsert(dbs, d, v);
    lemma_upsert_sorted(engines, eng, dbs2);
    lemma_lookup_upsert(engines, eng, dbs2);
    lemma_upsert_sorted(f, c, es2);
    lemma_lookup_upsert(f, c, es2);
    // the connection's place in the new file
    lemma_lookup_some(f2, c);
    let i = choose|m: int| 0 <= m < f2.len() && f2[m] == (c, es2);
    lemma_matches_exact(f2, i, host, query, d);
    // the engine's place among the connection's engines
    lemma_lookup_some(es2, eng);
    let p = choose|m: int| 0 <= m < es2.len() && es2[m] == (eng, dbs2);
    lemma_upsert_others(engines, eng, dbs2);
    assert forall|j: int|
        0 <= j < es2.len() && j != p implies !(engine_ok(#[trigger] es2[j].0, query) && lookup(
            es2[j].1,
            d,
        ) is Some) by {
        if es2[j].0 == eng {
            assert(lex_lt(es2[j].0, es2[p].0) || lex_lt(es2[p].0, es2[j].0));
            lemma_lex_irreflexive(eng);
        } else {
            assert(has_pair(engines, es2[j]));
            let m = choose|m: int| 0 <= m < engines.len() && engines[m] == es2[j];
            assert(lookup(f, c) is Some);
            assert(engines[m].0 != eng);
        }
    }
    lemma_engine_hits_one(es2, p, query, d);
    assert(hit_views(engine_hits(es2, query, d), host, c, d) =~= seq![
        public_view(v, host, c, eng, d),
    ]);
}

/// Clearing a cached connection by its exact name removes that connection
/// and keeps every other connection as it was.
pub proof fn law_clear_exact(f: FileView, q: Seq<char>, k: Seq<char>)
    requires
        file_wf(f),
        lookup(f, q) is Some,
        k != q,
    ensures
        matching_view(f, q) == seq![q],
        lookup(remove_key(f, q), q) is None,
        lookup(remove_key(f, q), k) == lookup(f, k),
{
    lemma_lookup_some(f, q);
    let i = choose|m: int| 0 <= m < f.len() && f[m] == (q, lookup(f, q).unwrap());
    lemma_remove_key_at(f, i);
    let r = f.remove(i);
    assert forall|j: int| 0 <= j < r.len() implies r[j].0 != q by {
        lemma_lex_irreflexive(q);
        if j < i {
            assert(r[j] == f[j]);
        } else {
            assert(r[j] == f[j + 1]);
        }
    }
    lemma_lookup_absent(r, q);
    if lookup(f, k) is Some {
        lemma_lookup_some(f, k);
        let m = choose|m: int| 0 <= m < f.len() && f[m] == (k, lookup(f, k).unwrap());
        lemma_remove_sorted(f, i);
        let m2 = if m < i {
            m
        } else {
            m - 1
        };
        assert(m != i);
        assert(r[m2] == f[m]);
        lemma_lookup_at(r, m2);
    } else {
        assert forall|j: int| 0 <= j < r.len() implies r[j].0 != k by {
            if j < i {
                assert(r[j] == f[j]);
            } else {
                assert(r[j] == f[j + 1]);
            }
            if r[j].0 == k {
                lemma_lookup_at(f, if j < i { j } else { j + 1 });
            }
        }
        lemma_lookup_absent(r, k);
    }
}

} // verus!
