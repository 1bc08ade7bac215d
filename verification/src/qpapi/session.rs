//! Connections and the opening of database sessions.
use vstd::prelude::*;
use crate::text::{
    chars_of, concat, contains_ignore_case, debug_quoted, debug_string, eq_chars, has_sub, is_blank, occurs_at,
    join, join_vec, lower, lower_vec, string_of, trim, trim_str, texts_of};

verus! {

/// The root under which every connection group is listed.
pub const ZERO_UUID: &'static str = "00000000-0000-0000-0000-000000000000";

/// A database connection that the user can see.
#[derive(Debug, Clone)]
pub struct Connection {
    pub name: String,
    pub cluster_uuid: String,
    pub cluster_id: i32,
    pub db_type: i32,
    pub deactivated: bool,
}

/// The engine name of a database type.
pub open spec fn engine_name(db_type: i32) -> Seq<char> {
    if db_type == 1 {
        "mysql"@
    } else if db_type == 3 {
        "postgresql"@
    } else if db_type == 13 {
        "mongodb"@
    } else {
        "unknown"@
    }
}

impl Connection {
    /// The connection's engine name.
    pub fn engine(&self) -> (res: &'static str)
        ensures
            res@ == engine_name(self.db_type),
    {
        match self.db_type {
            1 => "mysql",
            3 => "postgresql",
            13 => "mongodb",
            _ => "unknown",
        }
    }

    /// A copy of this connection.
    pub fn duplicate(&self) -> (res: Connection)
        ensures
            res == *self,
    {
        Connection {
            name: self.name.clone(),
            cluster_uuid: self.cluster_uuid.clone(),
            cluster_id: self.cluster_id,
            db_type: self.db_type,
            deactivated: self.deactivated,
        }
    }
}

/// A database session that was opened.
#[derive(Debug, Clone)]
pub struct OpenedSession {
    /// The name of the connection the session was opened on.
    pub connection: String,
    pub session: String,
    pub engine: String,
    pub version: String,
    pub db: String,
    pub db_type: i32,
}

/// A connection as the connection groups list it.
#[derive(Debug, Clone)]
pub struct ClusterItem {
    pub name: String,
    pub uuid: String,
    pub id: i32,
    pub db_type: i32,
    pub deactivated: bool,
}

/// An entry of a connection group.
#[derive(Debug, Clone)]
pub struct ClusterEntry {
    pub item: Option<ClusterItem>,
}

/// A connection group.
#[derive(Debug, Clone)]
pub struct ClusterRoot {
    pub entries: Vec<ClusterEntry>,
}

/// The response listing the user's connection groups.
#[derive(Debug, Clone)]
pub struct ClusterGroupsResponse {
    pub roots: Vec<ClusterRoot>,
}

/// The connection of a listed item.
pub open spec fn item_connection(i: ClusterItem) -> Connection {
    Connection {
        name: i.name,
        cluster_uuid: i.uuid,
        cluster_id: i.id,
        db_type: i.db_type,
        deactivated: i.deactivated,
    }
}

/// The connections of a group's entries, in order, skipping entries
/// without an item or whose item has an empty name or uuid.
pub open spec fn entry_connections(entries: Seq<ClusterEntry>) -> Seq<Connection>
    decreases entries.len(),
{
    if entries.len() == 0 {
        Seq::empty()
    } else {
        let rest = entry_connections(entries.drop_last());
        match entries.last().item {
            Some(i) => if i.name@.len() == 0 || i.uuid@.len() == 0 {
                rest
            } else {
                rest.push(item_connection(i))
            },
            None => rest,
        }
    }
}

/// The connections of every group, group after group.
pub open spec fn group_connections(roots: Seq<ClusterRoot>) -> Seq<Connection>
    decreases roots.len(),
{
    if roots.len() == 0 {
        Seq::empty()
    } else {
        group_connections(roots.drop_last()) + entry_connections(roots.last().entries@)
    }
}

/// The connections listed in a connection groups response.
pub fn connections_from(resp: ClusterGroupsResponse) -> (res: Vec<Connection>)
    ensures
        res@ == group_connections(resp.roots@),
{
    let roots = &resp.roots;
    let mut out: Vec<Connection> = Vec::new();
    let mut r: usize = 0;
    while r < roots.len()
        invariant
            r <= roots.len(),
            out@ == group_connections(roots@.take(r as int)),
        decreases roots.len() - r,
    {
        let entries = &roots[r].entries;
        let ghost o0 = out@;
        let mut e: usize = 0;
        while e < entries.len()
            invariant
                e <= entries.len(),
                out@ == o0 + entry_connections(entries@.take(e as int)),
            decreases entries.len() - e,
        {
            assert(entries@.take(e as int + 1).drop_last() == entries@.take(e as int));
            assert(entries@.take(e as int + 1).last() == entries@[e as int]);
            match &entries[e].item {
                Some(item) => {
                    if !item.name.as_str().is_empty() && !item.uuid.as_str().is_empty() {
                        out.push(
                            Connection {
                                name: item.name.clone(),
                                cluster_uuid: item.uuid.clone(),
                                cluster_id: item.id,
                                db_type: item.db_type,
                                deactivated: item.deactivated,
                            },
                        );
                    }
                },
                None => {},
            }
            e = e + 1;
        }
        assert(entries@.take(entries.len() as int) == entries@);
        assert(roots@.take(r as int + 1).drop_last() == roots@.take(r as int));
        r = r + 1;
    }
    assert(roots@.take(roots.len() as int) == roots@);
    out
}

/// The connections named exactly `name`, in order.
pub open spec fn exact_named(cs: Seq<Connection>, name: Seq<char>) -> Seq<Connection>
    decreases cs.len(),
{
    if cs.len() == 0 {
        Seq::empty()
    } else if cs.last().name@ == name {
        exact_named(cs.drop_last(), name).push(cs.last())
    } else {
        exact_named(cs.drop_last(), name)
    }
}

/// The connections whose name contains `name` ignoring ASCII case, in order.
pub open spec fn partly_named(cs: Seq<Connection>, name: Seq<char>) -> Seq<Connection>
    decreases cs.len(),
{
    if cs.len() == 0 {
        Seq::empty()
    } else if has_sub(lower(cs.last().name@), lower(name)) {
        partly_named(cs.drop_last(), name).push(cs.last())
    } else {
        partly_named(cs.drop_last(), name)
    }
}

/// The connections of an engine, in order.
pub open spec fn of_engine(cs: Seq<Connection>, engine: Seq<char>) -> Seq<Connection>
    decreases cs.len(),
{
    if cs.len() == 0 {
        Seq::empty()
    } else if engine_name(cs.last().db_type) == engine {
        of_engine(cs.drop_last(), engine).push(cs.last())
    } else {
        of_engine(cs.drop_last(), engine)
    }
}

/// The connections that a name and engine select: those named exactly
/// `name` when there are any, otherwise those whose name contains `name`
/// ignoring ASCII case; then, unless `engine` is blank, only those of the
/// engine `engine` (trimmed, lower-cased).
pub open spec fn selected_connections(cs: Seq<Connection>, name: Seq<char>, engine: Seq<char>) -> Seq<
    Connection,
> {
    let by_name = if exact_named(cs, name).len() > 0 {
        exact_named(cs, name)
    } else {
        partly_named(cs, name)
    };
    if is_blank(engine) {
        by_name
    } else {
        of_engine(by_name, lower(trim(engine)))
    }
}

/// Why no connection or session could be had.
#[derive(Debug, Clone)]
pub enum ConnectionError {
    /// No connection matches the name.
    NotFound { name: String },
    /// Several connections match; each choice as `name (engine)`.
    Ambiguous { name: String, choices: Vec<String> },
    /// The connection has no instance.
    NoInstances { name: String },
    /// Opening returned no session.
    NoSession,
}

/// The description of a connection in a list of choices: `name (engine)`.
pub open spec fn choice_text(c: Connection) -> Seq<char> {
    c.name@ + " ("@ + engine_name(c.db_type) + ")"@
}

pub open spec fn choices_text(cs: Seq<Connection>) -> Seq<Seq<char>> {
    cs.map_values(|c: Connection| choice_text(c))
}

impl ConnectionError {
    /// The error's message.
    pub fn message(&self) -> (res: String)
        ensures
            match self {
                ConnectionError::NotFound { name } => res@ == "connection "@ + debug_quoted(name@)
                    + " not found"@,
                ConnectionError::Ambiguous { name, choices } => res@ == "connection "@
                    + debug_quoted(name@) + " is ambiguous; narrow with --engine:\n  "@ + join(
                    texts_of(choices@),
                    "\n  "@,
                ),
                ConnectionError::NoInstances { name } => res@ == "connection "@ + debug_quoted(
                    name@,
                ) + " has no instances"@,
                ConnectionError::NoSession => res@ == "open returned no session"@,
            },
    {
        match self {
            ConnectionError::NotFound { name } => {
                let a = chars_of("connection ");
                let q = debug_string(name.as_str());
                let b = chars_of(q.as_str());
                let c = chars_of(" not found");
                let ab = concat(&a, &b);
                string_of(&concat(&ab, &c))
            },
            ConnectionError::Ambiguous { name, choices } => {
                let mut parts: Vec<Vec<char>> = Vec::new();
                let mut i: usize = 0;
                while i < choices.len()
                    invariant
                        i <= choices.len(),
                        parts@.len() == i,
                        forall|k: int| 0 <= k < i ==> #[trigger] parts@[k]@ == choices@[k]@,
                    decreases choices.len() - i,
                {
                    parts.push(chars_of(choices[i].as_str()));
                    i = i + 1;
                }
                assert(parts@.map_values(|p: Vec<char>| p@) =~= texts_of(choices@));
                let sep = chars_of("\n  ");
                let joined = join_vec(&parts, &sep);
                let a = chars_of("connection ");
                let q = debug_string(name.as_str());
                let b = chars_of(q.as_str());
                let c = chars_of(" is ambiguous; narrow with --engine:\n  ");
                let ab = concat(&a, &b);
                let abc = concat(&ab, &c);
                string_of(&concat(&abc, &joined))
            },
            ConnectionError::NoInstances { name } => {
                let a = chars_of("connection ");
                let q = debug_string(name.as_str());
                let b = chars_of(q.as_str());
                let c = chars_of(" has no instances");
                let ab = concat(&a, &b);
                string_of(&concat(&ab, &c))
            },
            ConnectionError::NoSession => "open returned no session".to_owned(),
        }
    }
}

/// The description of a connection in a list of choices.
pub fn choice(c: &Connection) -> (res: String)
    ensures
        res@ == choice_text(*c),
{
    let a = chars_of(c.name.as_str());
    let b = chars_of(" (");
    let e = chars_of(c.engine());
    let d = chars_of(")");
    let ab = concat(&a, &b);
    let abe = concat(&ab, &e);
    string_of(&concat(&abe, &d))
}

/// The one connection that a name and engine select (see
/// `selected_connections`): none is an error, and so are several, listed as
/// choices.
pub fn find_connection(conns: &Vec<Connection>, name: &str, engine: &str) -> (res: Result<
    Connection,
    ConnectionError,
>)
    ensures
        ({
            let sel = selected_connections(conns@, name@, engine@);
            if sel.len() == 1 {
                res == Ok::<Connection, ConnectionError>(sel[0])
            } else if sel.len() == 0 {
                res matches Err(ConnectionError::NotFound { name: n }) && n@ == name@
            } else {
                res matches Err(ConnectionError::Ambiguous { name: n, choices }) && n@ == name@
                    && texts_of(choices@) == choices_text(sel)
            }
        }),
{
    let needle = chars_of(name);
    let mut exact: Vec<Connection> = Vec::new();
    let mut partial: Vec<Connection> = Vec::new();
    let mut i: usize = 0;
    while i < conns.len()
        invariant
            i <= conns.len(),
            needle@ == name@,
            exact@ == exact_named(conns@.take(i as int), name@),
            partial@ == partly_named(conns@.take(i as int), name@),
        decreases conns.len() - i,
    {
        let c = &conns[i];
        let n = chars_of(c.name.as_str());
        assert(conns@.take(i as int + 1).drop_last() == conns@.take(i as int));
        assert(conns@.take(i as int + 1).last() == conns@[i as int]);
        if eq_chars(&n, &needle) {
            exact.push(c.duplicate());
        }
        if contains_ignore_case(&n, &needle) {
            partial.push(c.duplicate());
        }
        i = i + 1;
    }
    assert(conns@.take(conns.len() as int) == conns@);
    let by_name = if exact.len() > 0 {
        exact
    } else {
        partial
    };
    let matches = if crate::text::is_blank_str(engine) {
        by_name
    } else {
        let et = trim_str(engine);
        let want = lower_vec(&et);
        let mut kept: Vec<Connection> = Vec::new();
        let mut k: usize = 0;
        while k < by_name.len()
            invariant
                k <= by_name.len(),
                want@ == lower(trim(engine@)),
                kept@ == of_engine(by_name@.take(k as int), want@),
            decreases by_name.len() - k,
        {
            let c = &by_name[k];
            let e = chars_of(c.engine());
            assert(by_name@.take(k as int + 1).drop_last() == by_name@.take(k as int));
            assert(by_name@.take(k as int + 1).last() == by_name@[k as int]);
            if eq_chars(&e, &want) {
                kept.push(c.duplicate());
            }
            k = k + 1;
        }
        assert(by_name@.take(by_name.len() as int) == by_name@);
        kept
    };
    if matches.len() == 1 {
        Ok(matches[0].duplicate())
    } else if matches.len() == 0 {
        Err(ConnectionError::NotFound { name: name.to_owned() })
    } else {
        let mut choices: Vec<String> = Vec::new();
        let mut k: usize = 0;
        while k < matches.len()
            invariant
                k <= matches.len(),
                choices@.len() == k,
                forall|m: int| 0 <= m < k ==> #[trigger] choices@[m]@ == choice_text(matches@[m]),
            decreases matches.len() - k,
        {
            choices.push(choice(&matches[k]));
            k = k + 1;
        }
        assert(texts_of(choices@) =~= choices_text(matches@));
        Err(ConnectionError::Ambiguous { name: name.to_owned(), choices })
    }
}

/// A database instance of a connection.
#[derive(Debug, Clone)]
pub struct Instance {
    pub uuid: String,
    pub host: String,
    pub port: i32,
    pub id: i32,
}

/// An instance entry of an instances response.
#[derive(Debug, Clone)]
pub struct InstanceEntry {
    pub instance: Option<Instance>,
}

/// The response listing a connection's instances.
#[derive(Debug, Clone)]
pub struct InstancesResponse {
    pub instances: Vec<InstanceEntry>,
}

/// The instance that a session is opened on: the first entry's instance.
pub fn first_instance(resp: &InstancesResponse, conn: &Connection) -> (res: Result<
    Instance,
    ConnectionError,
>)
    ensures
        if resp.instances@.len() > 0 && resp.instances@[0].instance is Some {
            res == Ok::<Instance, ConnectionError>(resp.instances@[0].instance.unwrap())
        } else {
            res matches Err(ConnectionError::NoInstances { name }) && name@ == conn.name@
        },
{
    if resp.instances.len() > 0 {
        match &resp.instances[0].instance {
            Some(inst) => {
                return Ok(
                    Instance {
                        uuid: inst.uuid.clone(),
                        host: inst.host.clone(),
                        port: inst.port,
                        id: inst.id,
                    },
                );
            },
            None => {},
        }
    }
    Err(ConnectionError::NoInstances { name: conn.name.clone() })
}

/// How a connection is shown, with the connection settings.
#[derive(Debug, Clone)]
pub struct DisplayConnection {
    pub db_name: String,
    pub host: String,
    pub port: i32,
    pub db_account: String,
}

/// The response of a connection display request.
#[derive(Debug, Clone)]
pub struct GetConnectionForDisplayResponse {
    pub conn: Option<DisplayConnection>,
    pub role: i32,
}

/// The connection part of a session open request.
#[derive(Debug, Clone)]
pub struct OpenConnection {
    pub flag1: i32,
    pub instance_uuid: String,
    pub host: String,
    pub port: i32,
    pub flag7: i32,
    pub db_name: String,
    pub cluster_name: String,
    pub instance_id: i32,
    pub instance_uuid2: String,
    pub cluster_id: i32,
    pub cluster_uuid: String,
    pub role: i32,
    pub empty30: String,
    pub flag43: i32,
    pub db_account: String,
    pub empty52: String,
    pub empty58: String,
}

/// A session open request.
#[derive(Debug, Clone)]
pub struct OpenRequest {
    pub flag1: i32,
    pub instance_uuid: String,
    pub db_name: String,
    pub connection: Option<OpenConnection>,
    pub client_uuid: String,
    pub instance_uuid2: String,
    pub flag23: i32,
}

/// The response of a session open request.
#[derive(Debug, Clone)]
pub struct OpenResponse {
    pub session: String,
    pub engine: String,
    pub version: String,
    pub db: String,
}

/// The displayed settings of a connection: database, host, port and
/// account (empty or zero when the response shows none).
pub open spec fn shown_db(d: GetConnectionForDisplayResponse) -> Seq<char> {
    match d.conn {
        Some(c) => c.db_name@,
        None => Seq::empty(),
    }
}

pub open spec fn shown_host(d: GetConnectionForDisplayResponse) -> Seq<char> {
    match d.conn {
        Some(c) => c.host@,
        None => Seq::empty(),
    }
}

pub open spec fn shown_port(d: GetConnectionForDisplayResponse) -> i32 {
    match d.conn {
        Some(c) => c.port,
        None => 0,
    }
}

pub open spec fn shown_account(d: GetConnectionForDisplayResponse) -> Seq<char> {
    match d.conn {
        Some(c) => c.db_account@,
        None => Seq::empty(),
    }
}

/// The request that opens a session on `inst` of `conn`, as the display
/// response `disp` shows it: the displayed host and port unless they are
/// empty or zero, then the instance's.
pub fn open_request(
    conn: &Connection,
    inst: &Instance,
    disp: &GetConnectionForDisplayResponse,
    client_uuid: String,
) -> (res: OpenRequest)
    ensures
        res.flag1 == 2,
        res.instance_uuid@ == inst.uuid@,
        res.instance_uuid2@ == inst.uuid@,
        res.client_uuid == client_uuid,
        res.flag23 == 3,
        res.db_name@ == shown_db(*disp),
        res.connection matches Some(oc) && {
            &&& oc.flag1 == conn.db_type
            &&& oc.instance_uuid@ == inst.uuid@
            &&& oc.instance_uuid2@ == inst.uuid@
            &&& oc.host@ == if shown_host(*disp).len() > 0 {
                shown_host(*disp)
            } else {
                inst.host@
            }
            &&& oc.port == if shown_port(*disp) != 0 {
                shown_port(*disp)
            } else {
                inst.port
            }
            &&& oc.flag7 == 1
            &&& oc.db_name@ == shown_db(*disp)
            &&& oc.cluster_name@ == conn.name@
            &&& oc.instance_id == inst.id
            &&& oc.cluster_id == conn.cluster_id
            &&& oc.cluster_uuid@ == conn.cluster_uuid@
            &&& oc.role == disp.role
            &&& oc.flag43 == 1
            &&& oc.db_account@ == shown_account(*disp)
            &&& oc.empty30@.len() == 0 && oc.empty52@.len() == 0 && oc.empty58@.len() == 0
        },
{
    let (db_name, shown_host, shown_port, db_account) = match &disp.conn {
        Some(c) => (c.db_name.clone(), c.host.clone(), c.port, c.db_account.clone()),
        None => (String::new(), String::new(), 0, String::new()),
    };
    let host = if shown_host.as_str().is_empty() {
        inst.host.clone()
    } else {
        shown_host
    };
    let port = if shown_port == 0 {
        inst.port
    } else {
        shown_port
    };
    OpenRequest {
        flag1: 2,
        instance_uuid: inst.uuid.clone(),
        db_name: db_name.clone(),
        connection: Some(
            OpenConnection {
                flag1: conn.db_type,
                instance_uuid: inst.uuid.clone(),
                host,
                port,
                flag7: 1,
                db_name,
                cluster_name: conn.name.clone(),
                instance_id: inst.id,
                instance_uuid2: inst.uuid.clone(),
                cluster_id: conn.cluster_id,
                cluster_uuid: conn.cluster_uuid.clone(),
                role: disp.role,
                empty30: String::new(),
                flag43: 1,
                db_account,
                empty52: String::new(),
                empty58: String::new(),
            },
        ),
        client_uuid,
        instance_uuid2: inst.uuid.clone(),
        flag23: 3,
    }
}

/// The session that an open response reports for `conn`; a response
/// without a session is an error.
pub fn opened_session(resp: OpenResponse, conn: &Connection) -> (res: Result<
    OpenedSession,
    ConnectionError,
>)
    ensures
        if resp.session@.len() == 0 {
            res matches Err(ConnectionError::NoSession)
        } else {
            res matches Ok(s) && s.connection@ == conn.name@ && s.session == resp.session && s.engine
                == resp.engine && s.version == resp.version && s.db == resp.db && s.db_type == conn.db_type
        },
{
    if resp.session.as_str().is_empty() {
        return Err(ConnectionError::NoSession);
    }
    Ok(
        OpenedSession {
            connection: conn.name.clone(),
            session: resp.session,
            engine: resp.engine,
            version: resp.version,
            db: resp.db,
            db_type: conn.db_type,
        },
    )
}

/// A connection chosen by part of its name: when no connection is named
/// exactly `name`, a connection whose lower-cased name holds the lower-cased
/// `name` at any position `pos` is among those selected (if it is of the
/// engine asked for, when one is), and when no other connection's name holds
/// it anywhere, that connection alone is selected, so `find_connection`
/// returns it.
pub proof fn law_partial_name_selects(
    cs: Seq<Connection>,
    name: Seq<char>,
    engine: Seq<char>,
    k: int,
    pos: int,
)
    requires
        forall|j: int| 0 <= j < cs.len() ==> (#[trigger] cs[j]).name@ != name,
        0 <= k < cs.len(),
        0 <= pos,
        pos + name.len() <= cs[k].name@.len(),
        lower(cs[k].name@).subrange(pos, pos + name.len()) == lower(name),
        is_blank(engine) || engine_name(cs[k].db_type) == lower(trim(engine)),
    ensures
        selected_connections(cs, name, engine).contains(cs[k]),
        (forall|j: int, p: int|
            #![trigger lower(cs[j].name@).subrange(p, p + name.len())]
            0 <= j < cs.len() && j != k && 0 <= p && p + name.len() <= cs[j].name@.len() ==> lower(
                cs[j].name@,
            ).subrange(p, p + name.len()) != lower(name)) ==> selected_connections(cs, name, engine)
            == seq![cs[k]],
{
    lemma_exact_none(cs, name);
    assert(occurs_at(lower(cs[k].name@), lower(name), pos));
    lemma_partly_contains(cs, name, k);
    let by_name = partly_named(cs, name);
    if !is_blank(engine) {
        lemma_of_engine_contains(by_name, lower(trim(engine)), cs[k]);
    }
    if forall|j: int, p: int|
        #![trigger lower(cs[j].name@).subrange(p, p + name.len())]
        0 <= j < cs.len() && j != k && 0 <= p && p + name.len() <= cs[j].name@.len() ==> lower(
            cs[j].name@,
        ).subrange(p, p + name.len()) != lower(name) {
        assert forall|j: int| 0 <= j < cs.len() && j != k implies !has_sub(
            lower(#[trigger] cs[j].name@),
            lower(name),
        ) by {
            if has_sub(lower(cs[j].name@), lower(name)) {
                let p = choose|p: int| occurs_at(lower(cs[j].name@), lower(name), p);
                assert(lower(cs[j].name@).subrange(p, p + name.len()) == lower(name));
            }
        }
        lemma_partly_only(cs, name, k);
        if !is_blank(engine) {
            let one = seq![cs[k]];
            assert(one.drop_last() =~= Seq::<Connection>::empty());
            assert(of_engine(one, lower(trim(engine))) == of_engine(one.drop_last(), lower(trim(engine))).push(cs[k]));
            assert(of_engine(one, lower(trim(engine))) =~= one);
        }
    }
}

/// The exact name wins: when the connection at `k` is the only one named
/// exactly `name`, it alone is selected (if it is of the engine asked for,
/// when one is), however many other names contain `name`.
pub proof fn law_exact_name_selects(cs: Seq<Connection>, name: Seq<char>, engine: Seq<char>, k: int)
    requires
        0 <= k < cs.len(),
        cs[k].name@ == name,
        forall|j: int| 0 <= j < cs.len() && j != k ==> (#[trigger] cs[j]).name@ != name,
        is_blank(engine) || engine_name(cs[k].db_type) == lower(trim(engine)),
    ensures
        selected_connections(cs, name, engine) == seq![cs[k]],
{
    lemma_exact_only(cs, name, k);
    if !is_blank(engine) {
        let one = seq![cs[k]];
        assert(one.drop_last() =~= Seq::<Connection>::empty());
        assert(of_engine(one, lower(trim(engine))) == of_engine(one.drop_last(), lower(trim(engine))).push(cs[k]));
        assert(of_engine(one, lower(trim(engine))) =~= one);
    }
}

/// When an engine is asked for, every connection selected is of that engine
/// (trimmed, lower-cased).
pub proof fn law_selected_engine(cs: Seq<Connection>, name: Seq<char>, engine: Seq<char>, m: int)
    requires
        !is_blank(engine),
        0 <= m < selected_connections(cs, name, engine).len(),
    ensures
        engine_name(selected_connections(cs, name, engine)[m].db_type) == lower(trim(engine)),
{
    let by_name = if exact_named(cs, name).len() > 0 {
        exact_named(cs, name)
    } else {
        partly_named(cs, name)
    };
    lemma_of_engine_members(by_name, lower(trim(engine)));
}

proof fn lemma_of_engine_members(cs: Seq<Connection>, e: Seq<char>)
    ensures
        forall|m: int| 0 <= m < of_engine(cs, e).len() ==> engine_name((#[trigger] of_engine(cs, e)[m]).db_type) == e,
    decreases cs.len(),
{
    if cs.len() > 0 {
        let t = cs.drop_last();
        lemma_of_engine_members(t, e);
        let r = of_engine(t, e);
        if engine_name(cs.last().db_type) == e {
            assert forall|m: int| 0 <= m < r.push(cs.last()).len() implies engine_name((#[trigger] r.push(cs.last())[m]).db_type) == e by {
                if m < r.len() {
                    assert(r.push(cs.last())[m] == r[m]);
                }
            }
        }
    }
}

proof fn lemma_exact_only(cs: Seq<Connection>, name: Seq<char>, k: int)
    requires
        0 <= k < cs.len(),
        cs[k].name@ == name,
        forall|j: int| 0 <= j < cs.len() && j != k ==> (#[trigger] cs[j]).name@ != name,
    ensures
        exact_named(cs, name) == seq![cs[k]],
    decreases cs.len(),
{
    let t = cs.drop_last();
    if k == cs.len() - 1 {
        assert forall|j: int| 0 <= j < t.len() implies (#[trigger] t[j]).name@ != name by {
            assert(t[j] == cs[j]);
        }
        lemma_exact_none(t, name);
        assert(Seq::<Connection>::empty().push(cs[k]) =~= seq![cs[k]]);
    } else {
        assert(t[k] == cs[k]);
        assert forall|j: int| 0 <= j < t.len() && j != k implies (#[trigger] t[j]).name@ != name by {
            assert(t[j] == cs[j]);
        }
        lemma_exact_only(t, name, k);
        assert(cs.last() == cs[cs.len() - 1]);
    }
}

proof fn lemma_exact_none(cs: Seq<Connection>, name: Seq<char>)
    requires
        forall|j: int| 0 <= j < cs.len() ==> (#[trigger] cs[j]).name@ != name,
    ensures
        exact_named(cs, name) == Seq::<Connection>::empty(),
    decreases cs.len(),
{
    if cs.len() > 0 {
        let t = cs.drop_last();
        assert forall|j: int| 0 <= j < t.len() implies (#[trigger] t[j]).name@ != name by {
            assert(t[j] == cs[j]);
        }
        lemma_exact_none(t, name);
        assert(cs.last() == cs[cs.len() - 1]);
    }
}

proof fn lemma_partly_contains(cs: Seq<Connection>, name: Seq<char>, k: int)
    requires
        0 <= k < cs.len(),
        has_sub(lower(cs[k].name@), lower(name)),
    ensures
        partly_named(cs, name).contains(cs[k]),
    decreases cs.len(),
{
    let t = cs.drop_last();
    if k == cs.len() - 1 {
        let r = partly_named(t, name).push(cs.last());
        assert(r[r.len() - 1] == cs[k]);
    } else {
        assert(t[k] == cs[k]);
        lemma_partly_contains(t, name, k);
        let r = partly_named(t, name);
        let m = choose|m: int| 0 <= m < r.len() && r[m] == cs[k];
        if has_sub(lower(cs.last().name@), lower(name)) {
            assert(r.push(cs.last())[m] == cs[k]);
        }
    }
}

proof fn lemma_partly_none(cs: Seq<Connection>, name: Seq<char>)
    requires
        forall|j: int| 0 <= j < cs.len() ==> !has_sub(lower((#[trigger] cs[j]).name@), lower(name)),
    ensures
        partly_named(cs, name) == Seq::<Connection>::empty(),
    decreases cs.len(),
{
    if cs.len() > 0 {
        let t = cs.drop_last();
        assert forall|j: int| 0 <= j < t.len() implies !has_sub(lower((#[trigger] t[j]).name@), lower(name)) by {
            assert(t[j] == cs[j]);
        }
        lemma_partly_none(t, name);
        assert(cs.last() == cs[cs.len() - 1]);
    }
}

proof fn lemma_partly_only(cs: Seq<Connection>, name: Seq<char>, k: int)
    requires
        0 <= k < cs.len(),
        has_sub(lower(cs[k].name@), lower(name)),
        forall|j: int| 0 <= j < cs.len() && j != k ==> !has_sub(lower((#[trigger] cs[j]).name@), lower(name)),
    ensures
        partly_named(cs, name) == seq![cs[k]],
    decreases cs.len(),
{
    let t = cs.drop_last();
    if k == cs.len() - 1 {
        assert forall|j: int| 0 <= j < t.len() implies !has_sub(lower((#[trigger] t[j]).name@), lower(name)) by {
            assert(t[j] == cs[j]);
        }
        lemma_partly_none(t, name);
        assert(Seq::<Connection>::empty().push(cs[k]) =~= seq![cs[k]]);
    } else {
        assert(t[k] == cs[k]);
        assert forall|j: int| 0 <= j < t.len() && j != k implies !has_sub(lower((#[trigger] t[j]).name@), lower(name)) by {
            assert(t[j] == cs[j]);
        }
        lemma_partly_only(t, name, k);
        assert(cs.last() == cs[cs.len() - 1]);
    }
}

proof fn lemma_of_engine_contains(cs: Seq<Connection>, e: Seq<char>, c: Connection)
    requires
        cs.contains(c),
        engine_name(c.db_type) == e,
    ensures
        of_engine(cs, e).contains(c),
    decreases cs.len(),
{
    let t = cs.drop_last();
    if cs.last() == c {
        let r = of_engine(t, e).push(c);
        assert(r[r.len() - 1] == c);
    } else {
        let m = choose|m: int| 0 <= m < cs.len() && cs[m] == c;
        assert(m < cs.len() - 1);
        assert(t[m] == c);
        lemma_of_engine_contains(t, e, c);
        let r = of_engine(t, e);
        let m2 = choose|m2: int| 0 <= m2 < r.len() && r[m2] == c;
        if engine_name(cs.last().db_type) == e {
            assert(r.push(cs.last())[m2] == c);
        }
    }
}

} // verus!
