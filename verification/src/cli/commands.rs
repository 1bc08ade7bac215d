//! The selection flags that commands take, and how output is shown.
use vstd::prelude::*;
use crate::cli::Global;
use crate::formatting::{Options, OutputFormat};
use crate::text::{eq_str, lower, lower_vec, string_of, trim, trim_str};

verus! {

/// The output flags of a command.
#[derive(Debug, Clone, Copy)]
pub struct OutputArgs {
    pub no_truncate: bool,
    pub output: OutputFormat,
}

/// The `--connection` flag.
#[derive(Debug, Clone)]
pub struct ConnectionArg {
    pub connection: Option<String>,
}

/// The `--connection` and `--engine` flags.
#[derive(Debug, Clone)]
pub struct ConnectionSelectionArgs {
    pub connection: ConnectionArg,
    pub engine: Option<String>,
}

/// The connection flags and `--db`.
#[derive(Debug, Clone)]
pub struct DatabaseSelectionArgs {
    pub connection: ConnectionSelectionArgs,
    pub database: Option<String>,
}

/// The database flags and `--schema`.
#[derive(Debug, Clone)]
pub struct TableSelectionArgs {
    pub database: DatabaseSelectionArgs,
    pub schema: Option<String>,
}

/// The flag's value replaces the old one when it is given and not blank.
pub open spec fn unless_blank(old: String, flag: Option<String>) -> String {
    match flag {
        Some(v) => if crate::text::is_blank(v@) {
            old
        } else {
            v
        },
        None => old,
    }
}

/// The flag's value replaces the old one when it is given.
pub open spec fn when_given(old: String, flag: Option<String>) -> String {
    match flag {
        Some(v) => v,
        None => old,
    }
}

/// The selection after the flags of a command.
pub open spec fn selected(
    g: Global,
    connection: Option<String>,
    engine: Option<String>,
    database: Option<String>,
    schema: Option<String>,
) -> Global {
    Global {
        connection: unless_blank(g.connection, connection),
        engine: when_given(g.engine, engine),
        database: unless_blank(g.database, database),
        schema: when_given(g.schema, schema),
        ..g
    }
}

impl ConnectionArg {
    /// Selects the connection.
    pub fn apply_to(&self, global: &mut Global)
        ensures
            *final(global) == selected(*old(global), self.connection, None, None, None),
    {
        global.set_connection(&self.connection);
    }
}

impl ConnectionSelectionArgs {
    /// Selects the connection and the engine.
    pub fn apply_to(&self, global: &mut Global)
        ensures
            *final(global) == selected(*old(global), self.connection.connection, self.engine, None, None),
    {
        self.connection.apply_to(global);
        global.set_engine(&self.engine);
    }
}

impl DatabaseSelectionArgs {
    /// Selects the connection, the engine and the database.
    pub fn apply_to(&self, global: &mut Global)
        ensures
            *final(global) == selected(
                *old(global),
                self.connection.connection.connection,
                self.connection.engine,
                self.database,
                None,
            ),
    {
        self.connection.apply_to(global);
        global.set_database(&self.database);
    }
}

impl TableSelectionArgs {
    /// Selects the connection, the engine, the database and the schema.
    pub fn apply_to(&self, global: &mut Global)
        ensures
            *final(global) == selected(
                *old(global),
                self.database.connection.connection.connection,
                self.database.connection.engine,
                self.database.database,
                self.schema,
            ),
    {
        self.database.apply_to(global);
        global.set_schema(&self.schema);
    }
}

/// Does the value of `QUERYPIE_NO_TRUNCATE`, trimmed and in lowercase, say
/// yes.
pub open spec fn says_no_truncate(value: Option<Seq<char>>) -> bool {
    match value {
        Some(v) => {
            let w = lower(trim(v));
            w == "1"@ || w == "true"@ || w == "yes"@
        },
        None => false,
    }
}

/// Does the environment ask for untruncated tables.
pub fn no_truncate_env(value: Option<String>) -> (res: bool)
    ensures
        res == says_no_truncate(
            match value {
                Some(v) => Some(v@),
                None => None,
            },
        ),
{
    match value {
        Some(v) => {
            let w = string_of(&lower_vec(&trim_str(v.as_str())));
            eq_str(w.as_str(), "1") || eq_str(w.as_str(), "true") || eq_str(w.as_str(), "yes")
        },
        None => false,
    }
}

/// How to show a command's output: its format, and truncated tables unless
/// the flag or the environment (`env` is the value of
/// `QUERYPIE_NO_TRUNCATE`) turns truncation off.
pub fn fmt(output: OutputArgs, env: Option<String>) -> (res: Options)
    ensures
        res.output == output.output,
        res.truncate == (!output.no_truncate && !says_no_truncate(
            match env {
                Some(v) => Some(v@),
                None => None,
            },
        )),
{
    let truncate = if output.no_truncate {
        false
    } else {
        !no_truncate_env(env)
    };
    Options { output: output.output, truncate }
}

} // verus!
