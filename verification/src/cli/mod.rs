//! The command line's own decisions: which host, connection and database a
//! command uses, how an error is reported, and shell completion.
pub mod commands;
pub mod completion;
pub mod session;

use vstd::prelude::*;
use crate::auth::error::{canceled_text, AuthError};
use crate::config::Config;
use crate::failure::Failure;
use crate::formatting::style::{error_icon, painted, TermColor};
use crate::qpapi::grpcweb::hint_text;
use crate::text::{append, chars_of, is_blank, is_blank_str, string_of, texts_of};

verus! {

/// What a command works on: the host, connection, engine, database and
/// schema, from the flags and the config file.
#[derive(Debug, Clone)]
pub struct Global {
    pub host: String,
    pub connection: String,
    pub engine: String,
    pub database: String,
    pub schema: String,
    pub verbose: bool,
}

/// The flag's value when it is given and not blank, the config's otherwise.
pub open spec fn picked(flag: Option<String>, cfg: String) -> String {
    match flag {
        Some(f) => if is_blank(f@) {
            cfg
        } else {
            f
        },
        None => cfg,
    }
}

/// The flag's value when it is given and not blank, the config's otherwise.
pub fn pick_non_empty(flag: Option<String>, cfg: String) -> (res: String)
    ensures
        res == picked(flag, cfg),
{
    match flag {
        Some(f) => if is_blank_str(f.as_str()) {
            cfg
        } else {
            f
        },
        None => cfg,
    }
}

/// Replaces the target by the value when it is given and not blank.
pub fn replace_with_non_empty(target: &mut String, value: &Option<String>)
    ensures
        *final(target) == match *value {
            Some(v) => if is_blank(v@) {
                *old(target)
            } else {
                v
            },
            None => *old(target),
        },
{
    match value {
        Some(v) => if !is_blank_str(v.as_str()) {
            *target = v.clone();
        },
        None => {},
    }
}

/// Replaces the target by the value when it is given.
pub fn replace_with(target: &mut String, value: &Option<String>)
    ensures
        *final(target) == match *value {
            Some(v) => v,
            None => *old(target),
        },
{
    match value {
        Some(v) => {
            *target = v.clone();
        },
        None => {},
    }
}

impl Global {
    /// The selection before a command's own flags: the host flag or the
    /// config's host, and the config's connection and database.
    pub fn new(host: Option<String>, verbose: bool, cfg: Config) -> (res: Global)
        ensures
            res.host == picked(host, cfg.host),
            res.connection == cfg.connection,
            res.engine@ == Seq::<char>::empty(),
            res.database == cfg.database,
            res.schema@ == Seq::<char>::empty(),
            res.verbose == verbose,
    {
        Global {
            host: pick_non_empty(host, cfg.host),
            connection: cfg.connection,
            engine: String::new(),
            database: cfg.database,
            schema: String::new(),
            verbose,
        }
    }

    /// Takes the connection flag when it is not blank.
    pub fn set_connection(&mut self, value: &Option<String>)
        ensures
            final(self).connection == match *value {
                Some(v) => if is_blank(v@) {
                    old(self).connection
                } else {
                    v
                },
                None => old(self).connection,
            },
            final(self).host == old(self).host,
            final(self).engine == old(self).engine,
            final(self).database == old(self).database,
            final(self).schema == old(self).schema,
            final(self).verbose == old(self).verbose,
    {
        replace_with_non_empty(&mut self.connection, value);
    }

    /// Takes the engine flag when it is given.
    pub fn set_engine(&mut self, value: &Option<String>)
        ensures
            final(self).engine == match *value {
                Some(v) => v,
                None => old(self).engine,
            },
            final(self).host == old(self).host,
            final(self).connection == old(self).connection,
            final(self).database == old(self).database,
            final(self).schema == old(self).schema,
            final(self).verbose == old(self).verbose,
    {
        replace_with(&mut self.engine, value);
    }

    /// Takes the database flag when it is not blank.
    pub fn set_database(&mut self, value: &Option<String>)
        ensures
            final(self).database == match *value {
                Some(v) => if is_blank(v@) {
                    old(self).database
                } else {
                    v
                },
                None => old(self).database,
            },
            final(self).host == old(self).host,
            final(self).connection == old(self).connection,
            final(self).engine == old(self).engine,
            final(self).schema == old(self).schema,
            final(self).verbose == old(self).verbose,
    {
        replace_with_non_empty(&mut self.database, value);
    }

    /// Takes the schema flag when it is given.
    pub fn set_schema(&mut self, value: &Option<String>)
        ensures
            final(self).schema == match *value {
                Some(v) => v,
                None => old(self).schema,
            },
            final(self).host == old(self).host,
            final(self).connection == old(self).connection,
            final(self).engine == old(self).engine,
            final(self).database == old(self).database,
            final(self).verbose == old(self).verbose,
    {
        replace_with(&mut self.schema, value);
    }
}

/// The uppercase of a character, as `char::to_uppercase` gives it.
pub uninterp spec fn uppercase(c: char) -> Seq<char>;

/// Wraps `char::to_uppercase`.
#[verifier::external_body]
fn to_uppercase(c: char) -> (res: String)
    ensures
        res@ == uppercase(c),
{
    c.to_uppercase().collect()
}

/// The text with its first character in uppercase; "Login failed" for an
/// empty text.
pub open spec fn capitalized(text: Seq<char>) -> Seq<char> {
    if text.len() == 0 {
        "Login failed"@
    } else {
        uppercase(text[0]) + text.drop_first()
    }
}

/// The text with its first character in uppercase.
pub fn capitalize_first(text: &str) -> (res: String)
    ensures
        res@ == capitalized(text@),
{
    let v = chars_of(text);
    if v.len() == 0 {
        return "Login failed".to_owned();
    }
    let mut out = chars_of(to_uppercase(v[0]).as_str());
    let rest = crate::text::skip_vec(&v, 1);
    append(&mut out, &rest);
    string_of(&out)
}

/// The lines that report a failure on standard error.
pub open spec fn error_lines(err: Failure) -> Seq<Seq<char>> {
    match err {
        Failure::LoginFailed(m) => seq![painted(seq!['X'], TermColor::Red) + " "@ + m@],
        Failure::Auth(AuthError::LoginCanceled) => seq![
            painted(seq!['X'], TermColor::Red) + " "@ + canceled_text(),
        ],
        Failure::StatusFailed => Seq::empty(),
        Failure::Grpc(e) => match hint_text(e.message@, e.app_code) {
            Some(h) => seq!["error: "@ + e.message@, "  "@ + h],
            None => seq!["error: "@ + e.message@],
        },
        Failure::Message(m) => seq!["error: "@ + m@],
    }
}

fn joined(a: &Vec<char>, b: &Vec<char>) -> (res: String)
    ensures
        res@ == a@ + b@,
{
    let mut out = a.clone();
    append(&mut out, b);
    string_of(&out)
}

/// The lines that report a failure: a failed or canceled login after a red
/// cross, nothing for a failed status report (it was shown already), and
/// otherwise `error: ` and the message, followed by a hint for the gRPC
/// statuses that have one.
pub fn render_error(err: &Failure) -> (res: Vec<String>)
    ensures
        texts_of(res@) == error_lines(*err),
{
    let mut lines: Vec<String> = Vec::new();
    match err {
        Failure::LoginFailed(m) => {
            let mut head = chars_of(error_icon().as_str());
            append(&mut head, &chars_of(" "));
            lines.push(joined(&head, &chars_of(m.as_str())));
        },
        Failure::Auth(e) => {
            let mut head = chars_of(error_icon().as_str());
            append(&mut head, &chars_of(" "));
            lines.push(joined(&head, &chars_of(e.message().as_str())));
        },
        Failure::StatusFailed => {},
        Failure::Grpc(e) => {
            lines.push(joined(&chars_of("error: "), &chars_of(e.message.as_str())));
            match e.hint() {
                Some(h) => lines.push(joined(&chars_of("  "), &chars_of(h))),
                None => {},
            }
        },
        Failure::Message(m) => {
            lines.push(joined(&chars_of("error: "), &chars_of(m.as_str())));
        },
    }
    assert(texts_of(lines@) =~= error_lines(*err));
    lines
}

} // verus!
