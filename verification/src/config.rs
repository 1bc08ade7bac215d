//! The user's configuration: the default host, connection and database.
use vstd::prelude::*;
use crate::text::{append, chars_of, string_of, trim, trim_str};

verus! {

/// Defaults that the config file sets; empty when unset.
#[derive(Debug, Clone)]
pub struct Config {
    pub host: String,
    pub connection: String,
    pub database: String,
}

impl Default for Config {
    fn default() -> (res: Config)
        ensures
            res.host@ == Seq::<char>::empty(),
            res.connection@ == Seq::<char>::empty(),
            res.database@ == Seq::<char>::empty(),
    {
        Config { host: String::new(), connection: String::new(), database: String::new() }
    }
}

impl Config {
    /// The configuration with each value trimmed, as it is used once
    /// loaded.
    pub fn trimmed(&self) -> (res: Config)
        ensures
            res.host@ == trim(self.host@),
            res.connection@ == trim(self.connection@),
            res.database@ == trim(self.database@),
    {
        Config {
            host: string_of(&trim_str(self.host.as_str())),
            connection: string_of(&trim_str(self.connection.as_str())),
            database: string_of(&trim_str(self.database.as_str())),
        }
    }
}

/// `base` followed by the relative component `name`, with one `/` between
/// them.
pub open spec fn path_join(base: Seq<char>, name: Seq<char>) -> Seq<char> {
    if base.len() == 0 {
        name
    } else if base.last() == '/' {
        base + name
    } else {
        base + seq!['/'] + name
    }
}

fn join_path(base: &Vec<char>, name: &str) -> (res: Vec<char>)
    ensures
        res@ == path_join(base@, name@),
{
    let n = chars_of(name);
    if base.len() == 0 {
        return n;
    }
    let mut out = base.clone();
    if base[base.len() - 1] != '/' {
        out.push('/');
    }
    append(&mut out, &n);
    out
}

/// The default config file: `querypie/config.json` under the configuration
/// directory (`XDG_CONFIG_HOME` when set and not blank, `.config` under the
/// home directory otherwise, the current directory standing for an
/// unknown home).
pub open spec fn config_file_path(config_home: Option<Seq<char>>, home: Option<Seq<char>>) -> Seq<
    char,
> {
    let dir = match config_home {
        Some(d) => d,
        None => path_join(
            match home {
                Some(h) => h,
                None => "."@,
            },
            ".config"@,
        ),
    };
    path_join(path_join(dir, "querypie"@), "config.json"@)
}

/// The default config file, given the non-blank value of `XDG_CONFIG_HOME`
/// and the home directory.
pub fn default_config_file(config_home: Option<String>, home: Option<String>) -> (res: String)
    ensures
        res@ == config_file_path(
            match config_home {
                Some(d) => Some(d@),
                None => None,
            },
            match home {
                Some(h) => Some(h@),
                None => None,
            },
        ),
{
    let dir = match config_home {
        Some(d) => chars_of(d.as_str()),
        None => {
            let h = match home {
                Some(h) => chars_of(h.as_str()),
                None => chars_of("."),
            };
            join_path(&h, ".config")
        },
    };
    let q = join_path(&dir, "querypie");
    string_of(&join_path(&q, "config.json"))
}

} // verus!
