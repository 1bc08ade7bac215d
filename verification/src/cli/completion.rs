//! Shell completion: the context read from the words typed so far, and the
//! candidates offered.
use vstd::prelude::*;
use crate::cli::pick_non_empty;
use crate::config::Config;
use crate::failure::{auth_expired, is_auth_expired, is_session_not_found, session_not_found, Failure};
use crate::keyed::{insert_key, lookup, pairs_of, sorted_keys, upsert, Keyed, lemma_lookup_upsert, lemma_lookup_upsert_other};
use crate::qpapi::session::{engine_name, Connection};
use crate::sessioncache::Entry;
use crate::text::{
    chars_of, contains_ignore_case, eq_str, has_prefix, has_sub, is_blank, is_blank_str,
    lower, skip_vec, starts_with as has_prefix_vec, string_of, texts_of};

verus! {

/// What a completion is asked for.
#[derive(Debug, Clone, Copy, PartialEq, Eq, Structural)]
pub enum CompletionKind {
    Host,
    Connection,
    Engine,
    Database,
    Schema,
    Table,
}

/// The selection read from the words typed so far.
#[derive(Debug, Clone)]
pub struct CompletionContext {
    pub host: String,
    pub connection: String,
    pub engine: String,
    pub database: String,
    pub schema: String,
}

impl Default for CompletionContext {
    fn default() -> (res: CompletionContext)
        ensures
            res.host@ == Seq::<char>::empty(),
            res.connection@ == Seq::<char>::empty(),
            res.engine@ == Seq::<char>::empty(),
            res.database@ == Seq::<char>::empty(),
            res.schema@ == Seq::<char>::empty(),
    {
        CompletionContext {
            host: String::new(),
            connection: String::new(),
            engine: String::new(),
            database: String::new(),
            schema: String::new(),
        }
    }
}

/// Is `c` an escape that a backslash stands before inside double quotes.
pub open spec fn escapable(c: char) -> bool {
    c == '"' || c == '\\' || c == '$' || c == '`'
}

/// A double-quoted text with its backslash escapes of `"`, `\`, `$` and
/// `` ` `` undone; other backslashes stay.
pub open spec fn unescaped(s: Seq<char>) -> Seq<char>
    decreases s.len(),
{
    if s.len() == 0 {
        Seq::empty()
    } else if s[0] != '\\' {
        seq![s[0]] + unescaped(s.drop_first())
    } else if s.len() == 1 {
        seq!['\\']
    } else if escapable(s[1]) {
        seq![s[1]] + unescaped(s.subrange(2, s.len() as int))
    } else {
        seq!['\\', s[1]] + unescaped(s.subrange(2, s.len() as int))
    }
}

/// Undoes the backslash escapes of a double-quoted text.
pub fn unescape_double_quoted(value: &str) -> (res: String)
    ensures
        res@ == unescaped(value@),
{
    let v = chars_of(value);
    let n = v.len();
    let mut out: Vec<char> = Vec::new();
    let mut i: usize = 0;
    assert(v@.subrange(0, n as int) == v@);
    while i < n
        invariant
            i <= n,
            n == v@.len(),
            out@ + unescaped(v@.subrange(i as int, n as int)) == unescaped(v@),
        decreases n - i,
    {
        let ghost rest = v@.subrange(i as int, n as int);
        if v[i] != '\\' {
            assert(rest.drop_first() == v@.subrange(i + 1, n as int));
            out.push(v[i]);
            assert(out@ + unescaped(v@.subrange(i + 1, n as int)) == unescaped(v@));
            i = i + 1;
        } else if i + 1 == n {
            out.push('\\');
            assert(v@.subrange(n as int, n as int) == Seq::<char>::empty());
            i = i + 1;
        } else {
            let next = v[i + 1];
            assert(rest.subrange(2, rest.len() as int) == v@.subrange(i + 2, n as int));
            if next == '"' || next == '\\' || next == '$' || next == '`' {
                out.push(next);
            } else {
                out.push('\\');
                out.push(next);
            }
            assert(out@ + unescaped(v@.subrange(i + 2, n as int)) == unescaped(v@));
            i = i + 2;
        }
    }
    string_of(&out)
}

/// A value as the shell may have quoted it: a leading `'` or `"` is
/// dropped, with the same quote at the end; a double-quoted value is also
/// unescaped.
pub open spec fn unquoted(v: Seq<char>) -> Seq<char> {
    if v.len() > 0 && (v[0] == '\'' || v[0] == '"') {
        let q = v[0];
        let a = v.drop_first();
        let b = if a.len() > 0 && a.last() == q {
            a.drop_last()
        } else {
            a
        };
        if q == '"' {
            unescaped(b)
        } else {
            b
        }
    } else {
        v
    }
}

/// A completion value without the shell's quotes.
pub fn unquote_completion_value(value: &str) -> (res: String)
    ensures
        res@ == unquoted(value@),
{
    let v = chars_of(value);
    if v.len() == 0 || (v[0] != '\'' && v[0] != '"') {
        return value.to_owned();
    }
    let q = v[0];
    let a = skip_vec(&v, 1);
    let b = if a.len() > 0 && a[a.len() - 1] == q {
        crate::text::subrange_vec(&a, 0, a.len() - 1)
    } else {
        a
    };
    if q == '"' {
        unescape_double_quoted(string_of(&b).as_str())
    } else {
        string_of(&b)
    }
}

/// The value of an option among the words, from `index` on: the text
/// after `long=`, or the word after `long` (or the short form); none when
/// the option is missing or is the last word.
pub open spec fn option_value_from(
    words: Seq<Seq<char>>,
    index: int,
    long: Seq<char>,
    short: Option<Seq<char>>,
) -> Option<Seq<char>>
    decreases words.len() - index,
{
    if index < 0 || index >= words.len() {
        None
    } else if has_prefix(words[index], long + "="@) {
        Some(unquoted(words[index].skip(long.len() as int + 1)))
    } else if words[index] == long || (short matches Some(s) && words[index] == s) {
        if index + 1 < words.len() {
            Some(unquoted(words[index + 1]))
        } else {
            None
        }
    } else {
        option_value_from(words, index + 1, long, short)
    }
}

/// An option written as `long=value` and as `long value` reads the same,
/// and a value quoted with single quotes reads as it was written.
pub proof fn law_option_forms_agree(long: Seq<char>, value: Seq<char>, short: Option<Seq<char>>)
    ensures
        option_value_from(seq![long + "="@ + value], 0, long, short) == option_value_from(
            seq![long, value],
            0,
            long,
            short,
        ),
        unquoted(seq!['\''] + value + seq!['\'']) == value,
{
    reveal_strlit("=");
    let joined = long + "="@ + value;
    assert(has_prefix(joined, long + "="@)) by {
        assert(joined.take(long.len() as int + 1) == long + "="@);
    }
    assert(joined.skip(long.len() as int + 1) == value);
    assert(!has_prefix(long, long + "="@));
    let q = seq!['\''] + value + seq!['\''];
    assert(q.drop_first() == value + seq!['\'']);
    assert((value + seq!['\'']).drop_last() == value);
}

/// An optional text by its view.
pub open spec fn opt_text(o: Option<String>) -> Option<Seq<char>> {
    match o {
        Some(s) => Some(s@),
        None => None,
    }
}

/// The value of an option among the words typed so far.
pub fn option_value(words: &Vec<String>, long: &str, short: Option<&str>) -> (res: Option<String>)
    ensures
        opt_text(res) == option_value_from(
            texts_of(words@),
            0,
            long@,
            match short {
                Some(s) => Some(s@),
                None => None,
            },
        ),
{
    let ghost ws = texts_of(words@);
    let ghost sh = match short {
        Some(s) => Some(s@),
        None => None::<Seq<char>>,
    };
    let mut prefix = chars_of(long);
    prefix.push('=');
    proof {
        reveal_strlit("=");
    }
    let mut i: usize = 0;
    while i < words.len()
        invariant
            i <= words.len(),
            ws == texts_of(words@),
            prefix@ == long@ + "="@,
            prefix@.len() == long@.len() + 1,
            sh == match short {
                Some(s) => Some(s@),
                None => None::<Seq<char>>,
            },
            option_value_from(ws, i as int, long@, sh) == option_value_from(ws, 0, long@, sh),
        decreases words.len() - i,
    {
        let w = chars_of(words[i].as_str());
        assert(ws[i as int] == words@[i as int]@);
        if has_prefix_vec(&w, &prefix) {
            let rest = skip_vec(&w, prefix.len());
            assert(has_prefix(ws[i as int], long@ + "="@));
            assert(rest@ == ws[i as int].skip(long@.len() as int + 1));
            return Some(unquote_completion_value(string_of(&rest).as_str()));
        }
        let is_short = match short {
            Some(s) => eq_str(words[i].as_str(), s),
            None => false,
        };
        if eq_str(words[i].as_str(), long) || is_short {
            if i + 1 < words.len() {
                assert(ws[i + 1] == words@[i + 1]@);
                return Some(unquote_completion_value(words[i + 1].as_str()));
            }
            return None;
        }
        i = i + 1;
    }
    None
}

impl CompletionContext {
    /// The selection from the words typed so far, falling back on the
    /// config for the host, the connection and the database.
    pub fn from_words(words: &Vec<String>, cfg: Config) -> (res: CompletionContext)
        ensures
            res.host@ == picked_text(option_value_from(texts_of(words@), 0, "--host"@, None), cfg.host@),
            res.connection@ == picked_text(
                option_value_from(texts_of(words@), 0, "--connection"@, Some("-c"@)),
                cfg.connection@,
            ),
            res.engine@ == or_empty(option_value_from(texts_of(words@), 0, "--engine"@, None)),
            res.database@ == picked_text(
                option_value_from(texts_of(words@), 0, "--db"@, Some("-d"@)),
                cfg.database@,
            ),
            res.schema@ == or_empty(option_value_from(texts_of(words@), 0, "--schema"@, None)),
    {
        let host = pick_non_empty(option_value(words, "--host", None), cfg.host);
        let connection = pick_non_empty(option_value(words, "--connection", Some("-c")), cfg.connection);
        let engine = match option_value(words, "--engine", None) {
            Some(e) => e,
            None => String::new(),
        };
        let database = pick_non_empty(option_value(words, "--db", Some("-d")), cfg.database);
        let schema = match option_value(words, "--schema", None) {
            Some(s) => s,
            None => String::new(),
        };
        CompletionContext { host, connection, engine, database, schema }
    }
}

/// The flag's text when it is given and not blank, the config's otherwise.
pub open spec fn picked_text(flag: Option<Seq<char>>, cfg: Seq<char>) -> Seq<char> {
    match flag {
        Some(f) => if is_blank(f) {
            cfg
        } else {
            f
        },
        None => cfg,
    }
}

/// The text, or the empty text.
pub open spec fn or_empty(o: Option<Seq<char>>) -> Seq<char> {
    match o {
        Some(t) => t,
        None => Seq::empty(),
    }
}

/// The values without repeats, in ascending order: each value stored as a
/// key, in turn.
pub open spec fn unique_sorted(vs: Seq<Seq<char>>) -> Seq<(Seq<char>, ())>
    decreases vs.len(),
{
    if vs.len() == 0 {
        Seq::empty()
    } else {
        upsert(unique_sorted(vs.drop_last()), vs.last(), ())
    }
}

/// The keys of pairs.
pub open spec fn keys(s: Seq<(Seq<char>, ())>) -> Seq<Seq<char>> {
    s.map_values(|p: (Seq<char>, ())| p.0)
}

/// The values, sorted, each once.
pub fn sorted_unique(values: Vec<String>) -> (res: Vec<String>)
    ensures
        texts_of(res@) == keys(unique_sorted(texts_of(values@))),
        sorted_keys(unique_sorted(texts_of(values@))),
{
    let ghost vs = texts_of(values@);
    let mut set: Vec<Keyed<()>> = Vec::new();
    let mut i: usize = 0;
    assert(vs.take(0) =~= Seq::<Seq<char>>::empty());
    while i < values.len()
        invariant
            i <= values.len(),
            vs == texts_of(values@),
            pairs_of(set@) == unique_sorted(vs.take(i as int)),
            sorted_keys(pairs_of(set@)),
        decreases values.len() - i,
    {
        assert(vs.take(i as int + 1).drop_last() == vs.take(i as int));
        let k = chars_of(values[i].as_str());
        insert_key(&mut set, &k, ());
        i = i + 1;
    }
    assert(vs.take(values.len() as int) == vs);
    let mut out: Vec<String> = Vec::new();
    let mut j: usize = 0;
    while j < set.len()
        invariant
            j <= set.len(),
            out@.len() == j,
            forall|m: int| 0 <= m < j ==> #[trigger] out@[m]@ == set@[m].key@,
        decreases set.len() - j,
    {
        out.push(set[j].key.clone());
        j = j + 1;
    }
    assert(texts_of(out@) =~= keys(pairs_of(set@)));
    out
}

/// A value is kept by `sorted_unique` exactly when it was given.
pub proof fn law_sorted_unique_members(vs: Seq<Seq<char>>, x: Seq<char>)
    ensures
        (lookup(unique_sorted(vs), x) is Some) <==> vs.contains(x),
    decreases vs.len(),
{
    if vs.len() > 0 {
        let init = vs.drop_last();
        law_sorted_unique_members(init, x);
        if x == vs.last() {
            lemma_sorted_unique_sorted(init);
            lemma_lookup_upsert(unique_sorted(init), x, ());
            assert(vs[vs.len() - 1] == x);
        } else {
            lemma_lookup_upsert_other(unique_sorted(init), vs.last(), (), x);
            if init.contains(x) {
                let k = choose|k: int| 0 <= k < init.len() && init[k] == x;
                assert(vs[k] == x);
            }
            if vs.contains(x) {
                let k = choose|k: int| 0 <= k < vs.len() && vs[k] == x;
                assert(k < vs.len() - 1);
                assert(init[k] == x);
            }
        }
    }
}

proof fn lemma_sorted_unique_sorted(vs: Seq<Seq<char>>)
    ensures
        sorted_keys(unique_sorted(vs)),
    decreases vs.len(),
{
    if vs.len() > 0 {
        lemma_sorted_unique_sorted(vs.drop_last());
        crate::keyed::lemma_upsert_sorted(unique_sorted(vs.drop_last()), vs.last(), ());
    }
}

/// Does the value begin with what was typed, the shell's quotes removed;
/// `current` is none when it is not valid Unicode.
pub fn starts_with(value: &str, current: Option<&str>) -> (res: bool)
    ensures
        res == match current {
            Some(c) => has_prefix(value@, unquoted(c@)),
            None => false,
        },
{
    match current {
        Some(c) => {
            let v = chars_of(value);
            let p = chars_of(unquote_completion_value(c).as_str());
            has_prefix_vec(&v, &p)
        },
        None => false,
    }
}

/// Does a connection's name match the connection typed, ignoring ASCII
/// case; a blank query matches every name.
pub open spec fn connection_match(name: Seq<char>, query: Seq<char>) -> bool {
    is_blank(query) || has_sub(lower(name), lower(query))
}

/// Does a connection's name match the connection typed.
pub fn connection_matches(name: &str, query: &str) -> (res: bool)
    ensures
        res == connection_match(name@, query@),
{
    is_blank_str(query) || contains_ignore_case(&chars_of(name), &chars_of(query))
}

/// Is the cache entry for this host and connection.
pub open spec fn entry_for(e: Entry, host: Seq<char>, connection: Seq<char>) -> bool {
    e.host@ == host && e.connection@ == connection
}

/// The cached session of the host and connection, when exactly one is
/// cached.
pub fn unique_cached_session(entries: Vec<Entry>, host: &str, connection: &str) -> (res: Option<Entry>)
    ensures
        match res {
            Some(e) => exists|i: int|
                0 <= i < entries@.len() && entries@[i] == e && entry_for(e, host@, connection@) && (
                forall|j: int|
                    0 <= j < entries@.len() && j != i ==> !entry_for(
                        #[trigger] entries@[j],
                        host@,
                        connection@,
                    )),
            None => !exists|i: int|
                0 <= i < entries@.len() && entry_for(#[trigger] entries@[i], host@, connection@) && (
                forall|j: int|
                    0 <= j < entries@.len() && j != i ==> !entry_for(entries@[j], host@, connection@)),
        },
{
    let mut found: Option<usize> = None;
    let mut i: usize = 0;
    while i < entries.len()
        invariant
            i <= entries.len(),
            match found {
                Some(f) => f < i && entry_for(entries@[f as int], host@, connection@) && forall|j: int|
                    0 <= j < i && j != f ==> !entry_for(#[trigger] entries@[j], host@, connection@),
                None => forall|j: int| 0 <= j < i ==> !entry_for(#[trigger] entries@[j], host@, connection@),
            },
        decreases entries.len() - i,
    {
        let e = &entries[i];
        if eq_str(e.host.as_str(), host) && eq_str(e.connection.as_str(), connection) {
            match found {
                Some(f) => {
                    assert(entry_for(entries@[i as int], host@, connection@));
                    assert(entry_for(entries@[f as int], host@, connection@));
                    return None;
                },
                None => {
                    found = Some(i);
                },
            }
        }
        i = i + 1;
    }
    match found {
        Some(f) => {
            let e = entries[f as usize].duplicate();
            assert(entries@[f as int] == e);
            Some(e)
        },
        None => None,
    }
}

/// The engine stored with a session opened for completion: the engine
/// typed, or the session's when none was typed.
pub fn cache_engine(ctx: &CompletionContext, opened_engine: &str) -> (res: String)
    ensures
        res@ == if ctx.engine@.len() == 0 {
            opened_engine@
        } else {
            ctx.engine@
        },
{
    if ctx.engine.as_str().is_empty() {
        opened_engine.to_owned()
    } else {
        ctx.engine.clone()
    }
}

/// The database completion works in: the one typed, or the session's.
pub fn selected_database(ctx: &CompletionContext, fallback: String) -> (res: String)
    ensures
        res@ == if ctx.database@.len() == 0 {
            fallback@
        } else {
            ctx.database@
        },
{
    if ctx.database.as_str().is_empty() {
        fallback
    } else {
        ctx.database.clone()
    }
}

/// The file stem of a path, as `Path::file_stem` gives it, when it is
/// valid Unicode.
pub uninterp spec fn file_stem_text(path: Seq<char>) -> Option<Seq<char>>;

/// Wraps `Path::file_stem`.
#[verifier::external_body]
fn path_file_stem(path: &str) -> (res: Option<String>)
    ensures
        opt_text(res) == file_stem_text(path@),
{
    std::path::Path::new(path).file_stem().and_then(|stem| stem.to_str()).map(|stem| stem.to_owned())
}

/// Is the word the program's own path, whose file stem is `querypie`.
pub fn is_querypie_binary_word(word: &str) -> (res: bool)
    ensures
        res == (file_stem_text(word@) == Some("querypie"@)),
{
    match path_file_stem(word) {
        Some(stem) => eq_str(stem.as_str(), "querypie"),
        None => false,
    }
}

/// The index of the first `--` among the arguments.
pub open spec fn first_separator(args: Seq<Seq<char>>) -> Option<int>
    decreases args.len(),
{
    if args.len() == 0 {
        None
    } else {
        match first_separator(args.drop_last()) {
            Some(i) => Some(i),
            None => if args.last() == "--"@ {
                Some(args.len() - 1)
            } else {
                None
            },
        }
    }
}

/// The words being completed: the arguments after the first `--`, without
/// the program's own path in front.
pub open spec fn words_after_separator(args: Seq<Seq<char>>) -> Seq<Seq<char>> {
    let rest = match first_separator(args) {
        Some(i) => args.skip(i + 1),
        None => Seq::empty(),
    };
    if rest.len() > 0 && file_stem_text(rest[0]) == Some("querypie"@) {
        rest.drop_first()
    } else {
        rest
    }
}

/// The words being completed, from the program's arguments.
pub fn completion_words(args: &Vec<String>) -> (res: Vec<String>)
    ensures
        texts_of(res@) == words_after_separator(texts_of(args@)),
{
    let ghost av = texts_of(args@);
    let mut i: usize = 0;
    while i < args.len() && !eq_str(args[i].as_str(), "--")
        invariant
            i <= args.len(),
            av == texts_of(args@),
            first_separator(av.take(i as int)) is None,
        decreases args.len() - i,
    {
        assert(av.take(i as int + 1).drop_last() == av.take(i as int));
        i = i + 1;
    }
    proof {
        if i < args.len() {
            assert(av.take(i as int + 1).drop_last() == av.take(i as int));
            assert(first_separator(av.take(i as int + 1)) == Some(i as int));
            lemma_first_separator_prefix(av, i as int + 1);
        } else {
            assert(av.take(i as int) == av);
        }
    }
    let mut out: Vec<String> = Vec::new();
    let mut j: usize = if i < args.len() {
        i + 1
    } else {
        args.len()
    };
    let start = j;
    if j < args.len() && is_querypie_binary_word(args[j].as_str()) {
        j = j + 1;
    }
    let first = j;
    while j < args.len()
        invariant
            first <= j <= args.len(),
            av == texts_of(args@),
            texts_of(out@) == av.subrange(first as int, j as int),
        decreases args.len() - j,
    {
        out.push(args[j].clone());
        assert(av.subrange(first as int, j + 1) == av.subrange(first as int, j as int).push(av[j as int]));
        j = j + 1;
    }
    proof {
        let rest = match first_separator(av) {
            Some(k) => av.skip(k + 1),
            None => Seq::empty(),
        };
        assert(rest == av.subrange(start as int, av.len() as int));
        if first > start {
            assert(rest.drop_first() == av.subrange(first as int, av.len() as int));
        }
    }
    out
}

proof fn lemma_first_separator_prefix(args: Seq<Seq<char>>, n: int)
    requires
        0 <= n <= args.len(),
        first_separator(args.take(n)) is Some,
    ensures
        first_separator(args) == first_separator(args.take(n)),
    decreases args.len() - n,
{
    if n < args.len() {
        assert(args.take(n + 1).drop_last() == args.take(n));
        lemma_first_separator_prefix(args, n + 1);
    } else {
        assert(args.take(n) == args);
    }
}

/// The hosts to offer: the known ones and the host typed, sorted, each
/// once.
pub fn hosts(ctx: &CompletionContext, known: Vec<String>) -> (res: Vec<String>)
    ensures
        texts_of(res@) == keys(
            unique_sorted(
                if ctx.host@.len() == 0 {
                    texts_of(known@)
                } else {
                    texts_of(known@).push(ctx.host@)
                },
            ),
        ),
{
    let mut values = known;
    let ghost before = texts_of(values@);
    if !ctx.host.as_str().is_empty() {
        values.push(ctx.host.clone());
        assert(texts_of(values@) == before.push(ctx.host@));
    }
    sorted_unique(values)
}

/// The names of the connections.
pub open spec fn connection_names(conns: Seq<Connection>) -> Seq<Seq<char>> {
    conns.map_values(|c: Connection| c.name@)
}

/// The connection names to offer, sorted, each once.
pub fn connections(conns: &Vec<Connection>) -> (res: Vec<String>)
    ensures
        texts_of(res@) == keys(unique_sorted(connection_names(conns@))),
{
    let mut names: Vec<String> = Vec::new();
    let mut i: usize = 0;
    while i < conns.len()
        invariant
            i <= conns.len(),
            texts_of(names@) == connection_names(conns@.take(i as int)),
        decreases conns.len() - i,
    {
        names.push(conns[i].name.clone());
        assert(connection_names(conns@.take(i as int + 1)) == connection_names(conns@.take(i as int)).push(conns@[i as int].name@));
        assert(texts_of(names@) =~= connection_names(conns@.take(i as int + 1)));
        i = i + 1;
    }
    assert(conns@.take(conns.len() as int) == conns@);
    sorted_unique(names)
}

/// The engines of the connections whose names match the query.
pub open spec fn matching_engines(conns: Seq<Connection>, query: Seq<char>) -> Seq<Seq<char>>
    decreases conns.len(),
{
    if conns.len() == 0 {
        Seq::empty()
    } else {
        let rest = matching_engines(conns.drop_last(), query);
        let c = conns.last();
        if connection_match(c.name@, query) {
            rest.push(engine_name(c.db_type))
        } else {
            rest
        }
    }
}

/// The engines to offer: those of the connections matching the connection
/// typed, sorted, each once.
pub fn engines(conns: &Vec<Connection>, ctx: &CompletionContext) -> (res: Vec<String>)
    ensures
        texts_of(res@) == keys(unique_sorted(matching_engines(conns@, ctx.connection@))),
{
    let mut names: Vec<String> = Vec::new();
    let mut i: usize = 0;
    while i < conns.len()
        invariant
            i <= conns.len(),
            texts_of(names@) == matching_engines(conns@.take(i as int), ctx.connection@),
        decreases conns.len() - i,
    {
        assert(conns@.take(i as int + 1).drop_last() == conns@.take(i as int));
        if connection_matches(conns[i].name.as_str(), ctx.connection.as_str()) {
            names.push(conns[i].engine().to_owned());
        }
        assert(texts_of(names@) =~= matching_engines(conns@.take(i as int + 1), ctx.connection@));
        i = i + 1;
    }
    assert(conns@.take(conns.len() as int) == conns@);
    sorted_unique(names)
}

/// The engines offered are exactly the engines of the connections whose
/// names hold what was typed (ASCII case ignored) at some position, or of
/// every connection when nothing was typed: each such engine is offered,
/// and nothing else is.
pub proof fn law_offered_engines(conns: Seq<Connection>, typed: Seq<char>)
    ensures
        forall|i: int, pos: int|
            #![trigger lower(conns[i].name@).subrange(pos, pos + typed.len())]
            0 <= i < conns.len() && 0 <= pos && pos + typed.len() <= conns[i].name@.len() && lower(
                conns[i].name@,
            ).subrange(pos, pos + typed.len()) == lower(typed) ==> keys(
                unique_sorted(matching_engines(conns, typed)),
            ).contains(engine_name(conns[i].db_type)),
        is_blank(typed) ==> forall|i: int|
            0 <= i < conns.len() ==> keys(unique_sorted(matching_engines(conns, typed))).contains(
                engine_name((#[trigger] conns[i]).db_type),
            ),
        forall|e: Seq<char>|
            #![trigger keys(unique_sorted(matching_engines(conns, typed))).contains(e)]
            keys(unique_sorted(matching_engines(conns, typed))).contains(e) ==> exists|i: int|
                #![trigger conns[i]]
                0 <= i < conns.len() && engine_name(conns[i].db_type) == e && (is_blank(typed)
                    || exists|pos: int|
                    #![trigger lower(conns[i].name@).subrange(pos, pos + typed.len())]
                    0 <= pos && pos + typed.len() <= conns[i].name@.len() && lower(
                        conns[i].name@,
                    ).subrange(pos, pos + typed.len()) == lower(typed)),
{
    let me = matching_engines(conns, typed);
    let u = unique_sorted(me);
    lemma_sorted_unique_sorted(me);
    assert forall|i: int, pos: int|
        #![trigger lower(conns[i].name@).subrange(pos, pos + typed.len())]
        0 <= i < conns.len() && 0 <= pos && pos + typed.len() <= conns[i].name@.len() && lower(
            conns[i].name@,
        ).subrange(pos, pos + typed.len()) == lower(typed) implies keys(u).contains(
        engine_name(conns[i].db_type),
    ) by {
        assert(crate::text::occurs_at(lower(conns[i].name@), lower(typed), pos));
        lemma_matching_engines_contains(conns, typed, i);
        law_sorted_unique_members(me, engine_name(conns[i].db_type));
        lemma_keys_lookup(u, engine_name(conns[i].db_type));
    }
    if is_blank(typed) {
        assert forall|i: int| 0 <= i < conns.len() implies keys(u).contains(
            engine_name((#[trigger] conns[i]).db_type),
        ) by {
            lemma_matching_engines_contains(conns, typed, i);
            law_sorted_unique_members(me, engine_name(conns[i].db_type));
            lemma_keys_lookup(u, engine_name(conns[i].db_type));
        }
    }
    assert forall|e: Seq<char>| #[trigger] keys(u).contains(e) implies exists|i: int|
        #![trigger conns[i]]
        0 <= i < conns.len() && engine_name(conns[i].db_type) == e && (is_blank(typed)
            || exists|pos: int|
            #![trigger lower(conns[i].name@).subrange(pos, pos + typed.len())]
            0 <= pos && pos + typed.len() <= conns[i].name@.len() && lower(
                conns[i].name@,
            ).subrange(pos, pos + typed.len()) == lower(typed)) by {
        lemma_keys_lookup(u, e);
        law_sorted_unique_members(me, e);
        let m = choose|m: int| 0 <= m < me.len() && me[m] == e;
        lemma_matching_engines_members(conns, typed);
        let i = choose|i: int|
            0 <= i < conns.len() && connection_match((#[trigger] conns[i]).name@, typed) && engine_name(
                conns[i].db_type,
            ) == me[m];
        if !is_blank(typed) {
            let pos = choose|pos: int| crate::text::occurs_at(lower(conns[i].name@), lower(typed), pos);
            assert(lower(conns[i].name@).subrange(pos, pos + typed.len()) == lower(typed));
        }
        assert(conns[i] == conns[i]);
    }
}

/// A key is among the keys of a sorted sequence exactly when looking it up
/// finds it.
proof fn lemma_keys_lookup(s: Seq<(Seq<char>, ())>, x: Seq<char>)
    requires
        sorted_keys(s),
    ensures
        keys(s).contains(x) <==> lookup(s, x) is Some,
{
    if lookup(s, x) is Some {
        crate::keyed::lemma_lookup_some(s, x);
        let m = choose|m: int| 0 <= m < s.len() && s[m] == (x, lookup(s, x).unwrap());
        assert(keys(s)[m] == x);
    }
    if keys(s).contains(x) {
        let m = choose|m: int| 0 <= m < keys(s).len() && keys(s)[m] == x;
        crate::keyed::lemma_lookup_at(s, m);
    }
}

proof fn lemma_matching_engines_contains(conns: Seq<Connection>, typed: Seq<char>, i: int)
    requires
        0 <= i < conns.len(),
        connection_match(conns[i].name@, typed),
    ensures
        matching_engines(conns, typed).contains(engine_name(conns[i].db_type)),
    decreases conns.len(),
{
    let t = conns.drop_last();
    let e = engine_name(conns[i].db_type);
    if i == conns.len() - 1 {
        let r = matching_engines(t, typed).push(e);
        assert(r[r.len() - 1] == e);
    } else {
        assert(t[i] == conns[i]);
        lemma_matching_engines_contains(t, typed, i);
        let r = matching_engines(t, typed);
        let m = choose|m: int| 0 <= m < r.len() && r[m] == e;
        if connection_match(conns.last().name@, typed) {
            assert(r.push(engine_name(conns.last().db_type))[m] == e);
        }
    }
}

proof fn lemma_matching_engines_members(conns: Seq<Connection>, typed: Seq<char>)
    ensures
        forall|m: int|
            0 <= m < matching_engines(conns, typed).len() ==> exists|i: int|
                0 <= i < conns.len() && connection_match((#[trigger] conns[i]).name@, typed)
                    && engine_name(conns[i].db_type) == #[trigger] matching_engines(conns, typed)[m],
    decreases conns.len(),
{
    if conns.len() > 0 {
        let t = conns.drop_last();
        lemma_matching_engines_members(t, typed);
        let r = matching_engines(t, typed);
        let me = matching_engines(conns, typed);
        assert forall|m: int| 0 <= m < me.len() implies exists|i: int|
            0 <= i < conns.len() && connection_match((#[trigger] conns[i]).name@, typed)
                && engine_name(conns[i].db_type) == #[trigger] me[m] by {
            if m < r.len() {
                assert(me[m] == r[m]);
                let i = choose|i: int|
                    0 <= i < t.len() && connection_match((#[trigger] t[i]).name@, typed) && engine_name(
                        t[i].db_type,
                    ) == r[m];
                assert(t[i] == conns[i]);
            } else {
                let i = conns.len() - 1;
                assert(conns[i] == conns.last());
            }
        }
    }
}

/// The values that begin with what was typed, in order.
pub open spec fn completing(values: Seq<Seq<char>>, current: Option<Seq<char>>) -> Seq<Seq<char>>
    decreases values.len(),
{
    if values.len() == 0 {
        Seq::empty()
    } else {
        let rest = completing(values.drop_last(), current);
        if current matches Some(c) && has_prefix(values.last(), unquoted(c)) {
            rest.push(values.last())
        } else {
            rest
        }
    }
}

/// The candidates among the values for what was typed (none when it is
/// not valid Unicode).
pub fn complete(values: Vec<String>, current: Option<&str>) -> (res: Vec<String>)
    ensures
        texts_of(res@) == completing(
            texts_of(values@),
            match current {
                Some(c) => Some(c@),
                None => None,
            },
        ),
{
    let ghost cur = match current {
        Some(c) => Some(c@),
        None => None::<Seq<char>>,
    };
    let ghost vs = texts_of(values@);
    let mut out: Vec<String> = Vec::new();
    let mut i: usize = 0;
    while i < values.len()
        invariant
            i <= values.len(),
            vs == texts_of(values@),
            cur == match current {
                Some(c) => Some(c@),
                None => None::<Seq<char>>,
            },
            texts_of(out@) == completing(vs.take(i as int), cur),
        decreases values.len() - i,
    {
        assert(vs.take(i as int + 1).drop_last() == vs.take(i as int));
        if starts_with(values[i].as_str(), current) {
            out.push(values[i].clone());
        }
        assert(texts_of(out@) =~= completing(vs.take(i as int + 1), cur));
        i = i + 1;
    }
    assert(vs.take(values.len() as int) == vs);
    out
}

// ------------------------------------------------------------------
// Fetching the candidates
// ------------------------------------------------------------------
/// Where the fetching of candidates stands.
#[derive(Debug, Clone)]
pub enum CompletionPhase {
    /// The stored cookies are being read.
    Reading,
    /// The candidates are being listed with these cookies; `reopened` once
    /// a new session was opened, `refreshed` once the cookies were
    /// refreshed.
    Listing { cookie: String, reopened: bool, refreshed: bool },
    /// The cookies are being refreshed.
    Refreshing,
    Done,
}

/// What the caller reports back.
#[derive(Debug)]
pub enum CompletionEvent {
    Cookies(Result<Option<String>, Failure>),
    /// The candidates, or why there are none; `resolved` when a session was
    /// found or opened before the failure.
    Listed { result: Result<Vec<String>, Failure>, resolved: bool },
}

/// What the caller does next.
#[derive(Debug)]
pub enum CompletionAction {
    ReadCookie,
    RefreshCookie,
    /// List the candidates with the cookies; in a new session with
    /// `reopen`.
    List { cookie: String, reopen: bool },
    Finish(Result<Vec<String>, Failure>),
}

/// Do candidates of this kind need a database session.
pub open spec fn needs_session(kind: CompletionKind) -> bool {
    kind == CompletionKind::Database || kind == CompletionKind::Schema || kind == CompletionKind::Table
}

/// Starts fetching candidates of a kind that needs the server: none
/// without a connection when a session is needed, an error without a host.
pub fn complete_values(kind: CompletionKind, ctx: &CompletionContext) -> (res: (CompletionPhase, CompletionAction))
    requires
        kind != CompletionKind::Host,
    ensures
        if needs_session(kind) && ctx.connection@.len() == 0 {
            res.0 is Done && (res.1 matches CompletionAction::Finish(Ok(v)) && v@.len() == 0)
        } else if ctx.host@.len() == 0 {
            res.0 is Done && (res.1 matches CompletionAction::Finish(Err(Failure::Message(m))) && m@
                == "host is required"@)
        } else {
            res.0 is Reading && res.1 is ReadCookie
        },
{
    let session = kind == CompletionKind::Database || kind == CompletionKind::Schema || kind
        == CompletionKind::Table;
    if session && ctx.connection.as_str().is_empty() {
        return (CompletionPhase::Done, CompletionAction::Finish(Ok(Vec::new())));
    }
    if ctx.host.as_str().is_empty() {
        return (
            CompletionPhase::Done,
            CompletionAction::Finish(Err(Failure::Message("host is required".to_owned()))),
        );
    }
    (CompletionPhase::Reading, CompletionAction::ReadCookie)
}

/// Does the event answer what the phase waits for.
pub open spec fn completion_event_fits(phase: CompletionPhase, event: CompletionEvent) -> bool {
    match phase {
        CompletionPhase::Reading | CompletionPhase::Refreshing => event is Cookies,
        CompletionPhase::Listing { .. } => event is Listed,
        CompletionPhase::Done => false,
    }
}

/// The next step of fetching candidates of `kind`: a session that is gone
/// is opened again once per set of cookies, and expired cookies are
/// refreshed once.
pub fn completion_step(kind: CompletionKind, phase: CompletionPhase, event: CompletionEvent) -> (res: (
    CompletionPhase,
    CompletionAction,
))
    requires
        completion_event_fits(phase, event),
    ensures
        match (phase, event) {
            (CompletionPhase::Reading, CompletionEvent::Cookies(Err(e))) | (
                CompletionPhase::Refreshing,
                CompletionEvent::Cookies(Err(e)),
            ) => res.0 is Done && res.1 == CompletionAction::Finish(Err(e)),
            (CompletionPhase::Reading, CompletionEvent::Cookies(Ok(None))) => res.0 is Done && (
            res.1 matches CompletionAction::Finish(Err(Failure::Message(m))) && m@
                == "not logged in"@),
            (CompletionPhase::Refreshing, CompletionEvent::Cookies(Ok(None))) => res.0 is Done && (
            res.1 matches CompletionAction::Finish(Err(Failure::Message(m))) && m@
                == "refresh failed"@),
            (CompletionPhase::Reading, CompletionEvent::Cookies(Ok(Some(c)))) => res.0
                == CompletionPhase::Listing { cookie: c, reopened: false, refreshed: false }
                && res.1 == CompletionAction::List { cookie: c, reopen: false },
            (CompletionPhase::Refreshing, CompletionEvent::Cookies(Ok(Some(c)))) => res.0
                == CompletionPhase::Listing { cookie: c, reopened: false, refreshed: true }
                && res.1 == CompletionAction::List { cookie: c, reopen: false },
            (
                CompletionPhase::Listing { cookie, reopened, refreshed },
                CompletionEvent::Listed { result, resolved },
            ) => match result {
                Ok(v) => res.0 is Done && res.1 == CompletionAction::Finish(Ok(v)),
                Err(e) => if needs_session(kind) && resolved && !reopened && session_not_found(e) {
                    res.0 == CompletionPhase::Listing { cookie, reopened: true, refreshed }
                        && res.1 == CompletionAction::List { cookie, reopen: true }
                } else if !refreshed && auth_expired(e) {
                    res.0 is Refreshing && res.1 is RefreshCookie
                } else {
                    res.0 is Done && res.1 == CompletionAction::Finish(Err(e))
                },
            },
            _ => false,
        },
{
    match phase {
        CompletionPhase::Listing { cookie, reopened, refreshed } => {
            match event {
                CompletionEvent::Listed { result: Ok(v), .. } => (
                    CompletionPhase::Done,
                    CompletionAction::Finish(Ok(v)),
                ),
                CompletionEvent::Listed { result: Err(e), resolved } => {
                    let session = kind == CompletionKind::Database || kind == CompletionKind::Schema
                        || kind == CompletionKind::Table;
                    if session && resolved && !reopened && is_session_not_found(&e) {
                        (
                            CompletionPhase::Listing { cookie: cookie.clone(), reopened: true, refreshed },
                            CompletionAction::List { cookie, reopen: true },
                        )
                    } else if !refreshed && is_auth_expired(&e) {
                        (CompletionPhase::Refreshing, CompletionAction::RefreshCookie)
                    } else {
                        (CompletionPhase::Done, CompletionAction::Finish(Err(e)))
                    }
                },
                CompletionEvent::Cookies(_) => (CompletionPhase::Done, CompletionAction::ReadCookie),
            }
        },
        phase => {
            let refreshed = match phase {
                CompletionPhase::Refreshing => true,
                _ => false,
            };
            match event {
                CompletionEvent::Cookies(Err(e)) => (
                    CompletionPhase::Done,
                    CompletionAction::Finish(Err(e)),
                ),
                CompletionEvent::Cookies(Ok(None)) => {
                    let message = if refreshed {
                        "refresh failed"
                    } else {
                        "not logged in"
                    };
                    (
                        CompletionPhase::Done,
                        CompletionAction::Finish(Err(Failure::Message(message.to_owned()))),
                    )
                },
                CompletionEvent::Cookies(Ok(Some(c))) => (
                    CompletionPhase::Listing { cookie: c.clone(), reopened: false, refreshed },
                    CompletionAction::List { cookie: c, reopen: false },
                ),
                CompletionEvent::Listed { .. } => (CompletionPhase::Done, CompletionAction::ReadCookie),
            }
        },
    }
}

} // verus!
