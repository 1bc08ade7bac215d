//! Host names and the file names derived from them.
use vstd::prelude::*;
use crate::text::{
    chars_of, concat, is_blank, is_blank_str, sanitize, sanitize_vec, string_of, strip_prefixes,
    strip_prefixes_vec, strip_suffix_chars, strip_suffix_chars_vec, trim, trim_str,
};

verus! {

/// A host as given by the user, with surrounding white space, any leading
/// `https://` and `http://` and any trailing `/` removed.
pub open spec fn normalized_host(host: Seq<char>) -> Seq<char> {
    strip_suffix_chars(strip_prefixes(strip_prefixes(trim(host), "https://"@), "http://"@), '/')
}

/// The file stem used for a host's files: the normalized host with `/`
/// and `:` replaced by `_`.
pub open spec fn host_stem(host: Seq<char>) -> Seq<char> {
    sanitize(normalized_host(host))
}

/// The host without surrounding whitespace, `https://` or `http://` in
/// front, or `/` at the end.
pub fn normalize_host(host: &str) -> (res: String)
    ensures
        res@ == normalized_host(host@),
{
    let v = normalize_host_chars(host);
    string_of(&v)
}

/// The characters of the normalized host.
pub fn normalize_host_chars(host: &str) -> (res: Vec<char>)
    ensures
        res@ == normalized_host(host@),
{
    let t = trim_str(host);
    let https = chars_of("https://");
    let http = chars_of("http://");
    proof {
        reveal_strlit("https://");
        reveal_strlit("http://");
    }
    let a = strip_prefixes_vec(&t, &https);
    let b = strip_prefixes_vec(&a, &http);
    strip_suffix_chars_vec(&b, '/')
}

/// The file stem of a host's lock and cache files.
pub fn host_file_stem(host: &str) -> (res: String)
    ensures
        res@ == host_stem(host@),
{
    let v = normalize_host_chars(host);
    let s = sanitize_vec(&v);
    string_of(&s)
}

/// The name of a host's lock file: the host's file stem followed by `.lock`.
pub fn host_lock_file_name(host: &str) -> (res: String)
    ensures
        res@ == host_stem(host@) + ".lock"@,
{
    let v = normalize_host_chars(host);
    let s = sanitize_vec(&v);
    let ext = chars_of(".lock");
    let name = concat(&s, &ext);
    string_of(&name)
}

/// The name of a host's session cache file: the host's file stem followed
/// by `.json`.
pub fn host_cache_file_name(host: &str) -> (res: String)
    ensures
        res@ == host_stem(host@) + ".json"@,
{
    let v = normalize_host_chars(host);
    let s = sanitize_vec(&v);
    let ext = chars_of(".json");
    let name = concat(&s, &ext);
    string_of(&name)
}

/// The directory name of a host's webview profile: the host with `/` and
/// `:` replaced by `_`.
pub fn webview_dir_name(host: &str) -> (res: String)
    ensures
        res@ == sanitize(host@),
{
    let v = chars_of(host);
    let s = sanitize_vec(&v);
    string_of(&s)
}

/// The value of a directory environment variable, kept only when it is not
/// blank.
pub fn env_dir(value: Option<String>) -> (res: Option<String>)
    ensures
        match value {
            Some(v) => if is_blank(v@) {
                res is None
            } else {
                res == Some(v)
            },
            None => res is None,
        },
{
    match value {
        Some(v) => {
            if is_blank_str(v.as_str()) {
                None
            } else {
                Some(v)
            }
        },
        None => None,
    }
}

} // verus!
