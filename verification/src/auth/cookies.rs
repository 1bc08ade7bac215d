//! The webview's cookies: the `Cookie` header made of them, whether it
//! holds the access token, and the decisions of a token refresh.
use vstd::prelude::*;
use crate::auth::service::Verdict;
use crate::auth::AUTH_COOKIE;
use crate::failure::Failure;
use crate::keyed::{sorted_keys, upsert};
use crate::qpapi::grpcweb::{jar_insert, jar_view, CookieJar};
use crate::text::{
    append, chars_of, eq_chars, join, split, split_once, split_once_vec, split_vec, string_of,
    trim, trim_vec,
};

verus! {

/// Does a `;`-separated part of a `Cookie` header, trimmed, name the
/// cookie `name` with a value that is not blank.
pub open spec fn names_cookie(part: Seq<char>, name: Seq<char>) -> bool {
    split_once(trim(part), '=') matches Some((n, v)) && trim(n) == name && trim(v).len() > 0
}

/// Does some part of the header name the cookie `name` with a value.
pub open spec fn has_cookie_text(cookies: Seq<char>, name: Seq<char>) -> bool {
    exists|i: int|
        0 <= i < split(cookies, ';').len() && names_cookie(#[trigger] split(cookies, ';')[i], name)
}

/// Does the `Cookie` header hold the cookie `name` with a value.
pub fn has_cookie(cookies: &str, name: &str) -> (res: bool)
    ensures
        res == has_cookie_text(cookies@, name@),
{
    let text = chars_of(cookies);
    let wanted = chars_of(name);
    let parts = split_vec(&text, ';');
    let ghost ps = split(cookies@, ';');
    assert(parts@.map_values(|p: Vec<char>| p@) == ps);
    let mut i: usize = 0;
    while i < parts.len()
        invariant
            i <= parts.len(),
            parts@.map_values(|p: Vec<char>| p@) == ps,
            ps == split(cookies@, ';'),
            wanted@ == name@,
            forall|k: int| 0 <= k < i ==> !names_cookie(#[trigger] ps[k], name@),
        decreases parts.len() - i,
    {
        assert(parts@[i as int]@ == ps[i as int]);
        assert(ps.len() == parts@.len());
        let part = trim_vec(&parts[i]);
        match split_once_vec(&part, '=') {
            Some((raw_name, raw_value)) => {
                let n = trim_vec(&raw_name);
                let v = trim_vec(&raw_value);
                if eq_chars(&n, &wanted) && v.len() > 0 {
                    assert(names_cookie(ps[i as int], name@));
                    assert(names_cookie(split(cookies@, ';')[i as int], name@));
                    return true;
                }
                assert(!names_cookie(ps[i as int], name@));
            },
            None => {},
        }
        i = i + 1;
    }
    false
}

/// The cookies kept from a list of name and value pairs: those with a
/// value, sorted by name, a later value replacing an earlier one.
pub open spec fn header_jar(pairs: Seq<(Seq<char>, Seq<char>)>) -> Seq<(Seq<char>, Seq<char>)>
    decreases pairs.len(),
{
    if pairs.len() == 0 {
        Seq::empty()
    } else {
        let acc = header_jar(pairs.drop_last());
        let p = pairs.last();
        if p.1.len() == 0 {
            acc
        } else {
            upsert(acc, p.0, p.1)
        }
    }
}

/// `name=value`.
pub open spec fn pair_text(p: (Seq<char>, Seq<char>)) -> Seq<char> {
    p.0 + "="@ + p.1
}

/// The `Cookie` header of the pairs: each `name=value`, joined with `; `,
/// or none when no cookie has a value.
pub open spec fn cookie_header_of(pairs: Seq<(Seq<char>, Seq<char>)>) -> Option<Seq<char>> {
    let text = join(header_jar(pairs).map_values(|p: (Seq<char>, Seq<char>)| pair_text(p)), "; "@);
    if text.len() == 0 {
        None
    } else {
        Some(text)
    }
}

/// The pairs by their texts.
pub open spec fn pairs_view(pairs: Seq<(String, String)>) -> Seq<(Seq<char>, Seq<char>)> {
    pairs.map_values(|p: (String, String)| (p.0@, p.1@))
}

/// The `Cookie` header made of the webview's cookies, given as name and
/// value pairs.
pub fn cookie_header(pairs: &Vec<(String, String)>) -> (res: Option<String>)
    ensures
        match res {
            Some(h) => cookie_header_of(pairs_view(pairs@)) == Some(h@),
            None => cookie_header_of(pairs_view(pairs@)) is None,
        },
{
    let ghost pv = pairs_view(pairs@);
    let mut jar: CookieJar = Vec::new();
    let mut i: usize = 0;
    assert(pv.take(0) =~= Seq::<(Seq<char>, Seq<char>)>::empty());
    while i < pairs.len()
        invariant
            i <= pairs.len(),
            pv == pairs_view(pairs@),
            jar_view(jar@) == header_jar(pv.take(i as int)),
            sorted_keys(jar_view(jar@)),
        decreases pairs.len() - i,
    {
        assert(pv.take(i as int + 1).drop_last() == pv.take(i as int));
        let name = chars_of(pairs[i].0.as_str());
        let value = chars_of(pairs[i].1.as_str());
        if value.len() > 0 {
            jar_insert(&mut jar, &name, &value);
        }
        i = i + 1;
    }
    assert(pv.take(pairs.len() as int) == pv);
    let ghost jv = jar_view(jar@);
    let mut parts: Vec<Vec<char>> = Vec::new();
    let mut k: usize = 0;
    while k < jar.len()
        invariant
            k <= jar.len(),
            jv == jar_view(jar@),
            parts@.len() == k,
            forall|m: int| 0 <= m < k ==> #[trigger] parts@[m]@ == pair_text(jv[m]),
        decreases jar.len() - k,
    {
        let mut t = chars_of(jar[k].key.as_str());
        append(&mut t, &chars_of("="));
        append(&mut t, &chars_of(jar[k].value.as_str()));
        parts.push(t);
        k = k + 1;
    }
    assert(parts@.map_values(|p: Vec<char>| p@) =~= jv.map_values(
        |p: (Seq<char>, Seq<char>)| pair_text(p),
    ));
    let text = crate::text::join_vec(&parts, &chars_of("; "));
    if text.len() == 0 {
        None
    } else {
        Some(string_of(&text))
    }
}

/// The header, when it holds the access token.
pub open spec fn with_auth_cookie(header: Option<Seq<char>>) -> Option<Seq<char>> {
    match header {
        Some(h) => if has_cookie_text(h, AUTH_COOKIE@) {
            Some(h)
        } else {
            None
        },
        None => None,
    }
}

/// An optional text by its view.
pub open spec fn opt_text(o: Option<String>) -> Option<Seq<char>> {
    match o {
        Some(s) => Some(s@),
        None => None,
    }
}

/// The webview's `Cookie` header, kept only when it holds the access token.
pub fn read_cookies(header: Option<String>) -> (res: Option<String>)
    ensures
        opt_text(res) == with_auth_cookie(opt_text(header)),
{
    match header {
        Some(h) => if has_cookie(h.as_str(), AUTH_COOKIE) {
            Some(h)
        } else {
            None
        },
        None => None,
    }
}

/// Where a token refresh stands.
#[derive(Debug, Clone)]
pub enum RefreshPhase {
    /// The webview's cookies are being read.
    Reading,
    /// The caller decides whether these cookies need a refresh.
    Asking(String),
    /// The refresh token is being exchanged.
    Refreshing,
    /// The new cookies were set and are being read back.
    Rereading,
    Done,
}

/// What the caller reports back.
#[derive(Debug)]
pub enum RefreshEvent {
    /// The webview's `Cookie` header.
    Header(Result<Option<String>, Failure>),
    /// Whether the cookies need a refresh.
    Wanted(Result<bool, Failure>),
    /// The `Set-Cookie` headers of an accepted refresh.
    Refreshed(Result<Option<Vec<String>>, Failure>),
}

/// What the caller does next.
#[derive(Debug)]
pub enum RefreshAction {
    ReadHeader,
    AskRefresh(String),
    RefreshToken(String),
    /// Set these cookies in the webview, then read its header again.
    SetCookies(Vec<String>),
    Finish(Result<Option<String>, Failure>),
}

/// Does the event answer what the phase waits for.
pub open spec fn refresh_event_fits(phase: RefreshPhase, event: RefreshEvent) -> bool {
    match phase {
        RefreshPhase::Reading | RefreshPhase::Rereading => event is Header,
        RefreshPhase::Asking(_) => event is Wanted,
        RefreshPhase::Refreshing => event is Refreshed,
        RefreshPhase::Done => false,
    }
}

/// Refreshes the access token when the caller finds the cookies refused:
/// the cookies are read, kept when no refresh is wanted, exchanged
/// otherwise, and the new cookies are kept when they hold the access token.
pub fn refresh_cookies_if_needed() -> (res: (RefreshPhase, RefreshAction))
    ensures
        res.0 is Reading && res.1 is ReadHeader,
{
    (RefreshPhase::Reading, RefreshAction::ReadHeader)
}

/// Whether the caller wants a refresh, from the check of the cookies:
/// refused cookies want one, valid ones do not.
pub fn refresh_wanted_by(verdict: Verdict) -> (res: Result<bool, Failure>)
    ensures
        match verdict {
            Verdict::Valid => res == Ok::<bool, Failure>(false),
            Verdict::Refused => res == Ok::<bool, Failure>(true),
            Verdict::Failed(e) => res == Err::<bool, Failure>(e),
        },
{
    match verdict {
        Verdict::Valid => Ok(false),
        Verdict::Refused => Ok(true),
        Verdict::Failed(e) => Err(e),
    }
}

/// The next phase and action of a token refresh.
pub fn refresh_step(phase: RefreshPhase, event: RefreshEvent) -> (res: (RefreshPhase, RefreshAction))
    requires
        refresh_event_fits(phase, event),
    ensures
        match (phase, event) {
            (RefreshPhase::Reading, RefreshEvent::Header(Err(e))) => res.0 is Done && res.1
                == RefreshAction::Finish(Err(e)),
            (RefreshPhase::Reading, RefreshEvent::Header(Ok(None))) => res.0 is Done && res.1
                == RefreshAction::Finish(Ok(None)),
            (RefreshPhase::Reading, RefreshEvent::Header(Ok(Some(c)))) => res.0 == RefreshPhase::Asking(
                c,
            ) && res.1 == RefreshAction::AskRefresh(c),
            (RefreshPhase::Asking(_), RefreshEvent::Wanted(Err(e))) => res.0 is Done && res.1
                == RefreshAction::Finish(Err(e)),
            (RefreshPhase::Asking(c), RefreshEvent::Wanted(Ok(false))) => res.0 is Done && res.1
                == RefreshAction::Finish(Ok(Some(c))),
            (RefreshPhase::Asking(c), RefreshEvent::Wanted(Ok(true))) => res.0 is Refreshing
                && res.1 == RefreshAction::RefreshToken(c),
            (RefreshPhase::Refreshing, RefreshEvent::Refreshed(Err(e))) => res.0 is Done && res.1
                == RefreshAction::Finish(Err(e)),
            (RefreshPhase::Refreshing, RefreshEvent::Refreshed(Ok(None))) => res.0 is Done && res.1
                == RefreshAction::Finish(Ok(None)),
            (RefreshPhase::Refreshing, RefreshEvent::Refreshed(Ok(Some(s)))) => res.0 is Rereading
                && res.1 == RefreshAction::SetCookies(s),
            (RefreshPhase::Rereading, RefreshEvent::Header(Err(e))) => res.0 is Done && res.1
                == RefreshAction::Finish(Err(e)),
            (RefreshPhase::Rereading, RefreshEvent::Header(Ok(h))) => res.0 is Done && (res.1 matches RefreshAction::Finish(Ok(o)) && opt_text(o) == with_auth_cookie(opt_text(h))),
            _ => false,
        },
{
    match (phase, event) {
        (RefreshPhase::Reading, RefreshEvent::Header(Err(e))) => (
            RefreshPhase::Done,
            RefreshAction::Finish(Err(e)),
        ),
        (RefreshPhase::Reading, RefreshEvent::Header(Ok(None))) => (
            RefreshPhase::Done,
            RefreshAction::Finish(Ok(None)),
        ),
        (RefreshPhase::Reading, RefreshEvent::Header(Ok(Some(c)))) => (
            RefreshPhase::Asking(c.clone()),
            RefreshAction::AskRefresh(c),
        ),
        (RefreshPhase::Asking(_), RefreshEvent::Wanted(Err(e))) => (
            RefreshPhase::Done,
            RefreshAction::Finish(Err(e)),
        ),
        (RefreshPhase::Asking(c), RefreshEvent::Wanted(Ok(wanted))) => {
            if wanted {
                (RefreshPhase::Refreshing, RefreshAction::RefreshToken(c))
            } else {
                (RefreshPhase::Done, RefreshAction::Finish(Ok(Some(c))))
            }
        },
        (RefreshPhase::Refreshing, RefreshEvent::Refreshed(Err(e))) => (
            RefreshPhase::Done,
            RefreshAction::Finish(Err(e)),
        ),
        (RefreshPhase::Refreshing, RefreshEvent::Refreshed(Ok(None))) => (
            RefreshPhase::Done,
            RefreshAction::Finish(Ok(None)),
        ),
        (RefreshPhase::Refreshing, RefreshEvent::Refreshed(Ok(Some(s)))) => (
            RefreshPhase::Rereading,
            RefreshAction::SetCookies(s),
        ),
        (_, RefreshEvent::Header(Err(e))) => (RefreshPhase::Done, RefreshAction::Finish(Err(e))),
        (_, RefreshEvent::Header(Ok(h))) => (
            RefreshPhase::Done,
            RefreshAction::Finish(Ok(read_cookies(h))),
        ),
        (phase, _) => (phase, RefreshAction::ReadHeader),
    }
}

} // verus!
