//! Authentication: the webview session's cookies, and the decisions that
//! read, refresh, check and renew them.
pub mod cookies;
pub mod error;
pub mod service;
pub mod status;

use vstd::prelude::*;
use crate::text::texts_of;
use crate::cli::completion::{keys, sorted_unique, unique_sorted};

verus! {

/// The cookie that holds the access token.
pub const AUTH_COOKIE: &'static str = "qp_access_token";

/// A logged-in session: the host and its `Cookie` header.
#[derive(Debug, Clone)]
pub struct AuthSession {
    pub host: String,
    pub cookies: String,
}

/// The hosts that were logged in to, from the webview profiles and the
/// session caches: sorted, each once.
pub fn known_hosts(profiles: Vec<String>, cached: Vec<String>) -> (res: Vec<String>)
    ensures
        texts_of(res@) == keys(unique_sorted(texts_of(profiles@) + texts_of(cached@))),
{
    let mut all = profiles;
    let ghost a = texts_of(all@);
    let mut i: usize = 0;
    while i < cached.len()
        invariant
            i <= cached.len(),
            texts_of(all@) == a + texts_of(cached@).take(i as int),
        decreases cached.len() - i,
    {
        let ghost before = all@;
        all.push(cached[i].clone());
        assert(texts_of(all@) == texts_of(before).push(cached@[i as int]@));
        assert(texts_of(cached@).take(i as int + 1) == texts_of(cached@).take(i as int).push(
            cached@[i as int]@,
        ));
        assert(texts_of(all@) =~= a + texts_of(cached@).take(i as int + 1));
        i = i + 1;
    }
    assert(texts_of(cached@).take(cached.len() as int) == texts_of(cached@));
    sorted_unique(all)
}

} // verus!
