//! A host's authentication: the decisions of checking, reading and
//! renewing its session cookies. The caller does the outside work each
//! decision asks for (running a child process, calling QueryPie, opening
//! the login webview) and reports what came of it.
use vstd::prelude::*;
use crate::auth::status::{AuthCheck, AuthState};
use crate::auth::AuthSession;
use crate::failure::{auth_expired, Failure};
pub use crate::failure::is_auth_expired;
use crate::paths::{normalize_host, normalized_host};
use crate::text::{append, chars_of, is_blank, is_blank_str, string_of, trim, trim_vec};

verus! {

/// The authentication of one host.
#[derive(Debug, Clone)]
pub struct AuthService {
    host: String,
}

/// The message of a missing host.
pub open spec fn host_required_text() -> Seq<char> {
    "auth: host is required"@
}

impl AuthService {
    /// The normalized host this service authenticates.
    pub closed spec fn host_spec(self) -> String {
        self.host
    }

    /// A service for the host, normalized; a blank host is refused.
    pub fn new(host: &str) -> (res: Result<AuthService, Failure>)
        ensures
            match res {
                Ok(s) => !is_blank(normalized_host(host@)) && s.host_spec()@ == normalized_host(
                    host@,
                ),
                Err(e) => is_blank(normalized_host(host@)) && (e matches Failure::Message(m)
                    && m@ == host_required_text()),
            },
    {
        let host = normalize_host(host);
        if is_blank_str(host.as_str()) {
            return Err(Failure::Message("auth: host is required".to_owned()));
        }
        Ok(AuthService { host })
    }

    /// The host.
    pub fn host(&self) -> (res: &String)
        ensures
            *res == self.host_spec(),
    {
        &self.host
    }

    /// The session of cookies that were found valid for this host.
    pub fn session_from_cookies(&self, cookies: String) -> (res: AuthSession)
        ensures
            res == (AuthSession { host: self.host_spec(), cookies }),
    {
        AuthSession { host: self.host.clone(), cookies }
    }
}

/// What QueryPie said of a set of cookies.
#[derive(Debug, Clone)]
pub enum Verdict {
    /// A call with them succeeded.
    Valid,
    /// The access token expired.
    Refused,
    /// The call failed otherwise.
    Failed(Failure),
}

/// The verdict on cookies from the outcome of a call made with them.
pub fn verdict_of(outcome: Result<(), Failure>) -> (res: Verdict)
    ensures
        match outcome {
            Ok(()) => res is Valid,
            Err(e) => if auth_expired(e) {
                res is Refused
            } else {
                res == Verdict::Failed(e)
            },
        },
{
    match outcome {
        Ok(()) => Verdict::Valid,
        Err(e) => if is_auth_expired(&e) {
            Verdict::Refused
        } else {
            Verdict::Failed(e)
        },
    }
}

/// The text of bytes that are valid UTF-8 (`None` otherwise), as
/// `String::from_utf8` decodes them.
pub uninterp spec fn utf8_text(bytes: Seq<u8>) -> Option<Seq<char>>;

/// Wraps `String::from_utf8`: the text of valid UTF-8, or the error's
/// message.
#[verifier::external_body]
fn decode_utf8(bytes: Vec<u8>) -> (res: Result<String, String>)
    ensures
        match res {
            Ok(s) => utf8_text(bytes@) == Some(s@),
            Err(_) => utf8_text(bytes@) is None,
        },
{
    String::from_utf8(bytes).map_err(|err| err.to_string())
}

/// The cookies that a child process printed: the trimmed output, or none
/// when it is blank; output that is not UTF-8 is an error.
pub fn cookie_from_stdout(stdout: Vec<u8>) -> (res: Result<Option<String>, Failure>)
    ensures
        match utf8_text(stdout@) {
            None => res is Err,
            Some(t) => match res {
                Ok(Some(c)) => trim(t).len() > 0 && c@ == trim(t),
                Ok(None) => trim(t).len() == 0,
                Err(_) => false,
            },
        },
{
    match decode_utf8(stdout) {
        Err(message) => Err(Failure::Message(message)),
        Ok(text) => {
            let t = trim_vec(&chars_of(text.as_str()));
            if t.len() == 0 {
                Ok(None)
            } else {
                Ok(Some(string_of(&t)))
            }
        },
    }
}

// ------------------------------------------------------------------
// Checking a host's login
// ------------------------------------------------------------------
/// Where a check stands.
#[derive(Debug, Clone, Copy, PartialEq, Eq, Structural)]
pub enum CheckPhase {
    /// The stored cookies are being read.
    Reading,
    /// The stored cookies are being tried.
    Validating,
    /// The cookies are being refreshed.
    Refreshing,
    /// The refreshed cookies are being tried.
    Revalidating,
    Done,
}

/// A check of a host's login.
#[derive(Debug, Clone)]
pub struct CheckFlow {
    pub host: String,
    pub phase: CheckPhase,
}

/// What the caller reports back to a check.
#[derive(Debug)]
pub enum CheckEvent {
    /// The cookies that were read or refreshed.
    Cookies(Result<Option<String>, Failure>),
    /// What QueryPie said of the cookies.
    Checked(Verdict),
}

/// What a check asks of the caller.
#[derive(Debug)]
pub enum CheckAction {
    ReadCookie,
    Validate(String),
    RefreshCookie,
    Finish(Result<AuthCheck, Failure>),
}

/// Does the event answer what the phase waits for.
pub open spec fn check_event_fits(phase: CheckPhase, event: CheckEvent) -> bool {
    match phase {
        CheckPhase::Reading | CheckPhase::Refreshing => event is Cookies,
        CheckPhase::Validating | CheckPhase::Revalidating => event is Checked,
        CheckPhase::Done => false,
    }
}

/// The result of a check that ends with `state`.
pub open spec fn checked(host: String, state: AuthState) -> CheckAction {
    CheckAction::Finish(Ok(AuthCheck { host, state }))
}

impl AuthService {
    /// Checks the host's login: missing when no cookies are stored, valid
    /// when QueryPie accepts them or their refresh, expired otherwise.
    pub fn check(&self) -> (res: (CheckFlow, CheckAction))
        ensures
            res.0 == (CheckFlow { host: self.host_spec(), phase: CheckPhase::Reading }),
            res.1 is ReadCookie,
    {
        (CheckFlow { host: self.host.clone(), phase: CheckPhase::Reading }, CheckAction::ReadCookie)
    }
}

impl CheckFlow {
    /// The next action of the check, given what the last one came to.
    pub fn step(&mut self, event: CheckEvent) -> (res: CheckAction)
        requires
            check_event_fits(old(self).phase, event),
        ensures
            final(self).host == old(self).host,
            match (old(self).phase, event) {
                (CheckPhase::Reading, CheckEvent::Cookies(Err(e))) => final(self).phase
                    == CheckPhase::Done && res == CheckAction::Finish(Err(e)),
                (CheckPhase::Reading, CheckEvent::Cookies(Ok(None))) => final(self).phase
                    == CheckPhase::Done && res == checked(old(self).host, AuthState::Missing),
                (CheckPhase::Reading, CheckEvent::Cookies(Ok(Some(c)))) => final(self).phase
                    == CheckPhase::Validating && res == CheckAction::Validate(c),
                (CheckPhase::Validating, CheckEvent::Checked(Verdict::Valid)) => final(self).phase
                    == CheckPhase::Done && res == checked(old(self).host, AuthState::Valid),
                (CheckPhase::Validating, CheckEvent::Checked(Verdict::Refused)) => final(self).phase == CheckPhase::Refreshing && res is RefreshCookie,
                (CheckPhase::Validating, CheckEvent::Checked(Verdict::Failed(e))) => final(self).phase == CheckPhase::Done && res == CheckAction::Finish(Err(e)),
                (CheckPhase::Refreshing, CheckEvent::Cookies(Err(e))) => final(self).phase
                    == CheckPhase::Done && res == CheckAction::Finish(Err(e)),
                (CheckPhase::Refreshing, CheckEvent::Cookies(Ok(None))) => final(self).phase
                    == CheckPhase::Done && res == checked(old(self).host, AuthState::Expired),
                (CheckPhase::Refreshing, CheckEvent::Cookies(Ok(Some(c)))) => final(self).phase
                    == CheckPhase::Revalidating && res == CheckAction::Validate(c),
                (CheckPhase::Revalidating, CheckEvent::Checked(Verdict::Valid)) => final(self).phase == CheckPhase::Done && res == checked(old(self).host, AuthState::Valid),
                (CheckPhase::Revalidating, CheckEvent::Checked(Verdict::Refused)) => final(self).phase == CheckPhase::Done && res == checked(old(self).host, AuthState::Expired),
                (CheckPhase::Revalidating, CheckEvent::Checked(Verdict::Failed(e))) => final(self).phase == CheckPhase::Done && res == CheckAction::Finish(Err(e)),
                _ => false,
            },
    {
        let phase = self.phase;
        self.phase = CheckPhase::Done;
        match event {
            CheckEvent::Cookies(Err(e)) => CheckAction::Finish(Err(e)),
            CheckEvent::Cookies(Ok(None)) => {
                if phase == CheckPhase::Reading {
                    CheckAction::Finish(Ok(AuthCheck::missing(self.host.clone())))
                } else {
                    CheckAction::Finish(Ok(AuthCheck::expired(self.host.clone())))
                }
            },
            CheckEvent::Cookies(Ok(Some(c))) => {
                if phase == CheckPhase::Reading {
                    self.phase = CheckPhase::Validating;
                } else {
                    self.phase = CheckPhase::Revalidating;
                }
                CheckAction::Validate(c)
            },
            CheckEvent::Checked(Verdict::Valid) => CheckAction::Finish(
                Ok(AuthCheck::valid(self.host.clone())),
            ),
            CheckEvent::Checked(Verdict::Refused) => {
                if phase == CheckPhase::Validating {
                    self.phase = CheckPhase::Refreshing;
                    CheckAction::RefreshCookie
                } else {
                    CheckAction::Finish(Ok(AuthCheck::expired(self.host.clone())))
                }
            },
            CheckEvent::Checked(Verdict::Failed(e)) => CheckAction::Finish(Err(e)),
        }
    }
}

// ------------------------------------------------------------------
// Getting cookies, logging in again when needed
// ------------------------------------------------------------------
/// Where the getting of cookies stands.
#[derive(Debug, Clone)]
pub enum CookiePhase {
    /// The stored cookies are being read, or refreshed.
    First,
    /// The caller looks for an earlier login of the host.
    History,
    /// The host's lock is taken and the stored cookies read again.
    Locked,
    /// These cookies are being tried.
    Validating(String),
    /// The login webview is open.
    LoggingIn,
    Done,
}

/// Getting a host's cookies: stored or refreshed ones, else those of a
/// new login when the host was logged in to before.
#[derive(Debug, Clone)]
pub struct CookieFlow {
    pub host: String,
    /// Refresh the cookies first, rather than read them.
    pub refresh: bool,
    pub phase: CookiePhase,
}

/// What the caller reports back.
#[derive(Debug)]
pub enum CookieEvent {
    Cookies(Result<Option<String>, Failure>),
    /// Whether the host was logged in to before.
    History(bool),
    Checked(Verdict),
    LoggedIn(Result<AuthSession, Failure>),
}

/// What the caller does next.
#[derive(Debug)]
pub enum CookieAction {
    ReadCookie,
    RefreshCookie,
    CheckHistory,
    /// Take the host's lock, hold it until the flow is done, and read the
    /// stored cookies.
    LockAndReadCookie,
    Validate(String),
    Login,
    Finish(Result<String, Failure>),
}

/// Does the event answer what the phase waits for.
pub open spec fn cookie_event_fits(phase: CookiePhase, event: CookieEvent) -> bool {
    match phase {
        CookiePhase::First | CookiePhase::Locked => event is Cookies,
        CookiePhase::History => event is History,
        CookiePhase::Validating(_) => event is Checked,
        CookiePhase::LoggingIn => event is LoggedIn,
        CookiePhase::Done => false,
    }
}

/// The message given when the host was never logged in to.
pub open spec fn no_login_text(host: Seq<char>, refresh: bool) -> Seq<char> {
    if refresh {
        "QueryPie session expired and refresh failed; run `querypie --host "@ + host
            + " auth login`"@
    } else {
        "not logged in to "@ + host + "; run `querypie --host "@ + host + " auth login` first"@
    }
}

fn no_login_message(host: &String, refresh: bool) -> (res: String)
    ensures
        res@ == no_login_text(host@, refresh),
{
    let h = chars_of(host.as_str());
    let mut t: Vec<char>;
    if refresh {
        t = chars_of("QueryPie session expired and refresh failed; run `querypie --host ");
        append(&mut t, &h);
        append(&mut t, &chars_of(" auth login`"));
    } else {
        t = chars_of("not logged in to ");
        append(&mut t, &h);
        append(&mut t, &chars_of("; run `querypie --host "));
        append(&mut t, &h);
        append(&mut t, &chars_of(" auth login` first"));
    }
    string_of(&t)
}

impl AuthService {
    /// The stored cookies, or those of a new login.
    pub fn read_or_login_cookie(&self) -> (res: (CookieFlow, CookieAction))
        ensures
            res.0 == (CookieFlow { host: self.host_spec(), refresh: false, phase: CookiePhase::First }),
            res.1 is ReadCookie,
    {
        (
            CookieFlow { host: self.host.clone(), refresh: false, phase: CookiePhase::First },
            CookieAction::ReadCookie,
        )
    }

    /// Refreshed cookies, or those of a new login.
    pub fn refresh_or_login_cookie(&self) -> (res: (CookieFlow, CookieAction))
        ensures
            res.0 == (CookieFlow { host: self.host_spec(), refresh: true, phase: CookiePhase::First }),
            res.1 is RefreshCookie,
    {
        (
            CookieFlow { host: self.host.clone(), refresh: true, phase: CookiePhase::First },
            CookieAction::RefreshCookie,
        )
    }
}

impl CookieFlow {
    /// The next action, given what the last one came to.
    pub fn step(&mut self, event: CookieEvent) -> (res: CookieAction)
        requires
            cookie_event_fits(old(self).phase, event),
        ensures
            final(self).host == old(self).host,
            final(self).refresh == old(self).refresh,
            match (old(self).phase, event) {
                (CookiePhase::First, CookieEvent::Cookies(Err(e))) => final(self).phase is Done
                    && res == CookieAction::Finish(Err(e)),
                (CookiePhase::First, CookieEvent::Cookies(Ok(Some(c)))) => final(self).phase is Done
                    && res == CookieAction::Finish(Ok(c)),
                (CookiePhase::First, CookieEvent::Cookies(Ok(None))) => final(self).phase is History
                    && res is CheckHistory,
                (CookiePhase::History, CookieEvent::History(false)) => final(self).phase is Done && (
                res matches CookieAction::Finish(Err(Failure::Message(m))) && m@ == no_login_text(
                    old(self).host@,
                    old(self).refresh,
                )),
                (CookiePhase::History, CookieEvent::History(true)) => final(self).phase is Locked
                    && res is LockAndReadCookie,
                (CookiePhase::Locked, CookieEvent::Cookies(Err(e))) => final(self).phase is Done
                    && res == CookieAction::Finish(Err(e)),
                (CookiePhase::Locked, CookieEvent::Cookies(Ok(None))) => final(self).phase is LoggingIn
                    && res is Login,
                (CookiePhase::Locked, CookieEvent::Cookies(Ok(Some(c)))) => final(self).phase
                    == CookiePhase::Validating(c) && res == CookieAction::Validate(c),
                (CookiePhase::Validating(c), CookieEvent::Checked(Verdict::Valid)) => final(self).phase is Done && res == CookieAction::Finish(Ok(c)),
                (CookiePhase::Validating(_), CookieEvent::Checked(Verdict::Refused)) => final(self).phase is LoggingIn && res is Login,
                (CookiePhase::Validating(_), CookieEvent::Checked(Verdict::Failed(e))) => final(self).phase is Done && res == CookieAction::Finish(Err(e)),
                (CookiePhase::LoggingIn, CookieEvent::LoggedIn(Ok(s))) => final(self).phase is Done
                    && res == CookieAction::Finish(Ok(s.cookies)),
                (CookiePhase::LoggingIn, CookieEvent::LoggedIn(Err(e))) => final(self).phase is Done
                    && res == CookieAction::Finish(Err(e)),
                _ => false,
            },
    {
        let mut phase = CookiePhase::Done;
        std::mem::swap(&mut phase, &mut self.phase);
        match event {
            CookieEvent::Cookies(Err(e)) => CookieAction::Finish(Err(e)),
            CookieEvent::Cookies(Ok(None)) => match phase {
                CookiePhase::First => {
                    self.phase = CookiePhase::History;
                    CookieAction::CheckHistory
                },
                _ => {
                    self.phase = CookiePhase::LoggingIn;
                    CookieAction::Login
                },
            },
            CookieEvent::Cookies(Ok(Some(c))) => match phase {
                CookiePhase::First => CookieAction::Finish(Ok(c)),
                _ => {
                    self.phase = CookiePhase::Validating(c.clone());
                    CookieAction::Validate(c)
                },
            },
            CookieEvent::History(seen) => {
                if seen {
                    self.phase = CookiePhase::Locked;
                    CookieAction::LockAndReadCookie
                } else {
                    CookieAction::Finish(
                        Err(Failure::Message(no_login_message(&self.host, self.refresh))),
                    )
                }
            },
            CookieEvent::Checked(Verdict::Valid) => match phase {
                CookiePhase::Validating(c) => CookieAction::Finish(Ok(c)),
                _ => CookieAction::Login,
            },
            CookieEvent::Checked(Verdict::Refused) => {
                self.phase = CookiePhase::LoggingIn;
                CookieAction::Login
            },
            CookieEvent::Checked(Verdict::Failed(e)) => CookieAction::Finish(Err(e)),
            CookieEvent::LoggedIn(Ok(s)) => CookieAction::Finish(Ok(s.cookies)),
            CookieEvent::LoggedIn(Err(e)) => CookieAction::Finish(Err(e)),
        }
    }
}

} // verus!
