//! The decisions around one HTTP exchange: which cookies go out, what the
//! jar keeps, where a redirect leads, how many attempts a send gets, which
//! failures are retried, and how the history records the result; and the
//! edits that the other commands make to the session.
use vstd::prelude::*;

use crate::bindings::{
    join_url, parse_url, to_lowercase, unicode_lowercase, url_joined, url_parsed,
};
use crate::model::cookies::{jar_after, set_cookie_of, cookie_header_of, CookieV};
use crate::model::{
    cookie_header, header_lookup, header_present, header_without, parse_set_cookie, update_jar,
    var_lookup, var_without, Cookie, Request, RequestV, ResponseRecord, ResponseV, State,
    StateV,
};
use crate::text::{chars_of, eq_ci, eq_ci_exec, same, string_from, tail};
use super::commands::{Command, CommandV, ParseResult};
use vstd::string::StringExecFns;

verus! {

// ---------------------------------------------------------------------------
// Attempts and retries
// ---------------------------------------------------------------------------

/// 5xx statuses worth retrying: all but 501, 505, 506 and 510, which describe
/// a permanent property of the server or the request.
pub open spec fn transient(status: u16) -> bool {
    status >= 500 && status != 501 && status != 505 && status != 506 && status != 510
}

pub fn transient_5xx(status: u16) -> (r: bool)
    ensures
        r == transient(status),
{
    status >= 500 && !(status == 501 || status == 505 || status == 506 || status == 510)
}

/// The attempt budget of a send: `--retry N` gives N extra attempts; an
/// `--until` poll without `--retry` gets 10; an explicit `--retry 0` caps a
/// poll at one attempt.
pub open spec fn attempt_budget(until: bool, retry: Option<u32>) -> nat {
    if until && retry is None {
        10
    } else {
        match retry {
            Some(n) => if n == u32::MAX {
                u32::MAX as nat
            } else {
                (n + 1) as nat
            },
            None => 1,
        }
    }
}

pub fn max_attempts(until: bool, retry: Option<u32>) -> (r: u32)
    ensures
        r == attempt_budget(until, retry),
        r >= 1,
{
    if until && retry.is_none() {
        10
    } else {
        match retry {
            Some(n) => n.saturating_add(1),
            None => 1,
        }
    }
}

/// What follows an attempt that produced a response.
#[derive(Debug, Clone, Copy, PartialEq, Eq)]
pub enum AfterResponse {
    /// Record the exchange; the send is done.
    Record,
    /// Record the exchange, then fail: an `--until` poll ran out of attempts.
    RecordThenFail,
    /// Try again.
    Retry,
}

/// `until`: whether the `--until` condition held on this response (None
/// without `--until`). A poll repeats until the condition holds or the
/// budget is spent (the last response is still recorded); otherwise a
/// transient 5xx is retried while attempts remain.
pub open spec fn after_response(until: Option<bool>, status: u16, attempt: u32, max: u32) -> AfterResponse {
    match until {
        Some(true) => AfterResponse::Record,
        Some(false) => if attempt >= max {
            AfterResponse::RecordThenFail
        } else {
            AfterResponse::Retry
        },
        None => if transient(status) && attempt < max {
            AfterResponse::Retry
        } else {
            AfterResponse::Record
        },
    }
}

pub fn decide_after_response(until: Option<bool>, status: u16, attempt: u32, max: u32) -> (r: AfterResponse)
    ensures
        r == after_response(until, status, attempt, max),
{
    match until {
        Some(true) => AfterResponse::Record,
        Some(false) => if attempt >= max {
            AfterResponse::RecordThenFail
        } else {
            AfterResponse::Retry
        },
        None => if transient_5xx(status) && attempt < max {
            AfterResponse::Retry
        } else {
            AfterResponse::Record
        },
    }
}

/// A failed attempt (no response) is retried while attempts remain, unless
/// the failure is permanent (a malformed URL, method or header).
pub open spec fn retries_failure(attempt: u32, max: u32, permanent: bool) -> bool {
    attempt < max && !permanent
}

pub fn retry_after_failure(attempt: u32, max: u32, permanent: bool) -> (r: bool)
    ensures
        r == retries_failure(attempt, max, permanent),
{
    attempt < max && !permanent
}

/// The first 4xx/5xx status of the run is remembered for the `fail` verdict.
pub open spec fn first_failure(seen: Option<u16>, status: u16) -> Option<u16> {
    if seen is None && status >= 400 {
        Some(status)
    } else {
        seen
    }
}

pub fn remember_failure(seen: Option<u16>, status: u16) -> (r: Option<u16>)
    ensures
        r == first_failure(seen, status),
{
    if seen.is_none() && status >= 400 {
        Some(status)
    } else {
        seen
    }
}

/// How the run ends: the error that aborted it; else, under `fail`, an error
/// naming the first 4xx/5xx status; else what remains to be shown.
pub fn final_verdict(
    chain_error: Option<String>,
    fail_on_error: bool,
    http_failure: Option<u16>,
    shown: ParseResult,
) -> (r: Result<ParseResult, String>)
    ensures
        r is Ok <==> (chain_error is None && !(fail_on_error && http_failure is Some)),
        chain_error matches Some(m) ==> r matches Err(e) && e@ == m@,
        r matches Ok(p) ==> p == shown,
{
    match chain_error {
        Some(m) => Err(m),
        None => match (fail_on_error, http_failure) {
            (true, Some(status)) => {
                let mut m = string_from("error: request failed with status ");
                m.append(crate::text::string_of(crate::text::decimal_exec(status as u128).as_slice()).as_str());
                Err(m)
            },
            _ => Ok(shown),
        },
    }
}

// ---------------------------------------------------------------------------
// Cookies
// ---------------------------------------------------------------------------

/// Host (lowercased), path and https-ness of a request URL: what cookie
/// matching needs. None when the URL is unset, unparseable or has no host.
pub open spec fn url_target(url: Option<Seq<char>>) -> Option<(Seq<char>, Seq<char>, bool)> {
    match url {
        None => None,
        Some(u) => match url_parsed(u) {
            None => None,
            Some(p) => match p.host {
                None => None,
                Some(h) => Some((unicode_lowercase(h), p.path, p.scheme == "https"@)),
            },
        },
    }
}

pub fn url_parts(url: Option<&str>) -> (r: Option<(String, String, bool)>)
    ensures
        r matches Some((h, p, s)) ==> url_target(url.deep_view()) == Some((h@, p@, s)),
        r is None ==> url_target(url.deep_view()) is None,
{
    let u = match url {
        Some(u) => u,
        None => return None,
    };
    let parsed = match parse_url(u) {
        Some(p) => p,
        None => return None,
    };
    let host = match &parsed.host {
        Some(h) => to_lowercase(h.as_str()),
        None => return None,
    };
    let https = same(chars_of(parsed.scheme.as_str()).as_slice(), chars_of("https").as_slice());
    Some((host, parsed.path, https))
}

/// The request as it is sent: a Cookie header from the jar is added unless
/// the user set one (a user-set Cookie header always wins).
pub open spec fn with_cookies(req: RequestV, jar: Seq<CookieV>) -> RequestV {
    if header_lookup(req.headers, "cookie"@) is Some {
        req
    } else {
        match url_target(req.url) {
            None => req,
            Some((h, p, s)) => match cookie_header_of(jar, h, p, s) {
                None => req,
                Some(v) => RequestV {
                    headers: header_without(req.headers, "Cookie"@).push(("Cookie"@, v)),
                    ..req
                },
            },
        }
    }
}

pub fn with_session_cookies(request: &Request, jar: &[Cookie]) -> (r: Request)
    ensures
        r@ == with_cookies(request@, jar.deep_view()),
{
    let mut out = request.duplicate();
    if request.headers.get("cookie").is_none() {
        let url = match &request.url {
            Some(u) => Some(u.as_str()),
            None => None,
        };
        assert(url.deep_view() == request@.url);
        if let Some((host, path, https)) = url_parts(url) {
            if let Some(header) = cookie_header(jar, host.as_str(), path.as_str(), https) {
                out.headers.insert(string_from("Cookie"), header);
            }
        }
    }
    out
}

/// The jar after the Set-Cookie values of one response, and whether any of
/// them changed it.
pub open spec fn absorb_all(jar: Seq<CookieV>, raws: Seq<Seq<char>>, host: Seq<char>, path: Seq<char>) -> (Seq<CookieV>, bool)
    decreases raws.len(),
{
    if raws.len() == 0 {
        (jar, false)
    } else {
        let (j, m) = absorb_all(jar, raws.drop_last(), host, path);
        match set_cookie_of(raws.last(), host, path) {
            Some(u) => (jar_after(j, u), true),
            None => (j, m),
        }
    }
}

pub open spec fn absorbed(jar: Seq<CookieV>, url: Option<Seq<char>>, raws: Seq<Seq<char>>) -> (Seq<CookieV>, bool) {
    match url_target(url) {
        None => (jar, false),
        Some((h, p, _)) => absorb_all(jar, raws, h, p),
    }
}

/// Parses the raw Set-Cookie values of a response into the jar; true when
/// one of them was a valid update.
pub fn absorb_cookies(jar: &mut Vec<Cookie>, url: Option<&str>, raw: &[String]) -> (modified: bool)
    ensures
        (final(jar).deep_view(), modified) == absorbed(old(jar).deep_view(), url.deep_view(), raw.deep_view()),
{
    let (host, path, _) = match url_parts(url) {
        Some(t) => t,
        None => return false,
    };
    let ghost j0 = jar.deep_view();
    let mut modified = false;
    let mut i: usize = 0;
    while i < raw.len()
        invariant
            i <= raw@.len(),
            (jar.deep_view(), modified) == absorb_all(j0, raw.deep_view().take(i as int), host@, path@),
        decreases raw@.len() - i,
    {
        assert(raw.deep_view().take(i + 1).drop_last() =~= raw.deep_view().take(i as int));
        assert(raw.deep_view()[i as int] == raw@[i as int]@);
        match parse_set_cookie(raw[i].as_str(), host.as_str(), path.as_str()) {
            Some(update) => {
                update_jar(jar, update);
                modified = true;
            },
            None => {},
        }
        i += 1;
    }
    assert(raw.deep_view().take(raw@.len() as int) =~= raw.deep_view());
    modified
}

// ---------------------------------------------------------------------------
// Redirects
// ---------------------------------------------------------------------------

pub open spec fn is_redirect(status: u16) -> bool {
    status == 301 || status == 302 || status == 303 || status == 307 || status == 308
}

/// The next request of a redirect (`curl -L` semantics), or None when the
/// response is no followable redirect. 303 switches to GET (HEAD stays HEAD);
/// 301/302 do so only for POST; 307/308 keep method and body. When the body
/// is dropped its Content-Type goes with it. On a cross-host redirect the
/// Authorization and Cookie headers are stripped.
pub open spec fn redirect_of(cur: RequestV, status: u16, location: Option<Seq<char>>) -> Option<RequestV> {
    if !is_redirect(status) {
        None
    } else {
        match (location, cur.url) {
            (Some(loc), Some(u)) => match (url_parsed(u), url_joined(u, loc)) {
                (Some(base), Some(next)) => {
                    let m = match cur.method {
                        Some(m) => m,
                        None => "GET"@,
                    };
                    let to_get = (status == 303 && !eq_ci(m, "HEAD"@)) || ((status == 301 || status
                        == 302) && eq_ci(m, "POST"@));
                    let r1 = if to_get {
                        RequestV {
                            method: Some("GET"@),
                            body: None,
                            headers: header_without(cur.headers, "content-type"@),
                            ..cur
                        }
                    } else {
                        cur
                    };
                    let r2 = if base.host != next.host {
                        RequestV {
                            headers: header_without(
                                header_without(r1.headers, "authorization"@),
                                "cookie"@,
                            ),
                            ..r1
                        }
                    } else {
                        r1
                    };
                    Some(RequestV { url: Some(next.serialized), ..r2 })
                },
                _ => None,
            },
            _ => None,
        }
    }
}

pub fn redirect_target(current: &Request, status: u16, location: Option<&str>) -> (r: Option<Request>)
    ensures
        r matches Some(n) ==> redirect_of(current@, status, location.deep_view()) == Some(n@),
        r is None ==> redirect_of(current@, status, location.deep_view()) is None,
{
    if !(status == 301 || status == 302 || status == 303 || status == 307 || status == 308) {
        return None;
    }
    let loc = match location {
        Some(l) => l,
        None => return None,
    };
    let url = match &current.url {
        Some(u) => u,
        None => return None,
    };
    let base = match parse_url(url.as_str()) {
        Some(b) => b,
        None => return None,
    };
    let next_url = match join_url(url.as_str(), loc) {
        Some(n) => n,
        None => return None,
    };
    let mut next = current.duplicate();
    let method = match &current.method {
        Some(m) => chars_of(m.as_str()),
        None => chars_of("GET"),
    };
    let to_get = (status == 303 && !eq_ci_exec(method.as_slice(), chars_of("HEAD").as_slice())) || (
    (status == 301 || status == 302) && eq_ci_exec(method.as_slice(), chars_of("POST").as_slice()));
    if to_get {
        next.method = Some(string_from("GET"));
        next.body = None;
        next.headers.remove("content-type");
    }
    let same_host = match (&base.host, &next_url.host) {
        (Some(a), Some(b)) => same(chars_of(a.as_str()).as_slice(), chars_of(b.as_str()).as_slice()),
        (None, None) => true,
        _ => false,
    };
    if !same_host {
        next.headers.remove("authorization");
        next.headers.remove("cookie");
    }
    next.url = Some(next_url.serialized);
    Some(next)
}

// ---------------------------------------------------------------------------
// The history
// ---------------------------------------------------------------------------

/// The session after an exchange is recorded: a send starts a fresh history,
/// a `then` appends to it; the request and its response share an index.
pub open spec fn recorded(st: StateV, request: RequestV, response: ResponseV, fresh: bool) -> StateV {
    let (requests, responses) = if fresh {
        (Seq::empty(), Seq::empty())
    } else {
        (st.requests, st.responses)
    };
    StateV { requests: requests.push(request), responses: responses.push(response), ..st }
}

pub fn record_exchange(state: &mut State, request: Request, response: ResponseRecord, fresh: bool)
    ensures
        final(state)@ == recorded(old(state)@, request@, response@, fresh),
{
    if fresh {
        state.requests = Vec::new();
        state.responses = Vec::new();
        assert(state.requests.deep_view() =~= Seq::<RequestV>::empty());
        assert(state.responses.deep_view() =~= Seq::<ResponseV>::empty());
    }
    let ghost rq = state.requests.deep_view();
    let ghost rs = state.responses.deep_view();
    let ghost qv = request@;
    let ghost sv = response@;
    state.requests.push(request);
    state.responses.push(response);
    assert(state.requests.deep_view() =~= rq.push(qv));
    assert(state.responses.deep_view() =~= rs.push(sv));
}

/// What `load` leaves: the loaded file, except that the session's cookie jar
/// and variables survive unless the file carries its own.
pub open spec fn merged(st: StateV, loaded: StateV) -> StateV {
    StateV {
        cookies: if loaded.cookies.len() == 0 {
            st.cookies
        } else {
            loaded.cookies
        },
        vars: if loaded.vars.len() == 0 {
            st.vars
        } else {
            loaded.vars
        },
        ..loaded
    }
}

pub fn load_merge(state: &mut State, loaded: State)
    ensures
        final(state)@ == merged(old(state)@, loaded@),
{
    let mut loaded = loaded;
    if loaded.cookies.len() == 0 {
        let mut taken: Vec<Cookie> = Vec::new();
        std::mem::swap(&mut taken, &mut state.cookies);
        loaded.cookies = taken;
    }
    if loaded.vars.is_empty() {
        loaded.vars = state.vars.duplicate();
    }
    *state = loaded;
}

// ---------------------------------------------------------------------------
// Edits
// ---------------------------------------------------------------------------

/// How an editing command went.
#[derive(Debug)]
pub enum Edit {
    /// The session changed.
    Changed,
    /// Nothing to change; the warning to print.
    Unchanged(String),
    /// The command is invalid; the error.
    Failed(String),
    /// The command is no edit.
    NotAnEdit,
}

pub enum EditV {
    Changed(StateV),
    /// Nothing to change; the warning.
    Unchanged(Seq<char>),
    /// The command is invalid; the error.
    Failed(Seq<char>),
    NotAnEdit,
}

/// The jar without the cookies named `name`, in order.
pub open spec fn jar_without_name(jar: Seq<CookieV>, name: Seq<char>) -> Seq<CookieV>
    decreases jar.len(),
{
    if jar.len() == 0 {
        jar
    } else if jar.last().name == name {
        jar_without_name(jar.drop_last(), name)
    } else {
        jar_without_name(jar.drop_last(), name).push(jar.last())
    }
}

pub open spec fn with_request(st: StateV, r: RequestV) -> StateV {
    StateV { request: r, ..st }
}

/// What an editing command does to the session.
pub open spec fn edit_of(st: StateV, c: CommandV) -> EditV {
    let r = st.request;
    match c {
        CommandV::Method(m) => EditV::Changed(with_request(st, RequestV { method: Some(m), ..r })),
        CommandV::Url(u) => if u.len() == 0 {
            EditV::Failed("error: URL cannot be empty"@)
        } else {
            EditV::Changed(with_request(st, RequestV { url: Some(u), ..r }))
        },
        CommandV::Header(k, v) => EditV::Changed(
            with_request(st, RequestV { headers: header_without(r.headers, k).push((k, v)), ..r }),
        ),
        CommandV::HeaderRm(k) => if header_present(r.headers, k) {
            EditV::Changed(with_request(st, RequestV { headers: header_without(r.headers, k), ..r }))
        } else {
            EditV::Unchanged("warning: header '"@ + k + "' not found"@)
        },
        CommandV::HeaderRmAll => EditV::Changed(
            with_request(st, RequestV { headers: Seq::empty(), ..r }),
        ),
        CommandV::BodyRm => if r.body is Some {
            EditV::Changed(with_request(st, RequestV { body: None, ..r }))
        } else {
            EditV::Unchanged("warning: body not set"@)
        },
        CommandV::CookieRm(name) => if exists|i: int| 0 <= i < st.cookies.len() && (#[trigger] st.cookies[i]).name == name {
            EditV::Changed(StateV { cookies: jar_without_name(st.cookies, name), ..st })
        } else {
            EditV::Unchanged("warning: cookie '"@ + name + "' not found"@)
        },
        CommandV::Timeout(n) => EditV::Changed(
            with_request(st, RequestV { timeout_secs: Some(n), ..r }),
        ),
        CommandV::Var(n, v) => EditV::Changed(StateV { vars: var_without(st.vars, n).push((n, v)), ..st }),
        CommandV::VarRm(n) => if var_lookup(st.vars, n) is Some {
            EditV::Changed(StateV { vars: var_without(st.vars, n), ..st })
        } else {
            EditV::Unchanged("warning: variable '"@ + n + "' not found"@)
        },
        _ => EditV::NotAnEdit,
    }
}

pub open spec fn edit_matches(e: Edit, old: StateV, new: StateV, c: CommandV) -> bool {
    match e {
        Edit::Changed => edit_of(old, c) == EditV::Changed(new),
        Edit::Unchanged(w) => edit_of(old, c) == EditV::Unchanged(w@) && new == old,
        Edit::Failed(m) => edit_of(old, c) == EditV::Failed(m@) && new == old,
        Edit::NotAnEdit => edit_of(old, c) is NotAnEdit && new == old,
    }
}

fn remove_cookies_named(jar: &mut Vec<Cookie>, name: &str)
    ensures
        final(jar).deep_view() == jar_without_name(old(jar).deep_view(), name@),
{
    let mut kept: Vec<Cookie> = Vec::new();
    let mut i: usize = 0;
    let n = chars_of(name);
    while i < jar.len()
        invariant
            i <= jar@.len(),
            n@ == name@,
            kept.deep_view() == jar_without_name(jar.deep_view().take(i as int), name@),
        decreases jar@.len() - i,
    {
        assert(jar.deep_view().take(i + 1).drop_last() =~= jar.deep_view().take(i as int));
        assert(jar.deep_view()[i as int] == jar@[i as int]@);
        if !same(chars_of(jar[i].name.as_str()).as_slice(), n.as_slice()) {
            let ghost prev = kept.deep_view();
            let c = jar[i].duplicate();
            kept.push(c);
            assert(kept.deep_view() =~= prev.push(jar.deep_view()[i as int]));
        }
        i += 1;
    }
    assert(jar.deep_view().take(jar@.len() as int) =~= jar.deep_view());
    *jar = kept;
}

fn warning(a: &str, b: &str, c: &str) -> (r: String)
    ensures
        r@ == a@ + b@ + c@,
{
    let mut m = string_from(a);
    m.append(b);
    m.append(c);
    m
}

/// Applies an editing command (method, url, header, header-rm, header-rm-all,
/// body-rm, cookie-rm, timeout, var, var-rm) to the session.
pub fn apply_edit(state: &mut State, cmd: &Command) -> (e: Edit)
    ensures
        edit_matches(e, old(state)@, final(state)@, cmd.deep_view()),
{
    match cmd {
        Command::Method(m) => {
            state.request.method = Some(m.clone());
            assert(state@.request =~= RequestV { method: Some(m@), ..old(state)@.request });
            assert(state@ =~= with_request(old(state)@, RequestV { method: Some(m@), ..old(state)@.request }));
            Edit::Changed
        },
        Command::Url(u) => {
            if u.as_str().is_empty() {
                return Edit::Failed(string_from("error: URL cannot be empty"));
            }
            state.request.url = Some(u.clone());
            assert(state@ =~= with_request(old(state)@, RequestV { url: Some(u@), ..old(state)@.request }));
            Edit::Changed
        },
        Command::Header(k, v) => {
            state.request.headers.insert(k.clone(), v.clone());
            assert(state@ =~= with_request(old(state)@, RequestV { headers: header_without(old(state)@.request.headers, k@).push((k@, v@)), ..old(state)@.request }));
            Edit::Changed
        },
        Command::HeaderRm(k) => {
            proof {
                crate::model::lemma_header_lookup_present(state.request.headers@, k@);
            }
            if state.request.headers.get(k.as_str()).is_some() {
                state.request.headers.remove(k.as_str());
                assert(state@ =~= with_request(old(state)@, RequestV { headers: header_without(old(state)@.request.headers, k@), ..old(state)@.request }));
                Edit::Changed
            } else {
                Edit::Unchanged(warning("warning: header '", k.as_str(), "' not found"))
            }
        },
        Command::HeaderRmAll => {
            state.request.headers.clear();
            assert(state@ =~= with_request(old(state)@, RequestV { headers: Seq::empty(), ..old(state)@.request }));
            Edit::Changed
        },
        Command::BodyRm => {
            if state.request.body.is_some() {
                state.request.body = None;
                assert(state@ =~= with_request(old(state)@, RequestV { body: None, ..old(state)@.request }));
                Edit::Changed
            } else {
                Edit::Unchanged(string_from("warning: body not set"))
            }
        },
        Command::CookieRm(name) => {
            let n = chars_of(name.as_str());
            let mut found = false;
            let mut i: usize = 0;
            while i < state.cookies.len()
                invariant
                    i <= state.cookies@.len(),
                    n@ == name@,
                    found <==> exists|j: int| 0 <= j < i && (#[trigger] state@.cookies[j]).name == name@,
                decreases state.cookies@.len() - i,
            {
                assert(state@.cookies[i as int] == state.cookies@[i as int]@);
                if same(chars_of(state.cookies[i].name.as_str()).as_slice(), n.as_slice()) {
                    found = true;
                }
                i += 1;
            }
            if found {
                remove_cookies_named(&mut state.cookies, name.as_str());
                assert(state@ =~= StateV { cookies: jar_without_name(old(state)@.cookies, name@), ..old(state)@ });
                Edit::Changed
            } else {
                Edit::Unchanged(warning("warning: cookie '", name.as_str(), "' not found"))
            }
        },
        Command::Timeout(n) => {
            state.request.timeout_secs = Some(*n);
            assert(state@ =~= with_request(old(state)@, RequestV { timeout_secs: Some(*n), ..old(state)@.request }));
            Edit::Changed
        },
        Command::Var(n, v) => {
            state.vars.insert(n.clone(), v.clone());
            assert(state@ =~= StateV { vars: var_without(old(state)@.vars, n@).push((n@, v@)), ..old(state)@ });
            Edit::Changed
        },
        Command::VarRm(n) => {
            if state.vars.get(n.as_str()).is_some() {
                state.vars.remove(n.as_str());
                assert(state@ =~= StateV { vars: var_without(old(state)@.vars, n@), ..old(state)@ });
                Edit::Changed
            } else {
                Edit::Unchanged(warning("warning: variable '", n.as_str(), "' not found"))
            }
        },
        _ => Edit::NotAnEdit,
    }
}

// ---------------------------------------------------------------------------
// Body sources
// ---------------------------------------------------------------------------

/// Where the value of a `body` command comes from.
#[derive(Debug)]
pub enum BodySource {
    /// The text itself.
    Literal(String),
    /// Standard input (`-`).
    Stdin,
    /// A file (`@path`), read verbatim.
    File(String),
}

pub enum BodySourceV {
    Literal(Seq<char>),
    Stdin,
    File(Seq<char>),
}

/// `-` reads stdin, `@path` reads a file, `@@...` escapes a literal body
/// starting with `@`.
pub open spec fn body_source_of(v: Seq<char>) -> BodySourceV {
    if v == "-"@ {
        BodySourceV::Stdin
    } else if v.len() > 0 && v[0] == '@' {
        let rest = v.drop_first();
        if rest.len() > 0 && rest[0] == '@' {
            BodySourceV::Literal(rest)
        } else {
            BodySourceV::File(rest)
        }
    } else {
        BodySourceV::Literal(v)
    }
}

pub open spec fn body_source_view(b: BodySource) -> BodySourceV {
    match b {
        BodySource::Literal(s) => BodySourceV::Literal(s@),
        BodySource::Stdin => BodySourceV::Stdin,
        BodySource::File(s) => BodySourceV::File(s@),
    }
}

/// Where a body comes from: `@PATH` is the file at PATH (the `@` is not part
/// of the path), `@@TEXT` is the literal `@TEXT`, `-` is standard input, and
/// any other value is the body itself.
pub proof fn law_body_source(p: Seq<char>)
    ensures
        !(p.len() > 0 && p[0] == '@') ==> body_source_of(seq!['@'] + p) == BodySourceV::File(p),
        p.len() > 0 && p[0] == '@' ==> body_source_of(seq!['@'] + p) == BodySourceV::Literal(p),
        !(p.len() > 0 && p[0] == '@') && p != "-"@ ==> body_source_of(p) == BodySourceV::Literal(p),
        body_source_of("-"@) == BodySourceV::Stdin,
{
    reveal_strlit("-");
    let v = seq!['@'] + p;
    assert(v.drop_first() =~= p);
    assert(v[0] == '@');
    assert(v != "-"@) by {
        assert("-"@[0] == '-');
    }
}

pub fn resolve_body(value: &str) -> (r: BodySource)
    ensures
        body_source_view(r) == body_source_of(value@),
{
    let v = chars_of(value);
    if same(v.as_slice(), chars_of("-").as_slice()) {
        return BodySource::Stdin;
    }
    if v.len() > 0 && v[0] == '@' {
        let rest = tail(v.as_slice(), 1);
        assert(rest@ =~= value@.drop_first());
        let text = crate::text::string_of(rest.as_slice());
        if rest.len() > 0 && rest[0] == '@' {
            return BodySource::Literal(text);
        }
        return BodySource::File(text);
    }
    BodySource::Literal(string_from(value))
}

// ---------------------------------------------------------------------------
// Laws
// ---------------------------------------------------------------------------

/// A Cookie header the user set always wins over the jar: the request goes
/// out as it is.
pub proof fn law_user_cookie_header_wins(req: RequestV, jar: Seq<CookieV>)
    requires
        header_lookup(req.headers, "cookie"@) is Some,
    ensures
        with_cookies(req, jar) == req,
{
}

/// Recording an exchange keeps requests and responses side by side: the
/// request at index N produced the response at index N. A send starts the
/// history afresh, a `then` appends; the cookie jar, the session variables
/// and the request being built survive either.
pub proof fn law_recording_aligns_history(st: StateV, q: RequestV, r: ResponseV, fresh: bool)
    requires
        fresh || st.requests.len() == st.responses.len(),
    ensures
        recorded(st, q, r, fresh).requests.len() == recorded(st, q, r, fresh).responses.len(),
        recorded(st, q, r, fresh).requests.last() == q,
        recorded(st, q, r, fresh).responses.last() == r,
        fresh ==> recorded(st, q, r, fresh).responses.len() == 1,
        !fresh ==> recorded(st, q, r, fresh).requests == st.requests.push(q)
            && recorded(st, q, r, fresh).responses == st.responses.push(r),
        recorded(st, q, r, fresh).cookies == st.cookies,
        recorded(st, q, r, fresh).vars == st.vars,
        recorded(st, q, r, fresh).request == st.request,
{
}

/// `load` keeps the session's cookie jar and variables unless the loaded
/// file carries its own; everything else comes from the file.
pub proof fn law_load_keeps_jar(st: StateV, loaded: StateV)
    ensures
        loaded.cookies.len() == 0 ==> merged(st, loaded).cookies == st.cookies,
        loaded.cookies.len() > 0 ==> merged(st, loaded).cookies == loaded.cookies,
        loaded.vars.len() == 0 ==> merged(st, loaded).vars == st.vars,
        merged(st, loaded).request == loaded.request,
        merged(st, loaded).requests == loaded.requests,
        merged(st, loaded).responses == loaded.responses,
{
}

/// The attempt budget: `--retry N` allows N + 1 attempts, `--until` alone
/// allows 10, and a plain send makes one attempt.
pub proof fn law_attempt_budget(n: u32)
    ensures
        attempt_budget(true, None) == 10,
        attempt_budget(false, None) == 1,
        n < u32::MAX ==> attempt_budget(true, Some(n)) == n + 1 && attempt_budget(false, Some(n))
            == n + 1,
{
}

/// Client errors (4xx) and the permanent server errors 501, 505, 506 and 510
/// are never retried; every other 5xx is.
pub proof fn law_retry_classification(status: u16)
    ensures
        status < 500 ==> !transient(status),
        (status == 501 || status == 505 || status == 506 || status == 510) ==> !transient(status),
        (500 <= status && status != 501 && status != 505 && status != 506 && status != 510)
            ==> transient(status),
{
}

/// A redirect to another host never carries the user's Authorization or
/// Cookie header along; a 303 turns anything but HEAD into a body-less GET.
pub proof fn law_redirect_credentials(cur: RequestV, status: u16, location: Option<Seq<char>>)
    ensures
        redirect_of(cur, status, location) matches Some(next) ==> {
            let base = url_parsed(cur.url->0)->0;
            let target = url_joined(cur.url->0, location->0)->0;
            &&& base.host != target.host ==> header_lookup(next.headers, "authorization"@) is None
                && header_lookup(next.headers, "cookie"@) is None
            &&& next.url == Some(target.serialized)
            &&& (status == 303 && !eq_ci(cur.method.unwrap_or("GET"@), "HEAD"@)) ==> next.method
                == Some("GET"@) && next.body is None
        },
{
    reveal_strlit("authorization");
    reveal_strlit("cookie");
    if let Some(next) = redirect_of(cur, status, location) {
        let u = cur.url->0;
        let base = url_parsed(u)->0;
        let target = url_joined(u, location->0)->0;
        if base.host != target.host {
            let m = match cur.method {
                Some(m) => m,
                None => "GET"@,
            };
            let to_get = (status == 303 && !eq_ci(m, "HEAD"@)) || ((status == 301 || status == 302)
                && eq_ci(m, "POST"@));
            let h1 = if to_get {
                header_without(cur.headers, "content-type"@)
            } else {
                cur.headers
            };
            assert(!eq_ci("cookie"@, "authorization"@));
            assert(!eq_ci("authorization"@, "cookie"@));
            crate::model::law_header_removed(header_without(h1, "authorization"@), "cookie"@, "cookie"@);
            crate::model::law_header_removed(h1, "authorization"@, "authorization"@);
            crate::model::lemma_lookup_without_other(
                header_without(h1, "authorization"@),
                "cookie"@,
                "authorization"@,
            );
        }
    }
}

/// How a redirect treats the method and the body: 307 and 308 repeat the
/// request as it was (same method, same body, and on the same host the same
/// headers); 303 turns anything but HEAD into a body-less GET; 301 and 302
/// do so for a POST only and otherwise keep the method and the body.
pub proof fn law_redirect_method_and_body(cur: RequestV, status: u16, location: Option<Seq<char>>)
    ensures
        redirect_of(cur, status, location) matches Some(next) ==> {
            let m = cur.method.unwrap_or("GET"@);
            let same_host = url_parsed(cur.url->0)->0.host == url_joined(cur.url->0, location->0)->0.host;
            &&& (status == 307 || status == 308) ==> next.method == cur.method && next.body == cur.body
                && (same_host ==> next.headers == cur.headers)
            &&& (status == 303 && !eq_ci(m, "HEAD"@)) ==> next.method == Some("GET"@) && next.body is None
            &&& ((status == 301 || status == 302) && eq_ci(m, "POST"@)) ==> next.method == Some("GET"@)
                && next.body is None
            &&& ((status == 301 || status == 302) && !eq_ci(m, "POST"@)) ==> next.method == cur.method
                && next.body == cur.body
        },
{
}

proof fn lemma_jar_without_name_filter(jar: Seq<CookieV>, name: Seq<char>)
    ensures
        jar_without_name(jar, name) == jar.filter(|x: CookieV| x.name != name),
    decreases jar.len(),
{
    reveal(Seq::filter);
    if jar.len() > 0 {
        lemma_jar_without_name_filter(jar.drop_last(), name);
    }
}

/// Each editing command changes only what it names, and reads back: a
/// header that was set is found under any casing of its name while other
/// headers stay as they were; a removed header or variable is gone, and
/// removing one that is not there only draws a warning; `cookie-rm` drops
/// exactly the cookies of that name; an empty URL is refused; the request
/// history is never touched.
pub proof fn law_edit_reads_back(st: StateV, c: CommandV, other: Seq<char>)
    ensures
        edit_of(st, c) matches EditV::Changed(n) ==> n.requests == st.requests && n.responses
            == st.responses,
        c matches CommandV::Header(k, v) ==> (edit_of(st, c) matches EditV::Changed(n) && (eq_ci(k, other)
            ==> header_lookup(n.request.headers, other) == Some(v)) && (!eq_ci(k, other) ==> header_lookup(
            n.request.headers,
            other,
        ) == header_lookup(st.request.headers, other)) && n.vars == st.vars && n.cookies == st.cookies
            && n.request.method == st.request.method && n.request.url == st.request.url && n.request.body
            == st.request.body),
        c matches CommandV::HeaderRm(k) ==> ((header_lookup(st.request.headers, k) is None ==> edit_of(
            st,
            c,
        ) is Unchanged) && (header_lookup(st.request.headers, k) is Some ==> (edit_of(st, c) matches EditV::Changed(n)
            && (eq_ci(k, other) ==> header_lookup(n.request.headers, other) is None) && (!eq_ci(k, other)
            ==> header_lookup(n.request.headers, other) == header_lookup(st.request.headers, other))
            && n.vars == st.vars && n.cookies == st.cookies && n.request.body == st.request.body))),
        c matches CommandV::Var(k, v) ==> (edit_of(st, c) matches EditV::Changed(n) && var_lookup(n.vars, k)
            == Some(v) && (other != k ==> var_lookup(n.vars, other) == var_lookup(st.vars, other))
            && n.request == st.request && n.cookies == st.cookies),
        c matches CommandV::VarRm(k) ==> ((var_lookup(st.vars, k) is None ==> edit_of(st, c) is Unchanged)
            && (var_lookup(st.vars, k) is Some ==> (edit_of(st, c) matches EditV::Changed(n) && var_lookup(
            n.vars,
            k,
        ) is None && (other != k ==> var_lookup(n.vars, other) == var_lookup(st.vars, other))
            && n.request == st.request && n.cookies == st.cookies))),
        c matches CommandV::CookieRm(k) ==> (edit_of(st, c) matches EditV::Changed(n) ==> n.cookies
            == st.cookies.filter(|x: CookieV| x.name != k) && n.request == st.request && n.vars == st.vars),
        c matches CommandV::Method(m) ==> edit_of(st, c) == EditV::Changed(
            StateV { request: RequestV { method: Some(m), ..st.request }, ..st },
        ),
        c matches CommandV::Timeout(t) ==> edit_of(st, c) == EditV::Changed(
            StateV { request: RequestV { timeout_secs: Some(t), ..st.request }, ..st },
        ),
        c matches CommandV::Url(u) ==> (u.len() == 0 ==> edit_of(st, c) is Failed) && (u.len() > 0
            ==> edit_of(st, c) == EditV::Changed(StateV { request: RequestV { url: Some(u), ..st.request }, ..st })),
        c is BodyRm ==> (st.request.body is None ==> edit_of(st, c) is Unchanged) && (st.request.body is Some
            ==> edit_of(st, c) == EditV::Changed(StateV { request: RequestV { body: None, ..st.request }, ..st })),
{
    let h = st.request.headers;
    match c {
        CommandV::Header(k, v) => {
            if eq_ci(k, other) {
                crate::model::law_header_read_after_write(h, k, v, other);
            } else {
                crate::model::law_header_write_keeps_others(h, k, v, other);
            }
        },
        CommandV::HeaderRm(k) => {
            crate::model::lemma_header_lookup_present(h, k);
            if eq_ci(k, other) {
                crate::model::law_header_removed(h, k, other);
            } else {
                crate::model::lemma_lookup_without_other(h, k, other);
            }
        },
        CommandV::Var(k, v) => {
            crate::model::law_var_read_after_write(st.vars, k, v, other);
        },
        CommandV::VarRm(k) => {
            crate::model::law_var_read_after_write(st.vars, k, Seq::empty(), other);
        },
        CommandV::CookieRm(k) => {
            lemma_jar_without_name_filter(st.cookies, k);
        },
        _ => {},
    }
}

/// A redirect status (301, 302, 303, 307, 308) with a Location that resolves
/// against the request URL is always followed, and no other status is. The
/// next request carries every header of the current one except
/// Authorization and Cookie (dropped only on a change of host) and
/// Content-Type (dropped only with the body).
pub proof fn law_redirect_followed(cur: RequestV, status: u16, location: Option<Seq<char>>, name: Seq<char>)
    ensures
        (status == 301 || status == 302 || status == 303 || status == 307 || status == 308) && (
        location matches Some(loc) && cur.url matches Some(u) && url_parsed(u) is Some && url_joined(u, loc) is Some)
            ==> redirect_of(cur, status, location) is Some,
        !(status == 301 || status == 302 || status == 303 || status == 307 || status == 308) ==> redirect_of(
            cur,
            status,
            location,
        ) is None,
        redirect_of(cur, status, location) matches Some(next) ==> {
            let same_host = url_parsed(cur.url->0)->0.host == url_joined(cur.url->0, location->0)->0.host;
            &&& (!eq_ci(name, "authorization"@) && !eq_ci(name, "cookie"@) && !eq_ci(name, "content-type"@))
                ==> header_lookup(next.headers, name) == header_lookup(cur.headers, name)
            &&& (same_host && !eq_ci(name, "content-type"@)) ==> header_lookup(next.headers, name)
                == header_lookup(cur.headers, name)
            &&& (status == 307 || status == 308) ==> header_lookup(next.headers, "content-type"@)
                == header_lookup(cur.headers, "content-type"@)
            &&& (cur.body is Some && next.body is None) ==> header_lookup(next.headers, "content-type"@)
                is None
        },
{
    reveal_strlit("authorization");
    reveal_strlit("cookie");
    reveal_strlit("content-type");
    if let Some(next) = redirect_of(cur, status, location) {
        let u = cur.url->0;
        let base = url_parsed(u)->0;
        let target = url_joined(u, location->0)->0;
        let m = match cur.method {
            Some(m) => m,
            None => "GET"@,
        };
        let to_get = (status == 303 && !eq_ci(m, "HEAD"@)) || ((status == 301 || status == 302)
            && eq_ci(m, "POST"@));
        let h1 = if to_get {
            header_without(cur.headers, "content-type"@)
        } else {
            cur.headers
        };
        if !eq_ci(name, "content-type"@) {
            crate::model::lemma_lookup_without_other(cur.headers, "content-type"@, name);
        }
        if !eq_ci(name, "authorization"@) && !eq_ci(name, "cookie"@) {
            crate::model::lemma_lookup_without_other(h1, "authorization"@, name);
            crate::model::lemma_lookup_without_other(header_without(h1, "authorization"@), "cookie"@, name);
        }
        if to_get {
            crate::model::law_header_removed(cur.headers, "content-type"@, "content-type"@);
        }
        assert(!eq_ci("authorization"@, "content-type"@));
        assert(!eq_ci("cookie"@, "content-type"@));
        crate::model::lemma_lookup_without_other(h1, "authorization"@, "content-type"@);
        crate::model::lemma_lookup_without_other(
            header_without(h1, "authorization"@),
            "cookie"@,
            "content-type"@,
        );
    }
}

/// Without `--until`, a response below 500 is never retried, and a retry
/// needs a transient status and an attempt left; a poll whose condition
/// failed on its last attempt records the response and fails.
pub proof fn law_retry_decisions(status: u16, attempt: u32, max: u32)
    ensures
        status < 500 ==> after_response(None, status, attempt, max) == AfterResponse::Record,
        after_response(None, status, attempt, max) == AfterResponse::Retry ==> transient(status)
            && attempt < max,
        attempt >= max ==> after_response(Some(false), status, attempt, max)
            == AfterResponse::RecordThenFail,
        after_response(Some(true), status, attempt, max) == AfterResponse::Record,
        attempt >= max ==> !retries_failure(attempt, max, false),
        !retries_failure(attempt, max, true),
        transient(status) && attempt < max ==> after_response(None, status, attempt, max)
            == AfterResponse::Retry,
        !transient(status) ==> after_response(None, status, attempt, max) == AfterResponse::Record,
        attempt < max ==> after_response(Some(false), status, attempt, max) == AfterResponse::Retry,
        attempt < max ==> retries_failure(attempt, max, false),
{
}

/// The `fail` verdict names the first 4xx/5xx status: once one is seen,
/// later statuses do not replace it.
pub proof fn law_first_failure_sticks(seen: Option<u16>, status: u16)
    ensures
        seen is Some ==> first_failure(seen, status) == seen,
        seen is None && status >= 400 ==> first_failure(seen, status) == Some(status),
        status < 400 ==> first_failure(seen, status) == seen,
{
}

} // verus!
