//! Running a parsed command list. The outside work (HTTP, the session and
//! preset files, standard input, sleeping, printing) is done by the caller:
//! `Runner::step` takes the session state and the result of the previous
//! action, decides, and hands back the next action.
use vstd::prelude::*;
use vstd::string::StringExecFns;

use super::commands::{
    Command, CommandV, FlagsV, GlobalFlags, ParseResult, ResponseTarget, ResponseView,
};
use super::display::{
    curl_parts, dry_run_lines, dry_run_text, format_curl_with, format_size, format_status, join_words,
    size_text, status_text,
};
use super::exchange::{
    absorb_cookies, apply_edit, decide_after_response, final_verdict, load_merge, max_attempts,
    record_exchange, redirect_target, remember_failure, resolve_body, retry_after_failure,
    with_session_cookies, with_cookies, attempt_budget, after_response, absorbed, first_failure,
    recorded, redirect_of, retries_failure, merged, edit_of, body_source_of, AfterResponse, BodySource, BodySourceV, Edit,
    EditV,
};
use crate::model::{
    copy_requests, copy_responses, header_lookup, CookieV, Request, ResponseRecord, State, StateV,
    Vars,
};
use crate::template::{
    apply_interpolation, check_condition, condition_failure, condition_holds, draw_ok, request_interpolated,
    request_interpolation_failed, Context, Ctx, Draw,
};
use crate::model::{empty_state, Pairs, RequestV, ResponseV};
use vstd::utf8::encode_utf8;
use crate::text::{decimal, decimal_exec, string_from, string_of};

verus! {

/// A failed HTTP exchange: whether retrying cannot help (a malformed URL,
/// method or header), and the message.
#[derive(Debug)]
pub struct HttpFailure {
    pub permanent: bool,
    pub message: String,
}

/// What the caller reports back after performing an action.
#[derive(Debug)]
pub enum Event {
    /// The first step.
    Start,
    /// A Warn, Print, PrintBody, Sleep or DeleteSession action was done.
    Done,
    /// The outcome of `Execute`.
    Response(Result<ResponseRecord, HttpFailure>),
    /// The outcome of `SaveSession` or `SavePreset`.
    Saved(Result<(), String>),
    /// The outcome of `LoadPreset`.
    Loaded(Result<State, String>),
    /// The outcome of `ReadStdin` or `ReadFile`.
    Text(Result<String, String>),
}

/// What the caller is to do next.
#[derive(Debug)]
pub enum Action {
    /// Print a line on stderr.
    Warn(String),
    /// Print a line on stdout.
    Print(String),
    /// Print a response body on stdout (pretty JSON on a terminal); the flag
    /// asks for a trailing newline when the raw body lacks one.
    PrintBody(String, bool),
    /// Send the request; the optional text names the preset it came from.
    Execute(Request, Option<String>),
    /// Sleep this many seconds.
    Sleep(u64),
    /// Save the session state.
    SaveSession,
    /// Delete the session file.
    DeleteSession,
    /// Read the preset file at the path.
    LoadPreset(String),
    /// Write the current request as a preset file at the path.
    SavePreset(String),
    /// Read the body from standard input.
    ReadStdin,
    /// Read the body from the file at the path.
    ReadFile(String),
    /// The run is over.
    Finish(Result<ParseResult, String>),
}

/// One send/then in progress: the request of the current hop (without the
/// jar's Cookie header), the request as last sent, and the attempt counters.
struct Exchange {
    base: Request,
    sent: Request,
    source: Option<String>,
    fresh: bool,
    attempt: u32,
    max_attempts: u32,
    hops: u32,
    cleared: bool,
    until_error: Option<String>,
}

enum Phase {
    Ready,
    AwaitBody,
    AwaitLoad(String),
    AwaitThen(String),
    AwaitPresetSave(String),
    AwaitResponse(Exchange),
    AwaitSleep(Exchange),
    AwaitRecordSave(Exchange),
    AwaitFinalSave(Option<String>),
    Finished,
}

/// Redirect-hop cap for `--follow`.
pub const MAX_REDIRECTS: u32 = 10;

/// The history has one response per request.
pub open spec fn aligned(s: StateV) -> bool {
    s.requests.len() == s.responses.len()
}

/// A failed exchange as plain values: whether it is permanent, and the
/// message.
pub open spec fn failure_view(f: HttpFailure) -> (bool, Seq<char>) {
    (f.permanent, f.message@)
}

/// An event as plain values.
pub enum EventV {
    Start,
    Done,
    Response(Result<ResponseV, (bool, Seq<char>)>),
    Saved(Result<(), Seq<char>>),
    Loaded(Result<StateV, Seq<char>>),
    Text(Result<Seq<char>, Seq<char>>),
}

impl View for Event {
    type V = EventV;

    open spec fn view(&self) -> EventV {
        match self {
            Event::Start => EventV::Start,
            Event::Done => EventV::Done,
            Event::Response(Ok(r)) => EventV::Response(Ok(r@)),
            Event::Response(Err(f)) => EventV::Response(Err(failure_view(*f))),
            Event::Saved(Ok(())) => EventV::Saved(Ok(())),
            Event::Saved(Err(m)) => EventV::Saved(Err(m@)),
            Event::Loaded(Ok(st)) => EventV::Loaded(Ok(st@)),
            Event::Loaded(Err(m)) => EventV::Loaded(Err(m@)),
            Event::Text(Ok(t)) => EventV::Text(Ok(t@)),
            Event::Text(Err(m)) => EventV::Text(Err(m@)),
        }
    }
}

/// An action as plain values.
pub enum ActionV {
    Warn(Seq<char>),
    Print(Seq<char>),
    PrintBody(Seq<char>, bool),
    Execute(RequestV, Option<Seq<char>>),
    Sleep(u64),
    SaveSession,
    DeleteSession,
    LoadPreset(Seq<char>),
    SavePreset(Seq<char>),
    ReadStdin,
    ReadFile(Seq<char>),
    Finish(Result<ParseResult, Seq<char>>),
}

impl View for Action {
    type V = ActionV;

    open spec fn view(&self) -> ActionV {
        match self {
            Action::Warn(m) => ActionV::Warn(m@),
            Action::Print(m) => ActionV::Print(m@),
            Action::PrintBody(b, pad) => ActionV::PrintBody(b@, *pad),
            Action::Execute(q, src) => ActionV::Execute(q@, src.deep_view()),
            Action::Sleep(n) => ActionV::Sleep(*n),
            Action::SaveSession => ActionV::SaveSession,
            Action::DeleteSession => ActionV::DeleteSession,
            Action::LoadPreset(p) => ActionV::LoadPreset(p@),
            Action::SavePreset(p) => ActionV::SavePreset(p@),
            Action::ReadStdin => ActionV::ReadStdin,
            Action::ReadFile(p) => ActionV::ReadFile(p@),
            Action::Finish(Ok(r)) => ActionV::Finish(Ok(*r)),
            Action::Finish(Err(m)) => ActionV::Finish(Err(m@)),
        }
    }
}

/// One send or `then` in progress: the request of the current hop (without
/// the jar's Cookie header), the request as last sent, the preset it came
/// from, whether it starts the history afresh, the attempt and redirect
/// counters, whether earlier responses were cleared, and the error of a
/// poll that ran out of attempts.
pub struct ExchangeV {
    pub base: RequestV,
    pub sent: RequestV,
    pub source: Option<Seq<char>>,
    pub fresh: bool,
    pub attempt: u32,
    pub max_attempts: u32,
    pub hops: u32,
    pub cleared: bool,
    pub until_error: Option<Seq<char>>,
}

impl View for Exchange {
    type V = ExchangeV;

    closed spec fn view(&self) -> ExchangeV {
        ExchangeV {
            base: self.base@,
            sent: self.sent@,
            source: self.source.deep_view(),
            fresh: self.fresh,
            attempt: self.attempt,
            max_attempts: self.max_attempts,
            hops: self.hops,
            cleared: self.cleared,
            until_error: self.until_error.deep_view(),
        }
    }
}

/// What the runner waits for.
pub enum PhaseV {
    /// Nothing: the next command can run.
    Ready,
    /// The body text (`ReadStdin` or `ReadFile`).
    AwaitBody,
    /// The preset of a `load` at the path.
    AwaitLoad(Seq<char>),
    /// The preset of a `then` at the path.
    AwaitThen(Seq<char>),
    /// The outcome of `save` to the path.
    AwaitPresetSave(Seq<char>),
    /// The response to the exchange's hop.
    AwaitResponse(ExchangeV),
    /// The end of the delay before another attempt.
    AwaitSleep(ExchangeV),
    /// The save of the session after the exchange was recorded.
    AwaitRecordSave(ExchangeV),
    /// The save of the session before the run ends with the error, if any.
    AwaitFinalSave(Option<Seq<char>>),
    /// Nothing: the run is over.
    Finished,
}

impl View for Phase {
    type V = PhaseV;

    closed spec fn view(&self) -> PhaseV {
        match self {
            Phase::Ready => PhaseV::Ready,
            Phase::AwaitBody => PhaseV::AwaitBody,
            Phase::AwaitLoad(p) => PhaseV::AwaitLoad(p@),
            Phase::AwaitThen(p) => PhaseV::AwaitThen(p@),
            Phase::AwaitPresetSave(p) => PhaseV::AwaitPresetSave(p@),
            Phase::AwaitResponse(e) => PhaseV::AwaitResponse(e@),
            Phase::AwaitSleep(e) => PhaseV::AwaitSleep(e@),
            Phase::AwaitRecordSave(e) => PhaseV::AwaitRecordSave(e@),
            Phase::AwaitFinalSave(o) => PhaseV::AwaitFinalSave(o.deep_view()),
            Phase::Finished => PhaseV::Finished,
        }
    }
}

/// A runner as plain values: the commands and the position in them, the
/// flags, the environment snapshot, whether the session has unsaved
/// changes, what remains to be shown, the first failing status, the queue
/// of actions not yet handed out, and what it waits for.
pub struct RunnerV {
    pub commands: Seq<CommandV>,
    pub next: nat,
    pub flags: FlagsV,
    pub env: Pairs,
    pub modified: bool,
    pub do_show: bool,
    pub do_response: Option<(ResponseTarget, ResponseView)>,
    pub http_failure: Option<u16>,
    pub outbox: Seq<ActionV>,
    pub phase: PhaseV,
}

/// The queue of actions is consistent with the phase: a `Finish` can only
/// be the last queued action, and it is there exactly when the run is over;
/// under `--dry-run` nothing is sent, so no queued action is `Execute` and
/// no exchange is under way.
pub open spec fn well_formed(r: RunnerV) -> bool {
    &&& forall|i: int| 0 <= i < r.outbox.len() && (#[trigger] r.outbox[i] is Finish) ==> i == r.outbox.len() - 1
    &&& r.outbox.len() > 0 ==> ((r.outbox.last() is Finish) <==> (r.phase is Finished))
    &&& r.flags.dry_run ==> {
        &&& forall|i: int| 0 <= i < r.outbox.len() ==> !(#[trigger] r.outbox[i] is Execute)
        &&& !(r.phase is AwaitResponse)
        &&& !(r.phase is AwaitSleep)
        &&& !(r.phase is AwaitRecordSave)
    }
}

/// Two moments of one run: the command list and the position in it are
/// unchanged, and so is the dry-run mode, which is still honoured; a run
/// that has just ended has its `Finish` queued.
pub open spec fn steady(before: RunnerV, after: RunnerV) -> bool {
    &&& after.commands.len() == before.commands.len()
    &&& after.next == before.next
    &&& after.flags.dry_run == before.flags.dry_run
    &&& well_formed(after)
    &&& after.phase is Finished ==> after.outbox.len() > 0
}

/// Everything but the queue of actions and the phase is as it was.
pub open spec fn same_but_queue(a: RunnerV, b: RunnerV) -> bool {
    &&& b.commands == a.commands
    &&& b.next == a.next
    &&& b.flags == a.flags
    &&& b.env == a.env
    &&& b.modified == a.modified
    &&& b.do_show == a.do_show
    &&& b.do_response == a.do_response
    &&& b.http_failure == a.http_failure
}

/// `b` is `a` with `act` queued.
pub open spec fn queued(a: RunnerV, b: RunnerV, act: ActionV) -> bool {
    &&& same_but_queue(a, b)
    &&& b.phase == a.phase
    &&& b.outbox == a.outbox.push(act)
}

/// `r` is the verdict of a run in state `a` that stopped with `outcome`:
/// the chain's error; else, under `fail`, an error for the first 4xx/5xx
/// status; else what remains to be shown.
pub open spec fn is_verdict(r: Result<ParseResult, Seq<char>>, outcome: Option<Seq<char>>, a: RunnerV) -> bool {
    &&& (r is Ok <==> (outcome is None && !(a.flags.fail_on_error && a.http_failure is Some)))
    &&& (outcome matches Some(m) ==> r matches Err(e) && e == m)
    &&& (r matches Ok(p) ==> p.do_show == a.do_show && p.do_response == a.do_response)
}

/// `b` is `a` with the verdict queued and the run over.
pub open spec fn concluded(a: RunnerV, b: RunnerV, outcome: Option<Seq<char>>) -> bool {
    &&& same_but_queue(a, b)
    &&& b.phase is Finished
    &&& b.outbox.len() == a.outbox.len() + 1
    &&& b.outbox.drop_last() == a.outbox
    &&& b.outbox.last() matches ActionV::Finish(r) && is_verdict(r, outcome, a)
}

/// `b` is `a` once the chain stopped with `outcome`: unsaved changes are
/// saved first, and the verdict follows the save; otherwise the verdict is
/// queued at once.
pub open spec fn chain_stopped(a: RunnerV, b: RunnerV, outcome: Option<Seq<char>>) -> bool {
    if a.modified {
        &&& same_but_queue(a, b)
        &&& b.outbox == a.outbox.push(ActionV::SaveSession)
        &&& (b.phase matches PhaseV::AwaitFinalSave(o) && o == outcome)
    } else {
        concluded(a, b, outcome)
    }
}

/// The exchange `e` is `ex` apart from the request last sent.
pub open spec fn same_exchange(e: ExchangeV, ex: ExchangeV) -> bool {
    &&& e.base == ex.base
    &&& e.source == ex.source
    &&& e.fresh == ex.fresh
    &&& e.attempt == ex.attempt
    &&& e.max_attempts == ex.max_attempts
    &&& e.hops == ex.hops
    &&& e.cleared == ex.cleared
    &&& e.until_error == ex.until_error
}

/// `b` is `a` once the hop `ex` was handed out: its request, with the
/// jar's Cookie header added, goes out, and the exchange waits for the
/// response to it.
pub open spec fn hop_sent(a: RunnerV, b: RunnerV, jar: Seq<CookieV>, ex: ExchangeV) -> bool {
    let q = with_cookies(ex.base, jar);
    &&& same_but_queue(a, b)
    &&& b.outbox.len() == a.outbox.len() + 1
    &&& b.outbox.drop_last() == a.outbox
    &&& b.outbox.last() matches ActionV::Execute(r, src) && r == q && src == ex.source
    &&& b.phase matches PhaseV::AwaitResponse(e) && e.sent == q && same_exchange(e, ex)
}

/// The attempt counter after one more attempt (it saturates).
pub open spec fn next_attempt(n: u32) -> u32 {
    if n < u32::MAX {
        (n + 1) as u32
    } else {
        n
    }
}

/// The warning before a retry.
pub open spec fn retry_text(reason: Seq<char>, delay: u64, attempt: u32, max: u32) -> Seq<char> {
    reason + "; retrying in "@ + decimal(delay as nat) + "s (attempt "@ + decimal(attempt as nat) + "/"@
        + decimal(max as nat) + ")"@
}

/// `b` is `a` once the exchange `ex` was put off for another attempt: a
/// warning with the reason, then the delay, and the counter moves on.
pub open spec fn retried(a: RunnerV, b: RunnerV, ex: ExchangeV, reason: Seq<char>) -> bool {
    let n = next_attempt(ex.attempt);
    let k = a.outbox.len() as int;
    &&& same_but_queue(a, b)
    &&& b.outbox.len() == k + 2
    &&& b.outbox.take(k) == a.outbox
    &&& b.outbox[k] matches ActionV::Warn(w) && w == retry_text(reason, a.flags.delay_secs, n, ex.max_attempts)
    &&& b.outbox[k + 1] == ActionV::Sleep(a.flags.delay_secs)
    &&& b.phase == PhaseV::AwaitSleep(ExchangeV { attempt: n, ..ex })
}

/// `b` is `a` with one warning per line queued.
pub open spec fn warned_lines(a: RunnerV, b: RunnerV, lines: Seq<Seq<char>>) -> bool {
    let k = a.outbox.len() as int;
    &&& same_but_queue(a, b)
    &&& b.phase == a.phase
    &&& b.outbox.len() == k + lines.len()
    &&& b.outbox.take(k) == a.outbox
    &&& forall|i: int|
        0 <= i < lines.len() ==> ((#[trigger] b.outbox[k + i]) matches ActionV::Warn(w) && w == lines[i])
}

/// `b` is `a` once a send or `then` started on the session `s`: a warning
/// when a body goes without a Content-Type, then the first attempt at the
/// current request, under the budget of `--retry`/`--until`.
pub open spec fn exchange_started(a: RunnerV, b: RunnerV, s: StateV, source: Option<Seq<char>>, fresh: bool) -> bool {
    let warn = s.request.body is Some && header_lookup(s.request.headers, "content-type"@) is None;
    let k = a.outbox.len() as int;
    let q = with_cookies(s.request, s.cookies);
    &&& same_but_queue(a, b)
    &&& b.outbox.len() == k + if warn { 2int } else { 1int }
    &&& b.outbox.take(k) == a.outbox
    &&& warn ==> (b.outbox[k] matches ActionV::Warn(w) && w
        == "warning: body is set but Content-Type header is missing"@)
    &&& b.outbox.last() matches ActionV::Execute(r, src) && r == q && src == source
    &&& b.phase matches PhaseV::AwaitResponse(e) && {
        &&& e.base == s.request
        &&& e.sent == q
        &&& e.source == source
        &&& e.fresh == fresh
        &&& e.attempt == 1
        &&& e.max_attempts == attempt_budget(a.flags.until is Some, a.flags.retry)
        &&& e.hops == 0
        &&& e.cleared == (fresh && s.responses.len() > 0)
        &&& e.until_error is None
    }
}

/// The history a `--until` condition reads after an attempt of `ex` got
/// `record`: the history as it will be recorded.
pub open spec fn poll_context(a: RunnerV, s: StateV, ex: ExchangeV, record: ResponseV) -> Ctx {
    Ctx {
        requests: (if ex.fresh {
            Seq::empty()
        } else {
            s.requests
        }).push(ex.sent),
        responses: (if ex.fresh {
            Seq::empty()
        } else {
            s.responses
        }).push(record),
        vars: s.vars,
        env: a.env,
    }
}

/// `u` is what `--until` said of the attempt: None without `--until`, else
/// whether its condition held (for some reading of the clock and the
/// random source).
pub open spec fn poll_verdict(a: RunnerV, s: StateV, ex: ExchangeV, record: ResponseV, u: Option<bool>) -> bool {
    match a.flags.until {
        None => u is None,
        Some(c) => u matches Some(b) && exists|d: Draw|
            draw_ok(d) && (b <==> #[trigger] condition_holds(c, poll_context(a, s, ex, record), d)),
    }
}

pub open spec fn until_text(a: RunnerV) -> Seq<char> {
    match a.flags.until {
        Some(c) => c,
        None => Seq::empty(),
    }
}

/// `b` and `t` are `a` and `s` once an attempt of `ex` got `record` and
/// `--until` said `u`: either another attempt, with the session as it was,
/// or the exchange is recorded and the session saved; a poll out of
/// attempts is recorded and then fails the chain.
pub open spec fn attempt_finished(
    a: RunnerV,
    b: RunnerV,
    s: StateV,
    t: StateV,
    ex: ExchangeV,
    record: ResponseV,
    u: Option<bool>,
) -> bool {
    match after_response(u, record.status, ex.attempt, ex.max_attempts) {
        AfterResponse::Retry => {
            &&& t == s
            &&& retried(
                a,
                b,
                ex,
                if u is Some {
                    "condition not met"@
                } else {
                    "server error ("@ + status_text(record.status) + ")"@
                },
            )
        },
        AfterResponse::RecordThenFail => {
            &&& t == recorded(s, ex.sent, record, ex.fresh)
            &&& same_but_queue(a, b)
            &&& b.outbox == a.outbox.push(ActionV::SaveSession)
            &&& (b.phase matches PhaseV::AwaitRecordSave(e) && e == (ExchangeV { until_error: e.until_error, ..ex })
                && (e.until_error matches Some(m) && m == "error: condition '"@ + until_text(a) + "' not met after "@
                + decimal(ex.max_attempts as nat) + " attempt(s)"@))
        },
        AfterResponse::Record => {
            &&& t == recorded(s, ex.sent, record, ex.fresh)
            &&& same_but_queue(a, b)
            &&& b.outbox == a.outbox.push(ActionV::SaveSession)
            &&& b.phase == PhaseV::AwaitRecordSave(ex)
        },
    }
}

/// The session once the cookies that `record` sets were taken into the jar.
pub open spec fn with_absorbed(s: StateV, ex: ExchangeV, record: ResponseV) -> StateV {
    StateV { cookies: absorbed(s.cookies, ex.sent.url, record.set_cookies).0, ..s }
}

/// The runner once the jar took the cookies: the session has unsaved
/// changes when the jar changed.
pub open spec fn absorbed_runner(a: RunnerV, s: StateV, ex: ExchangeV, record: ResponseV) -> RunnerV {
    RunnerV { modified: a.modified || absorbed(s.cookies, ex.sent.url, record.set_cookies).1, ..a }
}

/// Where `--follow` leads from the response: None without `--follow` or
/// when the response is no redirect.
pub open spec fn redirect_from(a: RunnerV, ex: ExchangeV, record: ResponseV) -> Option<RequestV> {
    if a.flags.follow {
        redirect_of(ex.base, record.status, header_lookup(record.headers, "location"@))
    } else {
        None
    }
}

/// `b` is `a` once the redirect to `next` is followed: a note, then the
/// next hop goes out.
pub open spec fn redirect_followed(a: RunnerV, b: RunnerV, jar: Seq<CookieV>, ex: ExchangeV, next: RequestV, status: u16) -> bool {
    let k = a.outbox.len() as int;
    let q = with_cookies(next, jar);
    let target = match next.url {
        Some(u) => u,
        None => "?"@,
    };
    &&& same_but_queue(a, b)
    &&& b.outbox.len() == k + 2
    &&& b.outbox.take(k) == a.outbox
    &&& (b.outbox[k] matches ActionV::Warn(w) && w == "following redirect -> "@ + target + " ("@ + status_text(status)
        + ")"@)
    &&& (b.outbox[k + 1] matches ActionV::Execute(r, src) && r == q && src == ex.source)
    &&& (b.phase matches PhaseV::AwaitResponse(e) && {
        &&& e.base == next
        &&& e.sent == q
        &&& e.hops == ex.hops + 1
        &&& e.source == ex.source
        &&& e.fresh == ex.fresh
        &&& e.attempt == ex.attempt
        &&& e.max_attempts == ex.max_attempts
        &&& e.cleared == ex.cleared
        &&& e.until_error == ex.until_error
    })
}

/// `b` and `t` are `a` and `s` once the response `record` to the hop `ex`
/// arrived: its cookies go into the jar; under `--follow` a redirect is
/// followed (the chain stops after too many); otherwise the attempt ends.
pub open spec fn response_handled(
    a: RunnerV,
    b: RunnerV,
    s: StateV,
    t: StateV,
    ex: ExchangeV,
    record: ResponseV,
    u: Option<bool>,
) -> bool {
    let a1 = absorbed_runner(a, s, ex, record);
    let s1 = with_absorbed(s, ex, record);
    match redirect_from(a, ex, record) {
        Some(next) => {
            &&& t == s1
            &&& if ex.hops >= MAX_REDIRECTS {
                chain_stopped(
                    a1,
                    b,
                    Some("error: too many redirects (more than "@ + decimal(MAX_REDIRECTS as nat) + ")"@),
                )
            } else {
                redirect_followed(a1, b, s1.cookies, ex, next, record.status)
            }
        },
        None => poll_verdict(a1, s1, ex, record, u) && attempt_finished(a1, b, s1, t, ex, record, u),
    }
}

/// The line that reports a recorded response.
pub open spec fn report_text(r: ResponseV, cleared: bool) -> Seq<char> {
    "< "@ + status_text(r.status) + " ("@ + decimal(r.elapsed_ms as nat) + " ms, "@ + size_text(
        encode_utf8(r.body).len(),
    ) + (if cleared {
        ", previous responses cleared"@
    } else {
        Seq::empty()
    }) + ")"@
}

/// `mid` is `a` once the last response of `s` was reported: a status line
/// and the body, and the first failing status is remembered.
pub open spec fn reported(a: RunnerV, mid: RunnerV, s: StateV, ex: ExchangeV) -> bool {
    let k = a.outbox.len() as int;
    let n = s.responses.len();
    &&& mid.commands == a.commands
    &&& mid.next == a.next
    &&& mid.flags == a.flags
    &&& mid.env == a.env
    &&& mid.modified == a.modified
    &&& mid.do_show == a.do_show
    &&& mid.do_response == a.do_response
    &&& mid.phase == a.phase
    &&& if n > 0 {
        let last = s.responses.last();
        &&& mid.outbox.len() == k + 2
        &&& mid.outbox.take(k) == a.outbox
        &&& (mid.outbox[k] matches ActionV::Warn(w) && w == report_text(last, ex.cleared))
        &&& (mid.outbox[k + 1] matches ActionV::PrintBody(body, pad) && body == last.body && pad)
        &&& mid.http_failure == first_failure(a.http_failure, last.status)
    } else {
        &&& mid.outbox == a.outbox
        &&& mid.http_failure == a.http_failure
    }
}

/// `b` is `a` once the recorded exchange `ex` was saved: the response is
/// reported; a failed poll stops the chain, otherwise nothing is unsaved.
pub open spec fn record_done(a: RunnerV, b: RunnerV, s: StateV, ex: ExchangeV) -> bool {
    exists|mid: RunnerV|
        #[trigger] reported(a, mid, s, ex) && match ex.until_error {
            Some(m) => chain_stopped(mid, b, Some(m)),
            None => b == (RunnerV { modified: false, ..mid }),
        }
}

/// The history a `then` request is interpolated against.
pub open spec fn history_context(a: RunnerV, s: StateV) -> Ctx {
    Ctx { requests: s.requests, responses: s.responses, vars: s.vars, env: a.env }
}

pub open spec fn then_error(path: Seq<char>, e: Seq<char>) -> Seq<char> {
    "error in '"@ + path + "': "@ + e
}

/// `b` and `t` are `a` and `s` once the preset of a `then` was loaded: its
/// request replaces the current one, interpolated against the history, and
/// is sent (or listed under `--dry-run`) as a continuation of the history;
/// when interpolation fails the chain stops, with the request as far as it
/// was interpolated.
pub open spec fn then_started(a: RunnerV, b: RunnerV, s: StateV, t: StateV, path: Seq<char>, loaded: StateV) -> bool {
    let c = history_context(a, s);
    ||| {
        &&& t == (StateV { request: t.request, ..s })
        &&& request_interpolation_failed(loaded.request, c, t.request)
        &&& exists|e: Seq<char>| #[trigger] chain_stopped(a, b, Some(then_error(path, e)))
    }
    ||| {
        &&& t == (StateV { request: t.request, ..s })
        &&& request_interpolated(loaded.request, c, t.request)
        &&& if a.flags.dry_run {
            exists|mid: RunnerV|
                #[trigger] warned_lines(a, mid, seq!["(dry-run: "@ + path + ")"@]) && warned_lines(
                    mid,
                    b,
                    dry_run_text(with_cookies(t.request, t.cookies)),
                )
        } else {
            exchange_started(a, b, t, Some(path), false)
        }
    }
}

/// `b` is `a` with one action queued and nothing else changed but the phase.
pub open spec fn asked(a: RunnerV, b: RunnerV) -> bool {
    &&& same_but_queue(a, b)
    &&& b.outbox.len() == a.outbox.len() + 1
    &&& b.outbox.drop_last() == a.outbox
}

/// `b` and `t` are `a` and `s` once the command `c`, which edits nothing,
/// ran: a send starts an exchange (or lists the request under `--dry-run`);
/// `then`, `save`, `load` and a body from stdin or a file ask for the file or
/// the input; `expect` checks its condition against the history and stops
/// the chain when it fails; `curl` prints the request; `show` and
/// `response` are noted for the end; `reset` clears the session.
pub open spec fn command_effect(a: RunnerV, b: RunnerV, s: StateV, t: StateV, c: CommandV) -> bool {
    let k = a.outbox.len() as int;
    match c {
        CommandV::Send => t == s && if a.flags.dry_run {
            warned_lines(a, b, dry_run_text(with_cookies(s.request, s.cookies)))
        } else {
            exchange_started(a, b, s, None, true)
        },
        CommandV::Then(p) => {
            &&& t == s
            &&& asked(a, b)
            &&& (b.outbox.last() matches ActionV::LoadPreset(q) && q == p)
            &&& (b.phase matches PhaseV::AwaitThen(r) && r == p)
        },
        CommandV::Expect(cond) => t == s && if a.flags.dry_run {
            warned_lines(a, b, seq!["(dry-run: skipping expect "@ + cond + ")"@])
        } else {
            ||| {
                &&& exists|d: Draw| draw_ok(d) && #[trigger] condition_holds(cond, history_context(a, s), d)
                &&& warned_lines(a, b, seq!["expect ok: "@ + cond])
            }
            ||| exists|d: Draw|
                draw_ok(d) && !#[trigger] condition_holds(cond, history_context(a, s), d) && match condition_failure(
                    cond,
                    history_context(a, s),
                    d,
                ) {
                    Some(m) => chain_stopped(a, b, Some("error: "@ + m)),
                    None => exists|e: Seq<char>| #[trigger] chain_stopped(a, b, Some("error: "@ + e)),
                }
        },
        CommandV::Curl => {
            let q = with_cookies(s.request, s.cookies);
            &&& t == s
            &&& match q.url {
                Some(u) => {
                    &&& asked(a, b)
                    &&& b.phase == a.phase
                    &&& (b.outbox.last() matches ActionV::Print(x) && x == join_words(
                        curl_parts(q, u, a.flags.insecure, a.flags.follow),
                    ))
                },
                None => chain_stopped(a, b, Some("error: URL not set (use: reel url <URL>)"@)),
            }
        },
        CommandV::Show => t == s && b == (RunnerV { do_show: true, ..a }),
        CommandV::Response(target, view) => t == s && b == (RunnerV { do_response: Some((target, view)), ..a }),
        CommandV::Reset => {
            &&& t == empty_state()
            &&& same_but_queue(RunnerV { modified: false, ..a }, b)
            &&& b.phase == a.phase
            &&& b.outbox.len() == k + 2
            &&& b.outbox.take(k) == a.outbox
            &&& b.outbox[k] == ActionV::DeleteSession
            &&& (b.outbox[k + 1] matches ActionV::Warn(w) && w == "Session cleared."@)
        },
        CommandV::Body(v) => match body_source_of(v) {
            BodySourceV::Literal(x) => {
                &&& t == (StateV { request: RequestV { body: Some(x), ..s.request }, ..s })
                &&& b == (RunnerV { modified: true, ..a })
            },
            BodySourceV::Stdin => {
                &&& t == s
                &&& asked(a, b)
                &&& b.outbox.last() == ActionV::ReadStdin
                &&& b.phase == PhaseV::AwaitBody
            },
            BodySourceV::File(p) => {
                &&& t == s
                &&& asked(a, b)
                &&& (b.outbox.last() matches ActionV::ReadFile(q) && q == p)
                &&& b.phase == PhaseV::AwaitBody
            },
        },
        CommandV::Save(p) => {
            &&& t == s
            &&& asked(a, b)
            &&& (b.outbox.last() matches ActionV::SavePreset(q) && q == p)
            &&& (b.phase matches PhaseV::AwaitPresetSave(r) && r == p)
        },
        CommandV::Load(p) => {
            &&& t == s
            &&& asked(a, b)
            &&& (b.outbox.last() matches ActionV::LoadPreset(q) && q == p)
            &&& (b.phase matches PhaseV::AwaitLoad(r) && r == p)
        },
        _ => t == s && b == a,
    }
}

/// `b` and `t` are `a` and `s` once the command `c` ran: an edit changes
/// the session (and leaves it unsaved), warns that there was nothing to
/// change, or stops the chain; any other command has its own effect.
pub open spec fn command_run(a: RunnerV, b: RunnerV, s: StateV, t: StateV, c: CommandV) -> bool {
    match edit_of(s, c) {
        EditV::Changed(s1) => t == s1 && b == (RunnerV { modified: true, ..a }),
        EditV::Unchanged(w) => t == s && queued(a, b, ActionV::Warn(w)),
        EditV::Failed(m) => t == s && chain_stopped(a, b, Some(m)),
        EditV::NotAnEdit => command_effect(a, b, s, t, c),
    }
}

/// `b` and `t` are `m` and `u` once the command at `m`'s position was
/// taken up by a runner with nothing queued and no action awaited.
pub open spec fn took_up(m: RunnerV, b: RunnerV, u: StateV, t: StateV) -> bool {
    &&& m.outbox.len() == 0
    &&& m.phase is Ready
    &&& m.next < m.commands.len()
    &&& command_run(RunnerV { next: m.next + 1, ..m }, b, u, t, m.commands[m.next as int])
}

/// The runners `rs` and sessions `ss` are a run of commands taken up in
/// order, one after the other.
pub open spec fn ran(rs: Seq<RunnerV>, ss: Seq<StateV>) -> bool {
    &&& rs.len() >= 1
    &&& ss.len() == rs.len()
    &&& forall|i: int| 0 <= i < rs.len() - 1 ==> #[trigger] took_up(rs[i], rs[i + 1], ss[i], ss[i + 1])
}

/// How taking up commands ends in `b` and `t` from `m` and `u`: a command
/// queued an action or awaits one; or the list ran out with nothing queued
/// and the chain stops.
pub open spec fn advance_end(m: RunnerV, b: RunnerV, u: StateV, t: StateV) -> bool {
    &&& t == u
    &&& if m.outbox.len() == 0 && m.phase is Ready {
        m.next >= m.commands.len() && chain_stopped(m, b, None)
    } else {
        b == m
    }
}

/// `b` and `t` are `a` and `s` once commands were taken up: when nothing is
/// queued and nothing awaited, commands run in order (`ran`) until one
/// queues or awaits an action, or the list runs out and the chain stops
/// (`advance_end`); otherwise nothing happens.
pub open spec fn advanced(a: RunnerV, b: RunnerV, s: StateV, t: StateV) -> bool {
    if a.outbox.len() == 0 && a.phase is Ready {
        exists|rs: Seq<RunnerV>, ss: Seq<StateV>|
            #[trigger] ran(rs, ss) && rs[0] == a && ss[0] == s && advance_end(rs.last(), b, ss.last(), t)
    } else {
        b == a && t == s
    }
}

/// `b` is `m` once one action `act` was handed out: the first queued one;
/// with nothing queued the run ends.
pub open spec fn handed_out(m: RunnerV, b: RunnerV, act: ActionV) -> bool {
    if m.outbox.len() > 0 {
        act == m.outbox[0] && b == (RunnerV { outbox: m.outbox.drop_first(), ..m })
    } else {
        act == ActionV::Finish(Err("error: nothing left to do"@)) && b == (RunnerV { phase: PhaseV::Finished, ..m })
    }
}

/// `m` and `u` are `a` and `s` once the event `e` answered what `a` waited
/// for: the body text is set and commands go on; a loaded preset is merged
/// into the session (`merged`), or, for `then`, interpolated and sent; a
/// saved preset is reported; a response is handled (`response_handled`); a
/// failed exchange is retried while the budget allows and the failure is
/// transient, else it stops the chain; after the delay the current request
/// is sent again; a saved session after a recorded exchange is reported
/// (`record_done`); the final save leads to the verdict. Any error the
/// caller reports stops the chain with that error, and so does an event
/// that answers nothing the runner waits for.
pub open spec fn event_handled(a: RunnerV, m: RunnerV, s: StateV, u: StateV, e: EventV) -> bool {
    let r = RunnerV { phase: PhaseV::Ready, ..a };
    match a.phase {
        PhaseV::Ready => advanced(r, m, s, u),
        PhaseV::Finished => {
            &&& u == s
            &&& m == (RunnerV { outbox: seq![ActionV::Finish(Err("error: the run is over"@))], ..a })
        },
        PhaseV::AwaitBody => match e {
            EventV::Text(Ok(x)) => advanced(
                RunnerV { modified: true, ..r },
                m,
                StateV { request: RequestV { body: Some(x), ..s.request }, ..s },
                u,
            ),
            EventV::Text(Err(msg)) => u == s && chain_stopped(r, m, Some(msg)),
            _ => u == s && chain_stopped(r, m, Some("error: expected the body text"@)),
        },
        PhaseV::AwaitLoad(p) => match e {
            EventV::Loaded(Ok(l)) => {
                &&& u == merged(s, l)
                &&& warned_lines(RunnerV { modified: true, ..r }, m, seq!["Request loaded from: "@ + p])
            },
            EventV::Loaded(Err(msg)) => u == s && chain_stopped(r, m, Some(msg)),
            _ => u == s && chain_stopped(r, m, Some("error: expected a loaded preset"@)),
        },
        PhaseV::AwaitThen(p) => match e {
            EventV::Loaded(Ok(l)) => then_started(r, m, s, u, p, l),
            EventV::Loaded(Err(msg)) => u == s && chain_stopped(r, m, Some(msg)),
            _ => u == s && chain_stopped(r, m, Some("error: expected a loaded preset"@)),
        },
        PhaseV::AwaitPresetSave(p) => match e {
            EventV::Saved(Ok(_)) => u == s && warned_lines(r, m, seq!["Request saved to: "@ + p]),
            EventV::Saved(Err(msg)) => u == s && chain_stopped(r, m, Some(msg)),
            _ => u == s && chain_stopped(r, m, Some("error: expected a saved preset"@)),
        },
        PhaseV::AwaitResponse(ex) => match e {
            EventV::Response(Ok(rec)) => exists|v: Option<bool>| #[trigger] response_handled(r, m, s, u, ex, rec, v),
            EventV::Response(Err(f)) => u == s && if retries_failure(ex.attempt, ex.max_attempts, f.0) {
                retried(r, m, ex, "network error ("@ + f.1 + ")"@)
            } else {
                chain_stopped(r, m, Some(f.1))
            },
            _ => u == s && chain_stopped(r, m, Some("error: expected an HTTP response"@)),
        },
        PhaseV::AwaitSleep(ex) => u == s && hop_sent(r, m, s.cookies, ExchangeV { base: s.request, hops: 0, ..ex }),
        PhaseV::AwaitRecordSave(ex) => match e {
            EventV::Saved(Ok(_)) => u == s && record_done(r, m, s, ex),
            EventV::Saved(Err(msg)) => u == s && chain_stopped(r, m, Some(msg)),
            _ => u == s && chain_stopped(r, m, Some("error: expected the session to be saved"@)),
        },
        PhaseV::AwaitFinalSave(o) => u == s && match o {
            Some(msg) => concluded(r, m, Some(msg)),
            None => match e {
                EventV::Saved(Err(msg)) => concluded(r, m, Some(msg)),
                _ => concluded(r, m, None),
            },
        },
    }
}

/// One step from the runner `a` and the session `s` on the event `e`, to
/// `b` and `t`, handing out `act`. With actions queued, the next one goes
/// out and nothing else happens. Otherwise the event answers what the
/// runner waited for (`event_handled`), commands are taken up while nothing
/// is queued (`advanced`), and the first queued action goes out
/// (`handed_out`).
pub open spec fn stepped(a: RunnerV, b: RunnerV, s: StateV, t: StateV, e: EventV, act: ActionV) -> bool {
    if a.outbox.len() > 0 {
        t == s && handed_out(a, b, act)
    } else {
        exists|m: RunnerV, u: StateV, m2: RunnerV, u2: StateV|
            #![trigger event_handled(a, m, s, u, e), advanced(m, m2, u, u2)]
            event_handled(a, m, s, u, e) && advanced(m, m2, u, u2) && handed_out(m2, b, act) && t == u2
    }
}

/// A single queued warning is a list of one warning line.
proof fn lemma_one_warning(a: RunnerV, b: RunnerV, w: Seq<char>)
    requires
        queued(a, b, ActionV::Warn(w)),
    ensures
        warned_lines(a, b, seq![w]),
{
    let k = a.outbox.len() as int;
    assert(b.outbox.take(k) =~= a.outbox);
    assert(b.outbox[k + 0] == b.outbox[k]);
}

/// The state machine that runs a command list.
pub struct Runner {
    commands: Vec<Command>,
    next: usize,
    flags: GlobalFlags,
    env: Vars,
    modified: bool,
    do_show: bool,
    do_response: Option<(ResponseTarget, ResponseView)>,
    http_failure: Option<u16>,
    outbox: Vec<Action>,
    phase: Phase,
}

fn copy_command(c: &Command) -> (r: Command)
    ensures
        r.deep_view() == c.deep_view(),
{
    match c {
        Command::Method(s) => Command::Method(s.clone()),
        Command::Url(s) => Command::Url(s.clone()),
        Command::Header(k, v) => Command::Header(k.clone(), v.clone()),
        Command::HeaderRm(s) => Command::HeaderRm(s.clone()),
        Command::HeaderRmAll => Command::HeaderRmAll,
        Command::Body(s) => Command::Body(s.clone()),
        Command::BodyRm => Command::BodyRm,
        Command::CookieRm(s) => Command::CookieRm(s.clone()),
        Command::Timeout(n) => Command::Timeout(*n),
        Command::Var(k, v) => Command::Var(k.clone(), v.clone()),
        Command::VarRm(s) => Command::VarRm(s.clone()),
        Command::Send => Command::Send,
        Command::Then(s) => Command::Then(s.clone()),
        Command::Expect(s) => Command::Expect(s.clone()),
        Command::Curl => Command::Curl,
        Command::Show => Command::Show,
        Command::Response(t, v) => Command::Response(*t, *v),
        Command::Reset => Command::Reset,
        Command::Save(s) => Command::Save(s.clone()),
        Command::Load(s) => Command::Load(s.clone()),
    }
}

fn join3(a: &str, b: &str, c: &str) -> (r: String)
    ensures
        r@ == a@ + b@ + c@,
{
    let mut m = string_from(a);
    m.append(b);
    m.append(c);
    m
}

fn number(n: u64) -> (r: String)
    ensures
        r@ == decimal(n as nat),
{
    string_of(decimal_exec(n as u128).as_slice())
}

impl View for Runner {
    type V = RunnerV;

    closed spec fn view(&self) -> RunnerV {
        RunnerV {
            commands: self.commands.deep_view(),
            next: self.next as nat,
            flags: self.flags@,
            env: self.env@,
            modified: self.modified,
            do_show: self.do_show,
            do_response: self.do_response,
            http_failure: self.http_failure,
            outbox: self.outbox@.map_values(|x: Action| x@),
            phase: self.phase@,
        }
    }
}

impl Runner {
    /// Every runner is well formed.
    #[verifier::type_invariant]
    spec fn inv(self) -> bool {
        well_formed(self@)
    }

    /// The runner is well formed (see `well_formed`).
    pub open spec fn wf(&self) -> bool {
        well_formed(self@)
    }

    /// The run was made with `--dry-run`.
    pub open spec fn is_dry_run(&self) -> bool {
        self@.flags.dry_run
    }

    /// The chain has stopped (a command failed, or the list ran out): only
    /// the final save and the verdict remain, and no further command runs.
    pub open spec fn is_ending(&self) -> bool {
        self@.phase is AwaitFinalSave || self@.phase is Finished
    }

    /// The position in the command list: how many commands have been taken up.
    pub open spec fn position(&self) -> int {
        self@.next as int
    }

    /// The run is over and its final action has been handed out.
    pub open spec fn is_finished(&self) -> bool {
        &&& self@.phase is Finished
        &&& self@.outbox.len() == 0
    }

    /// A runner for the commands, with the flags and a snapshot of the
    /// process environment (read by `${{ env.* }}`).
    pub fn new(commands: Vec<Command>, flags: GlobalFlags, env: Vars) -> (r: Runner)
        ensures
            r@ == (RunnerV {
                commands: commands.deep_view(),
                next: 0,
                flags: flags@,
                env: env@,
                modified: false,
                do_show: false,
                do_response: None,
                http_failure: None,
                outbox: Seq::empty(),
                phase: PhaseV::Ready,
            }),
            r.wf(),
            r.is_dry_run() == flags.dry_run,
            !r.is_finished(),
    {
        let r = Runner {
            commands,
            next: 0,
            flags,
            env,
            modified: false,
            do_show: false,
            do_response: None,
            http_failure: None,
            outbox: Vec::new(),
            phase: Phase::Ready,
        };
        assert(r@.outbox =~= Seq::<ActionV>::empty());
        r
    }

    fn emit(&mut self, a: Action)
        requires
            old(self).wf(),
            !(old(self).phase is Finished),
            !(a is Finish),
            old(self).flags.dry_run ==> !(a is Execute),
        ensures
            steady(old(self)@, final(self)@),
            queued(old(self)@, final(self)@, a@),
    {
        let ghost av = a@;
        let mut q: Vec<Action> = Vec::new();
        std::mem::swap(&mut q, &mut self.outbox);
        q.push(a);
        assert(q@.map_values(|x: Action| x@) =~= old(self)@.outbox.push(av));
        self.outbox = q;
        assert(self@.outbox =~= old(self)@.outbox.push(av));
    }

    fn warn(&mut self, m: String)
        requires
            old(self).wf(),
            !(old(self).phase is Finished),
        ensures
            steady(old(self)@, final(self)@),
            queued(old(self)@, final(self)@, ActionV::Warn(m@)),
    {
        let ghost mv = m@;
        let mut q: Vec<Action> = Vec::new();
        std::mem::swap(&mut q, &mut self.outbox);
        q.push(Action::Warn(m));
        assert(q@.map_values(|x: Action| x@) =~= old(self)@.outbox.push(ActionV::Warn(mv)));
        self.outbox = q;
        assert(self@.outbox =~= old(self)@.outbox.push(ActionV::Warn(mv)));
    }

    /// The end of the command list (or its abort with an error): the session
    /// is saved when it carries unsaved changes, then the run finishes.
    fn finish_chain(&mut self, outcome: Option<String>)
        requires
            old(self).wf(),
            !(old(self).phase is Finished),
        ensures
            steady(old(self)@, final(self)@),
            chain_stopped(old(self)@, final(self)@, outcome.deep_view()),
    {
        if self.modified {
            self.emit(Action::SaveSession);
            self.phase = Phase::AwaitFinalSave(outcome);
        } else {
            self.conclude(outcome);
        }
    }

    /// Ends the run: the error that stopped the chain, else under `fail` an
    /// error for the first failing status, else what is left to show.
    fn conclude(&mut self, outcome: Option<String>)
        requires
            old(self).wf(),
            !(old(self).phase is Finished),
        ensures
            steady(old(self)@, final(self)@),
            concluded(old(self)@, final(self)@, outcome.deep_view()),
    {
        let shown = ParseResult { do_show: self.do_show, do_response: self.do_response };
        let result = final_verdict(outcome, self.flags.fail_on_error, self.http_failure, shown);
        let ghost rv = Action::Finish(result)@;
        let mut q: Vec<Action> = Vec::new();
        std::mem::swap(&mut q, &mut self.outbox);
        self.phase = Phase::Finished;
        q.push(Action::Finish(result));
        assert(q@.map_values(|x: Action| x@) =~= old(self)@.outbox.push(rv));
        self.outbox = q;
        assert(self@.outbox =~= old(self)@.outbox.push(rv));
        assert(self@.outbox.drop_last() =~= old(self)@.outbox);
    }

    fn dry_run(&mut self, state: &State)
        requires
            old(self).wf(),
            !(old(self).phase is Finished),
        ensures
            steady(old(self)@, final(self)@),
            warned_lines(old(self)@, final(self)@, dry_run_text(with_cookies(state@.request, state@.cookies))),
    {
        let request = with_session_cookies(&state.request, state.cookies.as_slice());
        let lines = dry_run_lines(&request);
        let ghost text = lines.deep_view();
        assert(self@.outbox.take(self@.outbox.len() as int) =~= self@.outbox);
        let mut i: usize = 0;
        while i < lines.len()
            invariant
                i <= lines@.len(),
                text == lines.deep_view(),
                steady(old(self)@, self@),
                !(self.phase is Finished),
                warned_lines(old(self)@, self@, text.take(i as int)),
            decreases lines@.len() - i,
        {
            let ghost before = self@;
            self.warn(lines[i].clone());
            proof {
                let k = old(self)@.outbox.len() as int;
                assert(text.take(i + 1) =~= text.take(i as int).push(text[i as int]));
                assert(self@.outbox == before.outbox.push(ActionV::Warn(lines@[i as int]@)));
                assert(self@.outbox.take(k) =~= old(self)@.outbox) by {
                    assert(before.outbox.take(k) =~= old(self)@.outbox);
                }
                assert forall|j: int| 0 <= j < i + 1 implies ((#[trigger] self@.outbox[k + j]) matches ActionV::Warn(w)
                    && w == text.take(i + 1)[j]) by {
                    if j < i {
                        assert(self@.outbox[k + j] == before.outbox[k + j]);
                    }
                }
            }
            i += 1;
        }
        assert(text.take(lines@.len() as int) =~= text);
    }

    fn start_exchange(&mut self, state: &mut State, source: Option<String>, fresh: bool)
        requires
            old(self).wf(),
            !(old(self).phase is Finished),
            !old(self).flags.dry_run,
        ensures
            steady(old(self)@, final(self)@),
            *final(state) == *old(state),
            exchange_started(old(self)@, final(self)@, old(state)@, source.deep_view(), fresh),
    {
        let ghost k = old(self)@.outbox.len() as int;
        if state.request.body.is_some() && state.request.headers.get("content-type").is_none() {
            self.warn(string_from("warning: body is set but Content-Type header is missing"));
        }
        let ghost mid = self@;
        assert(mid.outbox.take(k) =~= old(self)@.outbox);
        let cleared = fresh && state.responses.len() > 0;
        let max = max_attempts(self.flags.until.is_some(), self.flags.retry);
        let ex = Exchange {
            base: state.request.duplicate(),
            sent: Request::new(),
            source,
            fresh,
            attempt: 1,
            max_attempts: max,
            hops: 0,
            cleared,
            until_error: None,
        };
        self.send_hop(state, ex);
        assert(self@.outbox.take(k) =~= old(self)@.outbox) by {
            assert(self@.outbox.take(k) =~= self@.outbox.drop_last().take(k));
        }
        assert(k < mid.outbox.len() ==> self@.outbox[k] == mid.outbox[k]) by {
            assert(self@.outbox.drop_last() == mid.outbox);
        }
    }

    fn send_hop(&mut self, state: &State, ex: Exchange)
        requires
            old(self).wf(),
            !(old(self).phase is Finished),
            !old(self).flags.dry_run,
        ensures
            steady(old(self)@, final(self)@),
            hop_sent(old(self)@, final(self)@, state@.cookies, ex@),
    {
        let ghost ex0 = ex@;
        let mut ex = ex;
        let request = with_session_cookies(&ex.base, state.cookies.as_slice());
        ex.sent = request.duplicate();
        let source = match &ex.source {
            Some(s) => Some(s.clone()),
            None => None,
        };
        self.emit(Action::Execute(request, source));
        self.phase = Phase::AwaitResponse(ex);
        assert(self@.outbox.drop_last() =~= old(self)@.outbox);
    }

    fn retry(&mut self, ex: Exchange, reason: String)
        requires
            old(self).wf(),
            !(old(self).phase is Finished),
            !old(self).flags.dry_run,
        ensures
            steady(old(self)@, final(self)@),
            retried(old(self)@, final(self)@, ex@, reason@),
    {
        let mut ex = ex;
        if ex.attempt < u32::MAX {
            ex.attempt = ex.attempt + 1;
        }
        let mut m = reason;
        m.append("; retrying in ");
        m.append(number(self.flags.delay_secs).as_str());
        m.append("s (attempt ");
        m.append(number(ex.attempt as u64).as_str());
        m.append("/");
        m.append(number(ex.max_attempts as u64).as_str());
        m.append(")");
        self.warn(m);
        self.emit(Action::Sleep(self.flags.delay_secs));
        self.phase = Phase::AwaitSleep(ex);
        assert(self@.outbox.take(old(self)@.outbox.len() as int) =~= old(self)@.outbox);
    }

    /// The end of an attempt that produced a response: record it, poll
    /// again, or retry a transient server error.
    fn attempt_done(&mut self, state: &mut State, ex: Exchange, record: ResponseRecord)
        requires
            old(self).wf(),
            !(old(self).phase is Finished),
            !old(self).flags.dry_run,
        ensures
            steady(old(self)@, final(self)@),
            aligned(old(state)@) ==> aligned(final(state)@),
            exists|u: Option<bool>|
                poll_verdict(old(self)@, old(state)@, ex@, record@, u) && #[trigger] attempt_finished(
                    old(self)@,
                    final(self)@,
                    old(state)@,
                    final(state)@,
                    ex@,
                    record@,
                    u,
                ),
    {
        let ghost a0 = self@;
        let ghost s0 = state@;
        let ghost ex0 = ex@;
        let ghost rec = record@;
        let mut ex = ex;
        let until = match &self.flags.until {
            Some(condition) => {
                assert(a0.flags.until == Some(condition@));
                let (mut requests, mut responses) = if ex.fresh {
                    (Vec::new(), Vec::new())
                } else {
                    (copy_requests(&state.requests), copy_responses(&state.responses))
                };
                let ghost rq0 = requests.deep_view();
                let ghost rs0 = responses.deep_view();
                assert(rq0 =~= (if ex0.fresh { Seq::empty() } else { s0.requests }));
                assert(rs0 =~= (if ex0.fresh { Seq::empty() } else { s0.responses }));
                requests.push(ex.sent.duplicate());
                responses.push(record.duplicate());
                assert(requests.deep_view() =~= rq0.push(ex0.sent));
                assert(responses.deep_view() =~= rs0.push(rec));
                let ctx = Context {
                    requests: requests.as_slice(),
                    responses: responses.as_slice(),
                    vars: &state.vars,
                    env: &self.env,
                };
                assert(ctx@ == poll_context(a0, s0, ex0, rec));
                let verdict = check_condition(condition.as_str(), &ctx);
                let u = Some(verdict.is_ok());
                proof {
                    let d = choose|d: Draw|
                        draw_ok(d) && (verdict is Ok <==> #[trigger] condition_holds(condition@, ctx@, d));
                    assert(draw_ok(d) && (verdict is Ok <==> condition_holds(
                        condition@,
                        poll_context(a0, s0, ex0, rec),
                        d,
                    )));
                }
                assert(u == Some(verdict is Ok));
                assert(exists|d: Draw|
                    draw_ok(d) && ((verdict is Ok) <==> #[trigger] condition_holds(
                        condition@,
                        poll_context(a0, s0, ex0, rec),
                        d,
                    )));
                assert(a0.flags.until == Some(condition@));
                assert(poll_verdict(a0, s0, ex0, rec, u)) by {
                    let c = a0.flags.until->0;
                    assert(c == condition@);
                    assert(u->0 == (verdict is Ok));
                }
                u
            },
            None => {
                assert(a0.flags.until is None);
                None
            },
        };
        assert(poll_verdict(a0, s0, ex0, rec, until));
        match decide_after_response(until, record.status, ex.attempt, ex.max_attempts) {
            AfterResponse::Retry => {
                let reason = if until.is_some() {
                    string_from("condition not met")
                } else {
                    join3("server error (", format_status(record.status).as_str(), ")")
                };
                self.retry(ex, reason);
                assert(attempt_finished(a0, self@, s0, state@, ex0, rec, until));
                return;
            },
            AfterResponse::RecordThenFail => {
                let condition = match &self.flags.until {
                    Some(c) => c.clone(),
                    None => String::new(),
                };
                let mut m = join3("error: condition '", condition.as_str(), "' not met after ");
                m.append(number(ex.max_attempts as u64).as_str());
                m.append(" attempt(s)");
                ex.until_error = Some(m);
            },
            AfterResponse::Record => {},
        }
        let request = ex.sent.duplicate();
        record_exchange(state, request, record, ex.fresh);
        self.emit(Action::SaveSession);
        self.phase = Phase::AwaitRecordSave(ex);
        assert(attempt_finished(a0, self@, s0, state@, ex0, rec, until));
    }

    /// A response arrived: take its cookies, follow a redirect under
    /// `--follow`, or finish the attempt.
    fn on_response(&mut self, state: &mut State, ex: Exchange, record: ResponseRecord)
        requires
            old(self).wf(),
            !(old(self).phase is Finished),
            !old(self).flags.dry_run,
        ensures
            steady(old(self)@, final(self)@),
            aligned(old(state)@) ==> aligned(final(state)@),
            exists|u: Option<bool>|
                #[trigger] response_handled(old(self)@, final(self)@, old(state)@, final(state)@, ex@, record@, u),
    {
        let ghost a0 = self@;
        let ghost s0 = state@;
        let ghost ex0 = ex@;
        let ghost rec = record@;
        let mut ex = ex;
        let url = match &ex.sent.url {
            Some(u) => Some(u.as_str()),
            None => None,
        };
        assert(url.deep_view() == ex0.sent.url);
        if absorb_cookies(&mut state.cookies, url, record.set_cookies.as_slice()) {
            self.modified = true;
        }
        let ghost a1 = self@;
        let ghost s1 = state@;
        assert(a1 == absorbed_runner(a0, s0, ex0, rec));
        assert(s1 == with_absorbed(s0, ex0, rec));
        if self.flags.follow {
            let location = match record.headers.get("location") {
                Some(l) => Some(string_from(l)),
                None => None,
            };
            let loc = match &location {
                Some(l) => Some(l.as_str()),
                None => None,
            };
            assert(loc.deep_view() == header_lookup(rec.headers, "location"@));
            match redirect_target(&ex.base, record.status, loc) {
                Some(next) => {
                    if ex.hops >= MAX_REDIRECTS {
                        let m = join3("error: too many redirects (more than ", number(MAX_REDIRECTS as u64).as_str(), ")");
                        self.finish_chain(Some(m));
                        assert(response_handled(a0, self@, s0, state@, ex0, rec, None));
                        return;
                    }
                    ex.hops = ex.hops + 1;
                    let target = match &next.url {
                        Some(u) => u.clone(),
                        None => string_from("?"),
                    };
                    let mut m = join3("following redirect -> ", target.as_str(), " (");
                    m.append(format_status(record.status).as_str());
                    m.append(")");
                    self.warn(m);
                    let ghost mid = self@;
                    let ghost k = a1.outbox.len() as int;
                    ex.base = next;
                    self.send_hop(state, ex);
                    assert(self@.outbox.take(k) =~= a1.outbox) by {
                        assert(self@.outbox.take(k) =~= self@.outbox.drop_last().take(k));
                        assert(mid.outbox.take(k) =~= a1.outbox);
                    }
                    assert(self@.outbox[k] == mid.outbox[k]) by {
                        assert(self@.outbox.drop_last() == mid.outbox);
                    }
                    assert(response_handled(a0, self@, s0, state@, ex0, rec, None));
                    return;
                },
                None => {},
            }
        }
        assert(redirect_from(a0, ex0, rec) is None);
        self.attempt_done(state, ex, record);
        let ghost u = choose|u: Option<bool>|
            poll_verdict(a1, s1, ex0, rec, u) && #[trigger] attempt_finished(a1, self@, s1, state@, ex0, rec, u);
        assert(response_handled(a0, self@, s0, state@, ex0, rec, u));
    }

    /// The session was saved after recording an exchange: report it and go on.
    fn after_record(&mut self, state: &State, ex: Exchange)
        requires
            old(self).wf(),
            !(old(self).phase is Finished),
        ensures
            steady(old(self)@, final(self)@),
            record_done(old(self)@, final(self)@, state@, ex@),
    {
        let ghost a0 = self@;
        let ghost k = a0.outbox.len() as int;
        let n = state.responses.len();
        if n > 0 {
            let last = &state.responses[n - 1];
            assert(last@ == state@.responses.last());
            let mut m = join3("< ", format_status(last.status).as_str(), " (");
            m.append(number(last.elapsed_ms).as_str());
            m.append(" ms, ");
            m.append(format_size(last.body.as_str().as_bytes().len()).as_str());
            if ex.cleared {
                m.append(", previous responses cleared");
            }
            m.append(")");
            assert(m@ == report_text(last@, ex.cleared));
            self.warn(m);
            self.emit(Action::PrintBody(last.body.clone(), true));
            self.http_failure = remember_failure(self.http_failure, last.status);
            assert(self@.outbox.take(k) =~= a0.outbox);
        }
        let ghost mid = self@;
        assert(reported(a0, mid, state@, ex@));
        match ex.until_error {
            Some(m) => self.finish_chain(Some(m)),
            None => {
                self.modified = false;
            },
        }
    }

    /// Runs one command; outputs and at most one blocking action go to the
    /// outbox.
    fn run_command(&mut self, state: &mut State, cmd: Command)
        requires
            old(self).wf(),
            !(old(self).phase is Finished),
        ensures
            steady(old(self)@, final(self)@),
            aligned(old(state)@) ==> aligned(final(state)@),
            command_run(old(self)@, final(self)@, old(state)@, final(state)@, cmd.deep_view()),
    {
        let ghost a0 = self@;
        let ghost s0 = state@;
        let ghost k = a0.outbox.len() as int;
        let ghost cv = cmd.deep_view();
        match apply_edit(state, &cmd) {
            Edit::Changed => {
                self.modified = true;
                return;
            },
            Edit::Unchanged(w) => {
                self.warn(w);
                return;
            },
            Edit::Failed(m) => {
                self.finish_chain(Some(m));
                return;
            },
            Edit::NotAnEdit => {},
        }
        assert(state@ == s0 && edit_of(s0, cv) is NotAnEdit);
        match cmd {
            Command::Send => {
                if self.flags.dry_run {
                    self.dry_run(state);
                } else {
                    self.start_exchange(state, None, true);
                }
            },
            Command::Then(path) => {
                self.emit(Action::LoadPreset(path.clone()));
                self.phase = Phase::AwaitThen(path);
                assert(self@.outbox.drop_last() =~= a0.outbox);
            },
            Command::Expect(condition) => {
                if self.flags.dry_run {
                    self.warn(join3("(dry-run: skipping expect ", condition.as_str(), ")"));
                    assert(self@.outbox.take(k) =~= a0.outbox);
                    assert(self@.outbox[k + 0] == self@.outbox[k]);
                } else {
                    let outcome = {
                        let ctx = Context {
                            requests: state.requests.as_slice(),
                            responses: state.responses.as_slice(),
                            vars: &state.vars,
                            env: &self.env,
                        };
                        assert(ctx@ == history_context(a0, s0));
                        check_condition(condition.as_str(), &ctx)
                    };
                    match outcome {
                        Ok(()) => {
                            self.warn(join3("expect ok: ", condition.as_str(), ""));
                            assert(self@.outbox.take(k) =~= a0.outbox);
                            assert(self@.outbox[k + 0] == self@.outbox[k]);
                            assert(("expect ok: "@ + condition@ + ""@) =~= "expect ok: "@ + condition@) by {
                                reveal_strlit("");
                            }
                        },
                        Err(e) => {
                            self.finish_chain(Some(join3("error: ", e.message.as_str(), "")));
                            assert(("error: "@ + e.message@ + ""@) =~= "error: "@ + e.message@) by {
                                reveal_strlit("");
                            }
                            assert(chain_stopped(a0, self@, Some("error: "@ + e.message@)));
                        },
                    }
                }
            },
            Command::Curl => {
                let request = with_session_cookies(&state.request, state.cookies.as_slice());
                match format_curl_with(&request, self.flags.insecure, self.flags.follow) {
                    Ok(text) => {
                        self.emit(Action::Print(text));
                        assert(self@.outbox.drop_last() =~= a0.outbox);
                    },
                    Err(m) => {
                        self.finish_chain(Some(m));
                        assert(chain_stopped(a0, self@, Some(m@)));
                    },
                }
            },
            Command::Show => {
                self.do_show = true;
            },
            Command::Response(target, view) => {
                self.do_response = Some((target, view));
            },
            Command::Reset => {
                *state = State::new();
                self.emit(Action::DeleteSession);
                self.modified = false;
                self.warn(string_from("Session cleared."));
                assert(self@.outbox.take(k) =~= a0.outbox);
            },
            Command::Body(value) => {
                match resolve_body(value.as_str()) {
                    BodySource::Literal(text) => {
                        state.request.body = Some(text);
                        self.modified = true;
                    },
                    BodySource::Stdin => {
                        self.emit(Action::ReadStdin);
                        self.phase = Phase::AwaitBody;
                        assert(self@.outbox.drop_last() =~= a0.outbox);
                    },
                    BodySource::File(path) => {
                        self.emit(Action::ReadFile(path));
                        self.phase = Phase::AwaitBody;
                        assert(self@.outbox.drop_last() =~= a0.outbox);
                    },
                }
            },
            Command::Save(path) => {
                self.emit(Action::SavePreset(path.clone()));
                self.phase = Phase::AwaitPresetSave(path);
                assert(self@.outbox.drop_last() =~= a0.outbox);
            },
            Command::Load(path) => {
                self.emit(Action::LoadPreset(path.clone()));
                self.phase = Phase::AwaitLoad(path);
                assert(self@.outbox.drop_last() =~= a0.outbox);
            },
            _ => {},
        }
    }

    /// Runs commands until one produces an action.
    fn advance(&mut self, state: &mut State)
        requires
            old(self).wf(),
            !(old(self).phase is Finished),
        ensures
            final(self).wf(),
            final(self).flags.dry_run == old(self).flags.dry_run,
            final(self).phase is Finished ==> final(self).outbox@.len() > 0,
            final(self).next >= old(self).next,
            aligned(old(state)@) ==> aligned(final(state)@),
            advanced(old(self)@, final(self)@, old(state)@, final(state)@),
    {
        match self.phase {
            Phase::Ready => {},
            _ => {
                return;
            },
        }
        let ghost a0 = self@;
        let ghost s0 = state@;
        let ghost start = a0.outbox.len() == 0 && a0.phase is Ready;
        let ghost mut rs: Seq<RunnerV> = seq![a0];
        let ghost mut ss: Seq<StateV> = seq![s0];
        while self.outbox.len() == 0 && self.next < self.commands.len()
            invariant
                self.wf(),
                !(self.phase is Finished),
                self.next >= old(self).next,
                self.flags.dry_run == old(self).flags.dry_run,
                aligned(old(state)@) ==> aligned(state@),
                a0 == old(self)@,
                s0 == old(state)@,
                start == (a0.outbox.len() == 0 && a0.phase is Ready),
                start ==> self.phase is Ready && ran(rs, ss) && rs[0] == a0 && ss[0] == s0 && rs.last() == self@
                    && ss.last() == state@,
                a0.outbox.len() > 0 ==> self@ == a0 && state@ == s0,
                a0.phase is Ready,
            decreases self.commands@.len() - self.next,
        {
            let ghost m = self@;
            let ghost u = state@;
            let cmd = copy_command(&self.commands[self.next]);
            self.next = self.next + 1;
            let ghost m1 = self@;
            let ghost cv = cmd.deep_view();
            self.run_command(state, cmd);
            proof {
                if start {
                    assert(m1 == (RunnerV { next: m.next + 1, ..m }));
                    assert(cv == m.commands[m.next as int]);
                    assert(took_up(m, self@, u, state@));
                    let rs1 = rs.push(self@);
                    let ss1 = ss.push(state@);
                    assert forall|i: int| 0 <= i < rs1.len() - 1 implies #[trigger] took_up(
                        rs1[i],
                        rs1[i + 1],
                        ss1[i],
                        ss1[i + 1],
                    ) by {
                        if i < rs.len() - 1 {
                            assert(took_up(rs[i], rs[i + 1], ss[i], ss[i + 1]));
                        }
                    }
                    assert(rs1[0] == rs[0] && ss1[0] == ss[0]);
                    rs = rs1;
                    ss = ss1;
                }
            }
            match self.phase {
                Phase::Ready => {},
                _ => {
                    assert(start ==> ran(rs, ss) && rs[0] == a0 && ss[0] == s0 && advance_end(
                        rs.last(),
                        self@,
                        ss.last(),
                        state@,
                    ));
                    return;
                },
            }
        }
        if self.outbox.len() == 0 {
            match self.phase {
                Phase::Ready => self.finish_chain(None),
                _ => {},
            }
        }
        assert(start ==> ran(rs, ss) && advance_end(rs.last(), self@, ss.last(), state@));
    }

    fn fail(&mut self, m: String)
        requires
            old(self).wf(),
            !(old(self).phase is Finished),
        ensures
            steady(old(self)@, final(self)@),
            chain_stopped(old(self)@, final(self)@, Some(m@)),
    {
        self.finish_chain(Some(m));
    }

    /// The event answers what the runner waited for, in `phase`.
    fn handle_event(&mut self, state: &mut State, phase: Phase, event: Event)
        requires
            old(self).wf(),
            old(self).phase is Ready,
            old(self)@.outbox.len() == 0,
            well_formed(RunnerV { phase: phase@, ..old(self)@ }),
        ensures
            final(self).wf(),
            final(self)@.flags.dry_run == old(self)@.flags.dry_run,
            final(self)@.next >= old(self)@.next,
            (phase is AwaitFinalSave || phase is Finished) ==> final(self).phase is Finished && final(self)@.next
                == old(self)@.next,
            final(self).phase is Finished ==> final(self)@.outbox.len() > 0,
            phase is Finished ==> *final(state) == *old(state),
            !(event is Loaded) && aligned(old(state)@) ==> aligned(final(state)@),
            event_handled(RunnerV { phase: phase@, ..old(self)@ }, final(self)@, old(state)@, final(state)@, event@),
    {
        let ghost a0 = RunnerV { phase: phase@, ..self@ };
        let ghost s0 = state@;
        let ghost ev = event@;
        let ghost r = self@;
        assert(r == (RunnerV { phase: PhaseV::Ready, ..a0 }));
        match phase {
            Phase::Ready => self.advance(state),
            Phase::Finished => {
                self.phase = Phase::Finished;
                let mut q: Vec<Action> = Vec::new();
                q.push(Action::Finish(Err(string_from("error: the run is over"))));
                self.outbox = q;
                assert(self@.outbox =~= seq![ActionV::Finish(Err("error: the run is over"@))]);
            },
            Phase::AwaitBody => match event {
                Event::Text(Ok(text)) => {
                    state.request.body = Some(text);
                    self.modified = true;
                    self.advance(state);
                },
                Event::Text(Err(m)) => self.fail(m),
                _ => self.fail(string_from("error: expected the body text")),
            },
            Phase::AwaitLoad(path) => match event {
                Event::Loaded(Ok(loaded)) => {
                    load_merge(state, loaded);
                    self.modified = true;
                    let mut m = string_from("Request loaded from: ");
                    m.append(path.as_str());
                    let ghost before = self@;
                    self.warn(m);
                    proof {
                        lemma_one_warning(before, self@, "Request loaded from: "@ + path@);
                    }
                },
                Event::Loaded(Err(m)) => self.fail(m),
                _ => self.fail(string_from("error: expected a loaded preset")),
            },
            Phase::AwaitThen(path) => match event {
                Event::Loaded(Ok(loaded)) => self.on_then(state, path, loaded),
                Event::Loaded(Err(m)) => self.fail(m),
                _ => self.fail(string_from("error: expected a loaded preset")),
            },
            Phase::AwaitPresetSave(path) => match event {
                Event::Saved(Ok(())) => {
                    let mut m = string_from("Request saved to: ");
                    m.append(path.as_str());
                    self.warn(m);
                    proof {
                        lemma_one_warning(r, self@, "Request saved to: "@ + path@);
                    }
                },
                Event::Saved(Err(m)) => self.fail(m),
                _ => self.fail(string_from("error: expected a saved preset")),
            },
            Phase::AwaitResponse(ex) => match event {
                Event::Response(Ok(record)) => self.on_response(state, ex, record),
                Event::Response(Err(f)) => {
                    if retry_after_failure(ex.attempt, ex.max_attempts, f.permanent) {
                        let reason = join3("network error (", f.message.as_str(), ")");
                        self.retry(ex, reason);
                    } else {
                        self.fail(f.message);
                    }
                },
                _ => self.fail(string_from("error: expected an HTTP response")),
            },
            Phase::AwaitSleep(ex) => {
                let mut ex = ex;
                let ghost ex0 = ex@;
                ex.base = state.request.duplicate();
                ex.hops = 0;
                assert(ex@ == (ExchangeV { base: s0.request, hops: 0, ..ex0 }));
                self.send_hop(state, ex);
            },
            Phase::AwaitRecordSave(ex) => match event {
                Event::Saved(Ok(())) => self.after_record(state, ex),
                Event::Saved(Err(m)) => self.fail(m),
                _ => self.fail(string_from("error: expected the session to be saved")),
            },
            Phase::AwaitFinalSave(outcome) => match outcome {
                Some(m) => self.conclude(Some(m)),
                None => match event {
                    Event::Saved(Err(m)) => self.conclude(Some(m)),
                    _ => self.conclude(None),
                },
            },
        }
    }

    /// One step: the caller reports the outcome of the previous action and
    /// receives the next one. Commands are taken up in order and never
    /// revisited; once the chain stops (a failed command, or the end of the
    /// list) no later command runs; under `--dry-run` nothing is ever sent;
    /// a `Finish` is the last action of a run, and every step after it
    /// answers `Finish` again without touching the session. Apart from
    /// `load`, which replaces the session with a file's contents, a step
    /// keeps the history aligned: every recorded request has its response at
    /// the same index. What the step does in full is `stepped`: the runner,
    /// the session and the action handed out, over the event.
    pub fn step(&mut self, state: &mut State, event: Event) -> (a: Action)
        ensures
            final(self).wf(),
            final(self).is_dry_run() == old(self).is_dry_run(),
            old(self).is_dry_run() ==> !(a is Execute),
            a is Finish ==> final(self).is_finished(),
            final(self).position() >= old(self).position(),
            old(self).is_ending() ==> final(self).is_ending() && final(self).position() == old(self).position(),
            old(self).is_finished() ==> {
                &&& a is Finish
                &&& final(self).is_finished()
                &&& *final(state) == *old(state)
            },
            !(event is Loaded) && aligned(old(state)@) ==> aligned(final(state)@),
            stepped(old(self)@, final(self)@, old(state)@, final(state)@, event@, a@),
    {
        proof {
            use_type_invariant(&*self);
        }
        let ghost a0 = self@;
        let ghost s0 = state@;
        let ghost ev = event@;
        if self.outbox.len() == 0 {
            let mut phase = Phase::Ready;
            std::mem::swap(&mut phase, &mut self.phase);
            let ghost r = self@;
            assert(r == (RunnerV { phase: PhaseV::Ready, ..a0 }));
            assert(phase@ == a0.phase);
            self.handle_event(state, phase, event);
            let ghost m = self@;
            let ghost u = state@;
            assert(event_handled(a0, m, s0, u, ev));
            if self.outbox.len() == 0 {
                self.advance(state);
            }
            assert(advanced(m, self@, u, state@));
        }
        if self.outbox.len() == 0 {
            self.phase = Phase::Finished;
            return Action::Finish(Err(string_from("error: nothing left to do")));
        }
        let ghost ov = self@;
        let mut q: Vec<Action> = Vec::new();
        std::mem::swap(&mut q, &mut self.outbox);
        let a = q.remove(0);
        assert(q@.map_values(|x: Action| x@) =~= ov.outbox.drop_first());
        self.outbox = q;
        assert(self@.outbox =~= ov.outbox.drop_first());
        assert(a@ == ov.outbox[0]);
        a
    }

    /// A `then` preset was loaded: its request replaces the current one and
    /// is interpolated against the history, then sent.
    fn on_then(&mut self, state: &mut State, path: String, loaded: State)
        requires
            old(self).wf(),
            !(old(self).phase is Finished),
        ensures
            steady(old(self)@, final(self)@),
            aligned(old(state)@) ==> aligned(final(state)@),
            then_started(old(self)@, final(self)@, old(state)@, final(state)@, path@, loaded@),
    {
        let ghost a0 = self@;
        let ghost s0 = state@;
        let ghost lv = loaded@;
        state.request = loaded.request;
        assert(state@ == (StateV { request: lv.request, ..s0 }));
        let mut request = state.request.duplicate();
        let outcome = {
            let ctx = Context {
                requests: state.requests.as_slice(),
                responses: state.responses.as_slice(),
                vars: &state.vars,
                env: &self.env,
            };
            assert(ctx@ == history_context(a0, s0));
            apply_interpolation(&mut request, &ctx)
        };
        state.request = request;
        match outcome {
            Ok(()) => {},
            Err(e) => {
                let mut m = join3("error in '", path.as_str(), "': ");
                m.append(e.message.as_str());
                self.fail(m);
                assert(chain_stopped(a0, self@, Some(then_error(path@, e.message@))));
                return;
            },
        }
        let ghost t = state@;
        assert(t == (StateV { request: t.request, ..s0 }));
        if self.flags.dry_run {
            self.warn(join3("(dry-run: ", path.as_str(), ")"));
            let ghost mid = self@;
            assert(warned_lines(a0, mid, seq!["(dry-run: "@ + path@ + ")"@])) by {
                let k = a0.outbox.len() as int;
                assert(mid.outbox.take(k) =~= a0.outbox);
                assert(mid.outbox[k + 0] == mid.outbox[k]);
            }
            self.dry_run(state);
        } else {
            self.start_exchange(state, Some(path), false);
        }
    }
}

/// A failed exchange never touches the session: when the runner waits for
/// a response and the caller reports that the request failed, the step
/// leaves the session (its history, jar and variables) as it was, whether
/// the request is tried again or the chain stops.
pub proof fn law_failed_exchange_keeps_session(
    a: RunnerV,
    b: RunnerV,
    s: StateV,
    t: StateV,
    f: (bool, Seq<char>),
    act: ActionV,
)
    requires
        well_formed(a),
        a.phase is AwaitResponse,
        stepped(a, b, s, t, EventV::Response(Err(f)), act),
    ensures
        t == s,
{
    if a.outbox.len() == 0 {
        let e = EventV::Response(Err(f));
        let (m, u, m2, u2) = choose|m: RunnerV, u: StateV, m2: RunnerV, u2: StateV|
            #![trigger event_handled(a, m, s, u, e), advanced(m, m2, u, u2)]
            event_handled(a, m, s, u, e) && advanced(m, m2, u, u2) && handed_out(m2, b, act) && t == u2;
        assert(m.outbox.len() > 0);
    }
}

} // verus!
