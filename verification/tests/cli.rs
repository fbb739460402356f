use std::cell::{Cell, RefCell};
use std::collections::HashMap;

use reel::cli::display::{header_block_lines, response_selection, state_lines};
use reel::cli::runner::{Action, Event, HttpFailure, Runner};
use reel::cli::{
    format_curl, format_size, parse_args, Command, GlobalFlags, ParseResult, ResponseTarget,
    ResponseView,
};
use reel::model::{Cookie, Request, ResponseRecord, State, Vars};

// --- outside services, as the runner's caller provides them ---

trait HttpClient {
    fn execute(&self, request: &Request, source: Option<&str>) -> Result<ResponseRecord, HttpFailure>;
}

trait SessionStore {
    fn save(&self, state: &State) -> Result<(), String>;
    fn delete(&self);
}

trait PresetStore {
    fn load(&self, path: &str) -> Result<State, String>;
    fn save(&self, request: &Request, path: &str) -> Result<(), String>;
}

fn copy_flags(f: &GlobalFlags) -> GlobalFlags {
    GlobalFlags {
        insecure: f.insecure,
        fail_on_error: f.fail_on_error,
        dry_run: f.dry_run,
        help: f.help,
        version: f.version,
        follow: f.follow,
        retry: f.retry,
        until: f.until.clone(),
        delay_secs: f.delay_secs,
    }
}

// Drives the runner: performs each action and reports its outcome.
fn run_commands(
    commands: Vec<Command>,
    flags: &GlobalFlags,
    state: &mut State,
    http: &dyn HttpClient,
    session: &dyn SessionStore,
    presets: &dyn PresetStore,
) -> Result<ParseResult, String> {
    let mut runner = Runner::new(commands, copy_flags(flags), Vars::new());
    let mut event = Event::Start;
    loop {
        event = match runner.step(state, event) {
            Action::Warn(_) => Event::Done,
            Action::Print(line) => {
                println!("{}", line);
                Event::Done
            }
            Action::PrintBody(body, _) => {
                println!("{}", body);
                Event::Done
            }
            Action::Execute(request, source) => {
                Event::Response(http.execute(&request, source.as_deref()))
            }
            Action::Sleep(_) => Event::Done,
            Action::SaveSession => Event::Saved(session.save(state)),
            Action::DeleteSession => {
                session.delete();
                Event::Done
            }
            Action::LoadPreset(path) => Event::Loaded(presets.load(&path)),
            Action::SavePreset(path) => Event::Saved(presets.save(&state.request, &path)),
            Action::ReadStdin => Event::Text(Err("error reading body from stdin: not a terminal test".to_string())),
            // No file exists in this test world.
            Action::ReadFile(path) => Event::Text(Err(format!(
                "error reading body file '{}': not found",
                path
            ))),
            Action::Finish(result) => return result,
        };
    }
}

// --- mocks ---

fn response(status: u16, body: &str) -> ResponseRecord {
    ResponseRecord {
        status,
        body: body.to_string(),
        ..Default::default()
    }
}

// Responses are consumed front-to-back; the last one repeats forever.
struct MockHttp {
    responses: RefCell<Vec<Result<ResponseRecord, ()>>>,
    seen: RefCell<Vec<Request>>,
}

impl MockHttp {
    fn sequence(responses: Vec<Result<ResponseRecord, ()>>) -> Self {
        assert!(!responses.is_empty());
        Self {
            responses: RefCell::new(responses),
            seen: RefCell::new(Vec::new()),
        }
    }

    fn ok(status: u16) -> Self {
        Self::sequence(vec![Ok(response(status, "{}"))])
    }

    fn err() -> Self {
        Self::sequence(vec![Err(())])
    }

    fn with_set_cookies(self, cookies: &[&str]) -> Self {
        for r in self.responses.borrow_mut().iter_mut().flatten() {
            r.set_cookies = cookies.iter().map(|s| s.to_string()).collect();
        }
        self
    }
}

impl HttpClient for MockHttp {
    fn execute(&self, request: &Request, source: Option<&str>) -> Result<ResponseRecord, HttpFailure> {
        self.seen.borrow_mut().push(request.clone());
        let mut responses = self.responses.borrow_mut();
        let response = if responses.len() > 1 {
            responses.remove(0)
        } else {
            responses[0].clone()
        };
        response
            .map(|mut r| {
                r.source = source.map(str::to_string);
                r
            })
            .map_err(|()| HttpFailure {
                permanent: false,
                message: "mock http error".to_string(),
            })
    }
}

#[derive(Default)]
struct MockSession {
    save_count: Cell<u32>,
    delete_count: Cell<u32>,
    last_saved: RefCell<Option<State>>,
}

impl SessionStore for MockSession {
    fn save(&self, state: &State) -> Result<(), String> {
        self.save_count.set(self.save_count.get() + 1);
        *self.last_saved.borrow_mut() = Some(state.clone());
        Ok(())
    }
    fn delete(&self) {
        self.delete_count.set(self.delete_count.get() + 1);
    }
}

// In-memory preset files keyed by path.
#[derive(Default)]
struct MockPresets {
    files: HashMap<String, State>,
    saved: RefCell<Vec<(String, Request)>>,
}

impl MockPresets {
    fn with(path: &str, state: State) -> Self {
        let mut presets = Self::default();
        presets.files.insert(path.to_string(), state);
        presets
    }
}

impl PresetStore for MockPresets {
    fn load(&self, path: &str) -> Result<State, String> {
        self.files
            .get(path)
            .cloned()
            .ok_or_else(|| format!("error reading '{}': not found", path))
    }
    fn save(&self, request: &Request, path: &str) -> Result<(), String> {
        self.saved
            .borrow_mut()
            .push((path.to_string(), request.clone()));
        Ok(())
    }
}

fn s(v: &str) -> String {
    v.to_string()
}

fn args(input: &str) -> Vec<String> {
    input.split_whitespace().map(str::to_string).collect()
}

fn run(
    input: &str,
    state: &mut State,
    http: &dyn HttpClient,
    session: &dyn SessionStore,
) -> Result<ParseResult, String> {
    run_with_presets(input, state, http, session, &MockPresets::default())
}

fn run_with_presets(
    input: &str,
    state: &mut State,
    http: &dyn HttpClient,
    session: &dyn SessionStore,
    presets: &dyn PresetStore,
) -> Result<ParseResult, String> {
    let (cmds, flags) = parse_args(&args(input)).unwrap();
    run_commands(cmds, &flags, state, http, session, presets)
}

// --- parse_args ---

#[test]
fn parse_method_and_url() {
    let (cmds, _) = parse_args(&args("method POST url https://example.com")).unwrap();
    assert_eq!(cmds.len(), 2);
    assert!(matches!(&cmds[0], Command::Method(m) if m == "POST"));
    assert!(matches!(&cmds[1], Command::Url(u) if u == "https://example.com"));
}

#[test]
fn parse_method_is_uppercased() {
    let (cmds, _) = parse_args(&args("method get")).unwrap();
    assert!(matches!(&cmds[0], Command::Method(m) if m == "GET"));
}

#[test]
fn parse_header_colon_form() {
    let (cmds, _) = parse_args(&[s("header"), s("Content-Type:application/json")]).unwrap();
    assert!(
        matches!(&cmds[0], Command::Header(k, v) if k == "Content-Type" && v == "application/json")
    );
}

#[test]
fn parse_header_colon_trims_whitespace() {
    let (cmds, _) = parse_args(&[s("header"), s("X-Foo: bar")]).unwrap();
    assert!(matches!(&cmds[0], Command::Header(k, v) if k == "X-Foo" && v == "bar"));
}

#[test]
fn parse_header_two_token_form() {
    let (cmds, _) = parse_args(&args("header X-Foo bar")).unwrap();
    assert!(matches!(&cmds[0], Command::Header(k, v) if k == "X-Foo" && v == "bar"));
}

#[test]
fn parse_header_empty_key_is_error() {
    assert!(parse_args(&[s("header"), s(":value")]).is_err());
}

#[test]
fn parse_header_missing_value_is_error() {
    assert!(parse_args(&args("header")).is_err());
}

#[test]
fn parse_header_rm() {
    let (cmds, _) = parse_args(&args("header-rm X-Foo")).unwrap();
    assert!(matches!(&cmds[0], Command::HeaderRm(k) if k == "x-foo"));
}

#[test]
fn parse_header_rm_all() {
    let (cmds, _) = parse_args(&args("header-rm-all")).unwrap();
    assert!(matches!(cmds[0], Command::HeaderRmAll));
}

#[test]
fn parse_header_rm_missing_arg_is_error() {
    assert!(parse_args(&args("header-rm")).is_err());
}

#[test]
fn parse_then_missing_path_is_error() {
    assert!(parse_args(&args("then")).is_err());
}

#[test]
fn parse_method_missing_value_is_error() {
    assert!(parse_args(&args("method")).is_err());
}

#[test]
fn parse_url_missing_value_is_error() {
    assert!(parse_args(&args("url")).is_err());
}

#[test]
fn parse_body_missing_value_is_error() {
    assert!(parse_args(&args("body")).is_err());
}

#[test]
fn parse_save_missing_path_is_error() {
    assert!(parse_args(&args("save")).is_err());
}

#[test]
fn parse_load_missing_path_is_error() {
    assert!(parse_args(&args("load")).is_err());
}

#[test]
fn parse_unknown_command_is_error() {
    assert!(parse_args(&args("frobnicate")).is_err());
}

#[test]
fn parse_response_defaults_to_last_full() {
    let (cmds, _) = parse_args(&args("response")).unwrap();
    assert!(matches!(
        cmds[0],
        Command::Response(ResponseTarget::Last, ResponseView::Full)
    ));
}

#[test]
fn parse_response_with_index() {
    let (cmds, _) = parse_args(&args("response 2")).unwrap();
    assert!(matches!(
        cmds[0],
        Command::Response(ResponseTarget::Index(1), ResponseView::Full)
    ));
}

#[test]
fn parse_response_index_zero_is_error() {
    assert!(parse_args(&args("response 0")).is_err());
}

#[test]
fn parse_response_all_body() {
    let (cmds, _) = parse_args(&args("response all body")).unwrap();
    assert!(matches!(
        cmds[0],
        Command::Response(ResponseTarget::All, ResponseView::Body)
    ));
}

#[test]
fn parse_response_last_headers() {
    let (cmds, _) = parse_args(&args("response headers")).unwrap();
    assert!(matches!(
        cmds[0],
        Command::Response(ResponseTarget::Last, ResponseView::Headers)
    ));
}

#[test]
fn parse_insecure_flag() {
    let (_, flags) = parse_args(&args("send --insecure")).unwrap();
    assert!(flags.insecure);
}

#[test]
fn parse_insecure_keyword() {
    let (_, flags) = parse_args(&args("insecure send")).unwrap();
    assert!(flags.insecure);
}

#[test]
fn parse_fail_flag() {
    let (_, flags) = parse_args(&args("fail send")).unwrap();
    assert!(flags.fail_on_error);
}

#[test]
fn parse_dry_run_flag() {
    let (_, flags) = parse_args(&args("--dry-run send")).unwrap();
    assert!(flags.dry_run);
}

#[test]
fn parse_global_flags_not_added_to_commands() {
    let (cmds, flags) = parse_args(&args("fail --insecure --dry-run send")).unwrap();
    assert!(flags.fail_on_error && flags.insecure && flags.dry_run);
    // Only Command::Send should remain, not the flags
    assert_eq!(cmds.len(), 1);
    assert!(matches!(cmds[0], Command::Send));
}

// --- run_commands ---



#[test]
fn method_url_header_saves_session() {
    let http = MockHttp::ok(200);
    let session = MockSession::default();
    let mut state = State::default();

    run(
        "method GET url https://example.com header X-Foo:bar",
        &mut state,
        &http,
        &session,
    )
    .unwrap();

    assert_eq!(state.request.method, Some("GET".to_string()));
    assert_eq!(state.request.url, Some("https://example.com".to_string()));
    assert_eq!(state.request.headers.get("X-Foo"), Some("bar"));
    assert_eq!(session.save_count.get(), 1);
}

#[test]
fn send_calls_http_and_saves() {
    let http = MockHttp::ok(200);
    let session = MockSession::default();
    let mut state = State::default();
    state.request.url = Some("https://example.com".to_string());

    run("send", &mut state, &http, &session).unwrap();

    assert_eq!(state.responses.len(), 1);
    assert_eq!(state.responses[0].status, 200);
    assert_eq!(session.save_count.get(), 1);
}

#[test]
fn send_http_failure_returns_err() {
    let http = MockHttp::err();
    let session = MockSession::default();
    let mut state = State::default();
    state.request.url = Some("https://example.com".to_string());

    assert!(run("send", &mut state, &http, &session).is_err());
}

#[test]
fn fail_flag_on_4xx_returns_err() {
    let http = MockHttp::ok(404);
    let session = MockSession::default();
    let mut state = State::default();
    state.request.url = Some("https://example.com".to_string());

    let (cmds, flags) = parse_args(&args("fail send")).unwrap();
    assert!(
        run_commands(
            cmds,
            &flags,
            &mut state,
            &http,
            &session,
            &MockPresets::default()
        )
        .is_err()
    );
}

#[test]
fn fail_flag_on_2xx_succeeds() {
    let http = MockHttp::ok(200);
    let session = MockSession::default();
    let mut state = State::default();
    state.request.url = Some("https://example.com".to_string());

    let (cmds, flags) = parse_args(&args("fail send")).unwrap();
    assert!(
        run_commands(
            cmds,
            &flags,
            &mut state,
            &http,
            &session,
            &MockPresets::default()
        )
        .is_ok()
    );
}

#[test]
fn dry_run_skips_http() {
    let http = MockHttp::err(); // would fail if called
    let session = MockSession::default();
    let mut state = State::default();
    state.request.url = Some("https://example.com".to_string());

    let (cmds, flags) = parse_args(&args("--dry-run send")).unwrap();
    run_commands(
        cmds,
        &flags,
        &mut state,
        &http,
        &session,
        &MockPresets::default(),
    )
    .unwrap();

    assert!(state.responses.is_empty());
    assert_eq!(session.save_count.get(), 0);
}

#[test]
fn reset_clears_state_and_deletes_session() {
    let http = MockHttp::ok(200);
    let session = MockSession::default();
    let mut state = State::default();
    state.request.method = Some("POST".to_string());
    state.request.url = Some("https://example.com".to_string());

    run("reset", &mut state, &http, &session).unwrap();

    assert!(state.request.method.is_none());
    assert!(state.request.url.is_none());
    assert_eq!(session.delete_count.get(), 1);
    assert_eq!(session.save_count.get(), 0);
}

#[test]
fn header_rm_removes_existing() {
    let http = MockHttp::ok(200);
    let session = MockSession::default();
    let mut state = State::default();
    state
        .request
        .headers
        .insert("x-foo".to_string(), "bar".to_string());

    run("header-rm x-foo", &mut state, &http, &session).unwrap();

    assert!(state.request.headers.get("x-foo").is_none());
    assert_eq!(session.save_count.get(), 1);
}

#[test]
fn header_rm_all_clears_all_headers() {
    let http = MockHttp::ok(200);
    let session = MockSession::default();
    let mut state = State::default();
    state
        .request
        .headers
        .insert("x-a".to_string(), "1".to_string());
    state
        .request
        .headers
        .insert("x-b".to_string(), "2".to_string());

    run("header-rm-all", &mut state, &http, &session).unwrap();

    assert!(state.request.headers.is_empty());
    assert_eq!(session.save_count.get(), 1);
}

#[test]
fn header_rm_missing_does_not_save() {
    let http = MockHttp::ok(200);
    let session = MockSession::default();
    let mut state = State::default();

    run("header-rm x-nonexistent", &mut state, &http, &session).unwrap();

    assert_eq!(session.save_count.get(), 0);
}

#[test]
fn send_clears_previous_responses() {
    let http = MockHttp::ok(201);
    let session = MockSession::default();
    let mut state = State::default();
    state.request.url = Some("https://example.com".to_string());
    // Pre-load two fake responses
    state.responses.push(ResponseRecord {
        status: 200,
        body: "old".to_string(),
        ..Default::default()
    });
    state.responses.push(ResponseRecord {
        status: 200,
        body: "old2".to_string(),
        ..Default::default()
    });

    run("send", &mut state, &http, &session).unwrap();

    assert_eq!(state.responses.len(), 1);
    assert_eq!(state.responses[0].status, 201);
}

#[test]
fn show_command_sets_do_show() {
    let http = MockHttp::ok(200);
    let session = MockSession::default();
    let mut state = State::default();

    let result = run("show", &mut state, &http, &session).unwrap();
    assert!(result.do_show);
}

#[test]
fn response_command_sets_do_response() {
    let http = MockHttp::ok(200);
    let session = MockSession::default();
    let mut state = State::default();

    let result = run("response body", &mut state, &http, &session).unwrap();
    assert!(result.do_response.is_some());
}

#[test]
fn no_mutation_does_not_save_session() {
    let http = MockHttp::ok(200);
    let session = MockSession::default();
    let mut state = State::default();

    run("show", &mut state, &http, &session).unwrap();

    assert_eq!(session.save_count.get(), 0);
}

// --- load / save / then (preset store) ---

fn preset(method: &str, url: &str) -> State {
    let mut state = State::default();
    state.request.method = Some(method.to_string());
    state.request.url = Some(url.to_string());
    state
}

#[test]
fn load_replaces_state_and_saves_session() {
    let http = MockHttp::ok(200);
    let session = MockSession::default();
    let presets = MockPresets::with("p.json", preset("POST", "https://preset.example"));
    let mut state = State::default();
    state.request.url = Some("https://old.example".to_string());

    run_with_presets("load p.json", &mut state, &http, &session, &presets).unwrap();

    assert_eq!(state.request.method, Some("POST".to_string()));
    assert_eq!(
        state.request.url,
        Some("https://preset.example".to_string())
    );
    assert_eq!(session.save_count.get(), 1);
}

#[test]
fn load_missing_preset_is_error() {
    let http = MockHttp::ok(200);
    let session = MockSession::default();
    let mut state = State::default();

    assert!(run("load missing.json", &mut state, &http, &session).is_err());
}

#[test]
fn save_writes_current_request_to_preset_store() {
    let http = MockHttp::ok(200);
    let session = MockSession::default();
    let presets = MockPresets::default();
    let mut state = State::default();
    state.request.url = Some("https://example.com".to_string());

    run_with_presets("save out.json", &mut state, &http, &session, &presets).unwrap();

    let saved = presets.saved.borrow();
    assert_eq!(saved.len(), 1);
    assert_eq!(saved[0].0, "out.json");
    assert_eq!(saved[0].1.url, Some("https://example.com".to_string()));
    // `save` writes a preset; it does not modify the session.
    assert_eq!(session.save_count.get(), 0);
}

#[test]
fn then_appends_to_history() {
    let http = MockHttp::ok(200);
    let session = MockSession::default();
    let presets = MockPresets::with("step2.json", preset("GET", "https://step2.example"));
    let mut state = State::default();
    state.request.url = Some("https://step1.example".to_string());

    run_with_presets(
        "send then step2.json",
        &mut state,
        &http,
        &session,
        &presets,
    )
    .unwrap();

    assert_eq!(state.requests.len(), 2);
    assert_eq!(state.responses.len(), 2);
    assert_eq!(
        state.requests[1].url,
        Some("https://step2.example".to_string())
    );
    assert_eq!(state.responses[1].source.as_deref(), Some("step2.json"));
}

#[test]
fn then_interpolates_from_previous_response() {
    let http = MockHttp::ok(200);
    let session = MockSession::default();
    let presets = MockPresets::with(
        "step2.json",
        preset("GET", "https://example.com/${{ body.token }}"),
    );
    let mut state = State::default();
    state.responses.push(ResponseRecord {
        status: 200,
        body: r#"{"token":"abc"}"#.to_string(),
        ..Default::default()
    });

    run_with_presets("then step2.json", &mut state, &http, &session, &presets).unwrap();

    // The history snapshot holds the request as actually sent.
    assert_eq!(
        state.requests.last().unwrap().url,
        Some("https://example.com/abc".to_string())
    );
    assert_eq!(state.responses.len(), 2);
}

#[test]
fn then_with_missing_history_is_error() {
    let http = MockHttp::ok(200);
    let session = MockSession::default();
    let presets = MockPresets::with(
        "step2.json",
        preset("GET", "https://example.com/${{ body.token }}"),
    );
    let mut state = State::default();

    assert!(run_with_presets("then step2.json", &mut state, &http, &session, &presets).is_err());
    assert!(state.responses.is_empty());
}

#[test]
fn then_missing_preset_is_error() {
    let http = MockHttp::ok(200);
    let session = MockSession::default();
    let mut state = State::default();

    assert!(run("then missing.json", &mut state, &http, &session).is_err());
}

// --- expect ---

#[test]
fn parse_expect() {
    let (cmds, _) = parse_args(&[s("expect"), s("status == 200")]).unwrap();
    assert!(matches!(&cmds[0], Command::Expect(c) if c == "status == 200"));
}

#[test]
fn parse_expect_missing_condition_is_error() {
    assert!(parse_args(&args("expect")).is_err());
}

#[test]
fn expect_passes_after_send() {
    let http = MockHttp::ok(200);
    let session = MockSession::default();
    let mut state = State::default();
    state.request.url = Some("https://example.com".to_string());

    let (cmds, flags) = parse_args(&[s("send"), s("expect"), s("status == 200")]).unwrap();
    run_commands(
        cmds,
        &flags,
        &mut state,
        &http,
        &session,
        &MockPresets::default(),
    )
    .unwrap();
}

#[test]
fn expect_failure_aborts_chain() {
    let http = MockHttp::ok(500);
    let session = MockSession::default();
    let mut state = State::default();
    state.request.url = Some("https://example.com".to_string());

    // The failing expect must stop the second send from running.
    let (cmds, flags) =
        parse_args(&[s("send"), s("expect"), s("status == 200"), s("send")]).unwrap();
    let err = run_commands(
        cmds,
        &flags,
        &mut state,
        &http,
        &session,
        &MockPresets::default(),
    )
    .unwrap_err();
    assert!(err.to_string().contains("expect failed"), "{err}");
    assert_eq!(http.seen.borrow().len(), 1);
}

#[test]
fn expect_without_response_is_error() {
    let http = MockHttp::ok(200);
    let session = MockSession::default();
    let mut state = State::default();

    let (cmds, flags) = parse_args(&[s("expect"), s("status == 200")]).unwrap();
    assert!(
        run_commands(
            cmds,
            &flags,
            &mut state,
            &http,
            &session,
            &MockPresets::default(),
        )
        .is_err()
    );
}

#[test]
fn dry_run_skips_expect() {
    let http = MockHttp::err();
    let session = MockSession::default();
    let mut state = State::default();
    state.request.url = Some("https://example.com".to_string());

    let (cmds, flags) =
        parse_args(&[s("--dry-run"), s("send"), s("expect"), s("status == 200")]).unwrap();
    run_commands(
        cmds,
        &flags,
        &mut state,
        &http,
        &session,
        &MockPresets::default(),
    )
    .unwrap();
}

// --- curl export ---

#[test]
fn parse_curl() {
    let (cmds, _) = parse_args(&args("curl")).unwrap();
    assert!(matches!(cmds[0], Command::Curl));
}

#[test]
fn format_curl_full_request() {
    let mut request = Request {
        method: Some("POST".to_string()),
        url: Some("https://api.example.com/users".to_string()),
        body: Some(r#"{"name":"Alice"}"#.to_string()),
        ..Default::default()
    };
    request
        .headers
        .insert("Content-Type".to_string(), "application/json".to_string());
    request
        .headers
        .insert("Authorization".to_string(), "Bearer tok".to_string());

    let cmd = format_curl(&request, false).unwrap();
    assert_eq!(
        cmd,
        r#"curl -X POST 'https://api.example.com/users' -H 'Authorization: Bearer tok' -H 'Content-Type: application/json' --data-binary '{"name":"Alice"}'"#
    );
}

#[test]
fn format_curl_quotes_apostrophes() {
    let request = Request {
        url: Some("https://example.com".to_string()),
        body: Some("it's".to_string()),
        ..Default::default()
    };

    let cmd = format_curl(&request, false).unwrap();
    // Body forces an explicit -X GET (curl would otherwise switch to POST).
    assert_eq!(
        cmd,
        r#"curl -X GET 'https://example.com' --data-binary 'it'\''s'"#
    );
}

#[test]
fn format_curl_bare_get_and_insecure() {
    let request = Request {
        url: Some("https://example.com".to_string()),
        ..Default::default()
    };
    assert_eq!(
        format_curl(&request, true).unwrap(),
        "curl -k 'https://example.com'"
    );
}

#[test]
fn format_curl_without_url_is_error() {
    assert!(format_curl(&Request::default(), false).is_err());
}

#[test]
fn curl_command_does_not_modify_session() {
    let http = MockHttp::ok(200);
    let session = MockSession::default();
    let mut state = State::default();
    state.request.url = Some("https://example.com".to_string());

    run("curl", &mut state, &http, &session).unwrap();

    assert_eq!(session.save_count.get(), 0);
    assert!(http.seen.borrow().is_empty());
}

#[test]
fn curl_without_url_is_error() {
    let http = MockHttp::ok(200);
    let session = MockSession::default();
    let mut state = State::default();

    assert!(run("curl", &mut state, &http, &session).is_err());
}

// --- verb shortcuts ---

#[test]
fn parse_verb_expands_to_method_url_send() {
    let (cmds, _) = parse_args(&args("get https://example.com")).unwrap();
    assert_eq!(cmds.len(), 3);
    assert!(matches!(&cmds[0], Command::Method(m) if m == "GET"));
    assert!(matches!(&cmds[1], Command::Url(u) if u == "https://example.com"));
    assert!(matches!(cmds[2], Command::Send));
}

#[test]
fn parse_verb_implied_send_comes_after_modifiers() {
    let (cmds, _) = parse_args(&args("post https://example.com body {} header X-A:1")).unwrap();
    // body and header written after the verb still apply before the send.
    assert!(matches!(cmds[0], Command::Method(_)));
    assert!(matches!(cmds[1], Command::Url(_)));
    assert!(matches!(cmds[2], Command::Body(_)));
    assert!(matches!(cmds[3], Command::Header(..)));
    assert!(matches!(cmds[4], Command::Send));
}

#[test]
fn parse_verb_implied_send_precedes_expect() {
    let (cmds, _) = parse_args(&[
        s("get"),
        s("https://example.com"),
        s("expect"),
        s("status == 200"),
    ])
    .unwrap();
    assert!(matches!(cmds[2], Command::Send));
    assert!(matches!(&cmds[3], Command::Expect(_)));
}

#[test]
fn parse_verb_implied_send_stays_after_leading_expect() {
    // An expect written before the verb asserts on the prior session state;
    // the implied send must not jump in front of method/url.
    let (cmds, _) = parse_args(&[
        s("expect"),
        s("status == 200"),
        s("get"),
        s("https://example.com"),
        s("expect"),
        s("body.ok"),
    ])
    .unwrap();
    assert!(matches!(&cmds[0], Command::Expect(_)));
    assert!(matches!(cmds[1], Command::Method(_)));
    assert!(matches!(cmds[2], Command::Url(_)));
    assert!(matches!(cmds[3], Command::Send));
    assert!(matches!(&cmds[4], Command::Expect(_)));
}

#[test]
fn parse_second_verb_shortcut_is_error() {
    let err = parse_args(&args("get https://a.example post https://b.example")).unwrap_err();
    assert!(err.to_string().contains("verb shortcut"), "{err}");
}

#[test]
fn parse_verb_with_explicit_send_adds_no_extra() {
    let (cmds, _) = parse_args(&args("get https://example.com send")).unwrap();
    let sends = cmds.iter().filter(|c| matches!(c, Command::Send)).count();
    assert_eq!(sends, 1);
}

#[test]
fn parse_verb_without_url_is_error() {
    assert!(parse_args(&args("get")).is_err());
    assert!(parse_args(&args("post")).is_err());
}

#[test]
fn verb_shortcut_sends_request() {
    let http = MockHttp::ok(200);
    let session = MockSession::default();
    let mut state = State::default();

    run(
        "post https://example.com body {\"a\":1}",
        &mut state,
        &http,
        &session,
    )
    .unwrap();

    let seen = http.seen.borrow();
    assert_eq!(seen.len(), 1);
    assert_eq!(seen[0].method.as_deref(), Some("POST"));
    assert_eq!(seen[0].url.as_deref(), Some("https://example.com"));
    assert_eq!(seen[0].body.as_deref(), Some("{\"a\":1}"));
}

// --- body @file / stdin ---


#[test]
fn body_at_missing_file_is_error() {
    let http = MockHttp::ok(200);
    let session = MockSession::default();
    let mut state = State::default();

    let err = run("body @/nonexistent/reel.json", &mut state, &http, &session).unwrap_err();
    assert!(err.to_string().contains("body file"), "{err}");
}

#[test]
fn body_double_at_is_literal() {
    let http = MockHttp::ok(200);
    let session = MockSession::default();
    let mut state = State::default();

    run("body @@handle", &mut state, &http, &session).unwrap();

    assert_eq!(state.request.body.as_deref(), Some("@handle"));
}

// --- retry / polling ---

#[test]
fn parse_retry_until_delay_flags() {
    let (cmds, flags) =
        parse_args(&[s("--retry"), s("3"), s("--delay"), s("0"), s("send")]).unwrap();
    assert_eq!(flags.retry, Some(3));
    assert_eq!(flags.delay_secs, 0);
    assert_eq!(cmds.len(), 1);

    let (_, flags) = parse_args(&[s("--until"), s("status == 200"), s("send")]).unwrap();
    assert_eq!(flags.until.as_deref(), Some("status == 200"));
}

#[test]
fn parse_retry_invalid_value_is_error() {
    assert!(parse_args(&args("--retry x send")).is_err());
    assert!(parse_args(&args("--retry")).is_err());
    assert!(parse_args(&args("--delay x")).is_err());
}

#[test]
fn retry_on_5xx_succeeds_on_second_attempt() {
    let http = MockHttp::sequence(vec![Ok(response(503, "busy")), Ok(response(200, "ok"))]);
    let session = MockSession::default();
    let mut state = State::default();
    state.request.url = Some("https://example.com".to_string());

    run("--retry 2 --delay 0 send", &mut state, &http, &session).unwrap();

    assert_eq!(http.seen.borrow().len(), 2);
    // Only the final attempt is recorded.
    assert_eq!(state.responses.len(), 1);
    assert_eq!(state.responses[0].status, 200);
}

#[test]
fn retry_exhausted_records_last_response() {
    let http = MockHttp::ok(503);
    let session = MockSession::default();
    let mut state = State::default();
    state.request.url = Some("https://example.com".to_string());

    run("--retry 1 --delay 0 send", &mut state, &http, &session).unwrap();

    assert_eq!(http.seen.borrow().len(), 2);
    assert_eq!(state.responses[0].status, 503);
}

#[test]
fn no_retry_without_flag() {
    let http = MockHttp::sequence(vec![Ok(response(503, "busy")), Ok(response(200, "ok"))]);
    let session = MockSession::default();
    let mut state = State::default();
    state.request.url = Some("https://example.com".to_string());

    run("send", &mut state, &http, &session).unwrap();

    assert_eq!(http.seen.borrow().len(), 1);
    assert_eq!(state.responses[0].status, 503);
}

#[test]
fn retry_recovers_from_network_error() {
    let http = MockHttp::sequence(vec![Err(()), Ok(response(200, "ok"))]);
    let session = MockSession::default();
    let mut state = State::default();
    state.request.url = Some("https://example.com".to_string());

    run("--retry 1 --delay 0 send", &mut state, &http, &session).unwrap();

    assert_eq!(state.responses[0].status, 200);
}

#[test]
fn network_error_without_retry_budget_is_error() {
    let http = MockHttp::err();
    let session = MockSession::default();
    let mut state = State::default();
    state.request.url = Some("https://example.com".to_string());

    assert!(run("--retry 0 --delay 0 send", &mut state, &http, &session).is_err());
}

#[test]
fn does_not_retry_4xx() {
    let http = MockHttp::sequence(vec![Ok(response(404, "no")), Ok(response(200, "ok"))]);
    let session = MockSession::default();
    let mut state = State::default();
    state.request.url = Some("https://example.com".to_string());

    run("--retry 2 --delay 0 send", &mut state, &http, &session).unwrap();

    assert_eq!(http.seen.borrow().len(), 1);
    assert_eq!(state.responses[0].status, 404);
}

#[test]
fn until_polls_until_condition_met() {
    let http = MockHttp::sequence(vec![
        Ok(response(200, r#"{"state":"pending"}"#)),
        Ok(response(200, r#"{"state":"pending"}"#)),
        Ok(response(200, r#"{"state":"ready"}"#)),
    ]);
    let session = MockSession::default();
    let mut state = State::default();
    state.request.url = Some("https://example.com".to_string());

    let (cmds, flags) = parse_args(&[
        s("--until"),
        s("body.state == ready"),
        s("--delay"),
        s("0"),
        s("send"),
    ])
    .unwrap();
    run_commands(
        cmds,
        &flags,
        &mut state,
        &http,
        &session,
        &MockPresets::default(),
    )
    .unwrap();

    assert_eq!(http.seen.borrow().len(), 3);
    // Only the response that satisfied the condition is recorded.
    assert_eq!(state.responses.len(), 1);
    assert!(state.responses[0].body.contains("ready"));
}

#[test]
fn until_budget_exhausted_records_and_errors() {
    let http = MockHttp::ok(200); // body "{}" never matches
    let session = MockSession::default();
    let mut state = State::default();
    state.request.url = Some("https://example.com".to_string());

    let (cmds, flags) = parse_args(&[
        s("--until"),
        s("body.state == ready"),
        s("--retry"),
        s("2"),
        s("--delay"),
        s("0"),
        s("send"),
    ])
    .unwrap();
    let err = run_commands(
        cmds,
        &flags,
        &mut state,
        &http,
        &session,
        &MockPresets::default(),
    )
    .unwrap_err();

    assert!(err.to_string().contains("not met after 3"), "{err}");
    assert_eq!(http.seen.borrow().len(), 3);
    // The last response is still recorded and persisted for inspection.
    assert_eq!(state.responses.len(), 1);
    assert_eq!(session.save_count.get(), 1);
}

#[test]
fn until_polling_updates_jar_from_every_attempt() {
    // A cookie set by a pending (retried) response must enter the jar and be
    // sent back on the next attempt.
    let mut pending = response(200, r#"{"state":"pending"}"#);
    pending.set_cookies = vec!["poll=abc; Path=/".to_string()];
    let http = MockHttp::sequence(vec![Ok(pending), Ok(response(200, r#"{"state":"ready"}"#))]);
    let session = MockSession::default();
    let mut state = State::default();
    state.request.url = Some("https://example.com/job".to_string());

    let (cmds, flags) = parse_args(&[
        s("--until"),
        s("body.state == ready"),
        s("--delay"),
        s("0"),
        s("send"),
    ])
    .unwrap();
    run_commands(
        cmds,
        &flags,
        &mut state,
        &http,
        &session,
        &MockPresets::default(),
    )
    .unwrap();

    assert_eq!(state.cookies.len(), 1);
    assert_eq!(state.cookies[0].name, "poll");
    let seen = http.seen.borrow();
    assert_eq!(seen[0].headers.get("cookie"), None);
    assert_eq!(seen[1].headers.get("cookie"), Some("poll=abc"));
    // The history snapshot reflects the final request as actually sent.
    assert_eq!(state.requests[0].headers.get("cookie"), Some("poll=abc"));
}

#[test]
fn retry_updates_jar_from_failed_attempt() {
    let mut busy = response(503, "busy");
    busy.set_cookies = vec!["lb=node2; Path=/".to_string()];
    let http = MockHttp::sequence(vec![Ok(busy), Ok(response(200, "ok"))]);
    let session = MockSession::default();
    let mut state = State::default();
    state.request.url = Some("https://example.com/".to_string());

    run("--retry 1 --delay 0 send", &mut state, &http, &session).unwrap();

    assert_eq!(state.cookies.len(), 1);
    assert_eq!(
        http.seen.borrow()[1].headers.get("cookie"),
        Some("lb=node2")
    );
}

// --- cookie jar ---

fn jar_cookie(name: &str, value: &str, domain: &str) -> Cookie {
    Cookie {
        name: name.to_string(),
        value: value.to_string(),
        domain: domain.to_string(),
        path: "/".to_string(),
        secure: false,
        host_only: true,
    }
}

#[test]
fn send_stores_cookies_from_response() {
    let http = MockHttp::ok(200).with_set_cookies(&["session=abc; Path=/"]);
    let session = MockSession::default();
    let mut state = State::default();
    state.request.url = Some("https://example.com/login".to_string());

    run("send", &mut state, &http, &session).unwrap();

    assert_eq!(state.cookies.len(), 1);
    assert_eq!(state.cookies[0].name, "session");
    assert_eq!(state.cookies[0].value, "abc");
    assert_eq!(state.cookies[0].domain, "example.com");
    // The jar is part of the persisted session.
    assert_eq!(
        session.last_saved.borrow().as_ref().unwrap().cookies.len(),
        1
    );
}

#[test]
fn send_includes_cookie_header_from_jar() {
    let http = MockHttp::ok(200);
    let session = MockSession::default();
    let mut state = State::default();
    state.request.url = Some("https://example.com/data".to_string());
    state
        .cookies
        .push(jar_cookie("session", "abc", "example.com"));

    run("send", &mut state, &http, &session).unwrap();

    let seen = http.seen.borrow();
    assert_eq!(seen[0].headers.get("Cookie"), Some("session=abc"));
    // The history snapshot reflects the request as actually sent.
    assert_eq!(state.requests[0].headers.get("Cookie"), Some("session=abc"));
}

#[test]
fn user_cookie_header_wins_over_jar() {
    let http = MockHttp::ok(200);
    let session = MockSession::default();
    let mut state = State::default();
    state.request.url = Some("https://example.com/".to_string());
    state
        .request
        .headers
        .insert("Cookie".to_string(), "mine=1".to_string());
    state
        .cookies
        .push(jar_cookie("session", "abc", "example.com"));

    run("send", &mut state, &http, &session).unwrap();

    assert_eq!(http.seen.borrow()[0].headers.get("cookie"), Some("mine=1"));
}

#[test]
fn cookie_not_sent_to_other_domain() {
    let http = MockHttp::ok(200);
    let session = MockSession::default();
    let mut state = State::default();
    state.request.url = Some("https://other.example/".to_string());
    state
        .cookies
        .push(jar_cookie("session", "abc", "example.com"));

    run("send", &mut state, &http, &session).unwrap();

    assert_eq!(http.seen.borrow()[0].headers.get("cookie"), None);
}

#[test]
fn max_age_zero_removes_cookie_from_jar() {
    let http = MockHttp::ok(200).with_set_cookies(&["session=; Path=/; Max-Age=0"]);
    let session = MockSession::default();
    let mut state = State::default();
    state.request.url = Some("https://example.com/logout".to_string());
    state
        .cookies
        .push(jar_cookie("session", "abc", "example.com"));

    run("send", &mut state, &http, &session).unwrap();

    assert!(state.cookies.is_empty());
}

#[test]
fn send_keeps_jar_but_clears_history() {
    let http = MockHttp::ok(200);
    let session = MockSession::default();
    let mut state = State::default();
    state.request.url = Some("https://example.com/".to_string());
    state
        .cookies
        .push(jar_cookie("session", "abc", "example.com"));
    state.responses.push(ResponseRecord {
        status: 200,
        body: "old".to_string(),
        ..Default::default()
    });

    run("send", &mut state, &http, &session).unwrap();

    assert_eq!(state.responses.len(), 1);
    assert_eq!(state.cookies.len(), 1);
}

// --- flags in value position ---

#[test]
fn flag_words_consumed_as_values_are_not_flags() {
    // A token consumed as a command's value must never flip a global flag —
    // `header X-Mode insecure` must not disable TLS verification.
    let (cmds, flags) = parse_args(&args("header X-Mode insecure send")).unwrap();
    assert!(!flags.insecure);
    assert!(matches!(&cmds[0], Command::Header(k, v) if k == "X-Mode" && v == "insecure"));

    let (cmds, flags) = parse_args(&args("body fail")).unwrap();
    assert!(!flags.fail_on_error);
    assert!(matches!(&cmds[0], Command::Body(b) if b == "fail"));

    let (cmds, flags) = parse_args(&args("body -h")).unwrap();
    assert!(!flags.help);
    assert!(matches!(&cmds[0], Command::Body(b) if b == "-h"));
}

#[test]
fn help_and_version_are_parser_flags() {
    let (_, flags) = parse_args(&args("--help")).unwrap();
    assert!(flags.help && !flags.version);
    let (_, flags) = parse_args(&args("help")).unwrap();
    assert!(flags.help);
    let (_, flags) = parse_args(&args("send -V")).unwrap();
    assert!(flags.version && !flags.help);
}

// --- retry classification ---

#[test]
fn does_not_retry_501() {
    let http = MockHttp::sequence(vec![Ok(response(501, "no")), Ok(response(200, "ok"))]);
    let session = MockSession::default();
    let mut state = State::default();
    state.request.url = Some("https://example.com".to_string());

    run("--retry 2 --delay 0 send", &mut state, &http, &session).unwrap();

    assert_eq!(http.seen.borrow().len(), 1);
    assert_eq!(state.responses[0].status, 501);
}

#[test]
fn permanent_error_is_not_retried() {
    struct PermanentHttp {
        calls: Cell<u32>,
    }
    impl HttpClient for PermanentHttp {
        fn execute(
            &self,
            _request: &Request,
            _source: Option<&str>,
        ) -> Result<ResponseRecord, HttpFailure> {
            self.calls.set(self.calls.get() + 1);
            Err(HttpFailure {
                permanent: true,
                message: "error: invalid URL 'nope'".to_string(),
            })
        }
    }

    let http = PermanentHttp {
        calls: Cell::new(0),
    };
    let session = MockSession::default();
    let mut state = State::default();
    state.request.url = Some("nope".to_string());

    let err = run("--retry 3 --delay 0 send", &mut state, &http, &session).unwrap_err();

    assert!(err.to_string().contains("invalid URL"), "{err}");
    assert_eq!(http.calls.get(), 1, "permanent errors must not be retried");
}

#[test]
fn until_condition_sees_candidate_request() {
    let http = MockHttp::ok(200);
    let session = MockSession::default();
    let mut state = State::default();
    state.request.url = Some("https://example.com".to_string());

    let (cmds, flags) = parse_args(&[
        s("--until"),
        s("request.url == https://example.com"),
        s("--delay"),
        s("0"),
        s("send"),
    ])
    .unwrap();
    run_commands(
        cmds,
        &flags,
        &mut state,
        &http,
        &session,
        &MockPresets::default(),
    )
    .unwrap();

    // The in-flight request is visible to the condition, so it passes on the
    // first attempt instead of polling the whole budget.
    assert_eq!(http.seen.borrow().len(), 1);
}

// --- chain failure persistence ---

#[test]
fn mutations_persist_when_chain_fails() {
    let http = MockHttp::ok(200);
    let session = MockSession::default();
    let mut state = State::default();

    // `expect status` fails (no previous response) after `url` mutated state.
    let err = run(
        "url https://example.com expect status",
        &mut state,
        &http,
        &session,
    )
    .unwrap_err();

    assert!(err.to_string().contains("no previous response"), "{err}");
    let saved = session.last_saved.borrow();
    let saved = saved.as_ref().expect("mutations should be saved on error");
    assert_eq!(saved.request.url, Some("https://example.com".to_string()));
}

// --- load keeps the cookie jar ---

#[test]
fn load_preserves_cookie_jar() {
    let http = MockHttp::ok(200);
    let session = MockSession::default();
    let mut preset = State::default();
    preset.request.url = Some("https://example.com".to_string());
    let presets = MockPresets::with("p.json", preset);

    let mut state = State::default();
    state
        .cookies
        .push(jar_cookie("session", "abc", "example.com"));

    run_with_presets("load p.json", &mut state, &http, &session, &presets).unwrap();

    assert_eq!(state.request.url, Some("https://example.com".to_string()));
    assert_eq!(state.cookies.len(), 1, "load must not clear the cookie jar");
}

// --- format_curl method quoting ---

#[test]
fn format_curl_quotes_unusual_method() {
    let request = Request {
        method: Some("GET;X".to_string()),
        url: Some("https://example.com".to_string()),
        ..Default::default()
    };
    let cmd = format_curl(&request, false).unwrap();
    assert!(cmd.contains("-X 'GET;X'"), "{cmd}");
}

// --- format_size ---

#[test]
fn format_size_scales_units() {
    assert_eq!(format_size(0), "0 B");
    assert_eq!(format_size(512), "512 B");
    assert_eq!(format_size(4200), "4.1 KiB");
    assert_eq!(format_size(5 * 1024 * 1024), "5.0 MiB");
    assert_eq!(format_size(3 * 1024 * 1024 * 1024), "3.0 GiB");
}

// --- the same cases, as first written for the flat session format ---

#[test]
fn cli_parse_method_and_url() {
    let (cmds, _) = parse_args(&args("method POST url https://example.com")).unwrap();
    assert_eq!(cmds.len(), 2);
    assert!(matches!(&cmds[0], Command::Method(m) if m == "POST"));
    assert!(matches!(&cmds[1], Command::Url(u) if u == "https://example.com"));
}

#[test]
fn cli_parse_method_is_uppercased() {
    let (cmds, _) = parse_args(&args("method get")).unwrap();
    assert!(matches!(&cmds[0], Command::Method(m) if m == "GET"));
}

#[test]
fn cli_parse_header_empty_key_is_error() {
    assert!(parse_args(&[s("header"), s(":value")]).is_err());
}

#[test]
fn cli_parse_header_missing_value_is_error() {
    assert!(parse_args(&args("header")).is_err());
}

#[test]
fn cli_parse_header_rm() {
    let (cmds, _) = parse_args(&args("header-rm X-Foo")).unwrap();
    assert!(matches!(&cmds[0], Command::HeaderRm(k) if k == "x-foo"));
}

#[test]
fn cli_parse_header_rm_all() {
    let (cmds, _) = parse_args(&args("header-rm-all")).unwrap();
    assert!(matches!(cmds[0], Command::HeaderRmAll));
}

#[test]
fn cli_parse_header_rm_missing_arg_is_error() {
    assert!(parse_args(&args("header-rm")).is_err());
}

#[test]
fn cli_parse_then_missing_path_is_error() {
    assert!(parse_args(&args("then")).is_err());
}

#[test]
fn cli_parse_method_missing_value_is_error() {
    assert!(parse_args(&args("method")).is_err());
}

#[test]
fn cli_parse_url_missing_value_is_error() {
    assert!(parse_args(&args("url")).is_err());
}

#[test]
fn cli_parse_body_missing_value_is_error() {
    assert!(parse_args(&args("body")).is_err());
}

#[test]
fn cli_parse_save_missing_path_is_error() {
    assert!(parse_args(&args("save")).is_err());
}

#[test]
fn cli_parse_load_missing_path_is_error() {
    assert!(parse_args(&args("load")).is_err());
}

#[test]
fn cli_parse_unknown_command_is_error() {
    assert!(parse_args(&args("frobnicate")).is_err());
}

#[test]
fn cli_parse_response_defaults_to_last_full() {
    let (cmds, _) = parse_args(&args("response")).unwrap();
    assert!(matches!(
        cmds[0],
        Command::Response(ResponseTarget::Last, ResponseView::Full)
    ));
}

#[test]
fn cli_parse_response_with_index() {
    let (cmds, _) = parse_args(&args("response 2")).unwrap();
    assert!(matches!(
        cmds[0],
        Command::Response(ResponseTarget::Index(1), ResponseView::Full)
    ));
}

#[test]
fn cli_parse_response_index_zero_is_error() {
    assert!(parse_args(&args("response 0")).is_err());
}

#[test]
fn cli_parse_response_all_body() {
    let (cmds, _) = parse_args(&args("response all body")).unwrap();
    assert!(matches!(
        cmds[0],
        Command::Response(ResponseTarget::All, ResponseView::Body)
    ));
}

#[test]
fn cli_parse_response_last_headers() {
    let (cmds, _) = parse_args(&args("response headers")).unwrap();
    assert!(matches!(
        cmds[0],
        Command::Response(ResponseTarget::Last, ResponseView::Headers)
    ));
}

#[test]
fn cli_parse_insecure_flag() {
    let (_, flags) = parse_args(&args("send --insecure")).unwrap();
    assert!(flags.insecure);
}

#[test]
fn cli_parse_insecure_keyword() {
    let (_, flags) = parse_args(&args("insecure send")).unwrap();
    assert!(flags.insecure);
}

#[test]
fn cli_parse_fail_flag() {
    let (_, flags) = parse_args(&args("fail send")).unwrap();
    assert!(flags.fail_on_error);
}

#[test]
fn cli_parse_dry_run_flag() {
    let (_, flags) = parse_args(&args("--dry-run send")).unwrap();
    assert!(flags.dry_run);
}

#[test]
fn cli_parse_global_flags_not_added_to_commands() {
    let (cmds, flags) = parse_args(&args("fail --insecure --dry-run send")).unwrap();
    assert!(flags.fail_on_error && flags.insecure && flags.dry_run);
    // Only Command::Send should remain, not the flags
    assert_eq!(cmds.len(), 1);
    assert!(matches!(cmds[0], Command::Send));
}

#[test]
fn cli_method_url_header_saves_session() {
    let http = MockHttp::ok(200);
    let session = MockSession::default();
    let mut state = State::default();

    run(
        "method GET url https://example.com header X-Foo:bar",
        &mut state,
        &http,
        &session,
    )
    .unwrap();

    assert_eq!(state.request.method, Some("GET".to_string()));
    assert_eq!(state.request.url, Some("https://example.com".to_string()));
    assert_eq!(state.request.headers.get("X-Foo"), Some("bar"));
    assert_eq!(session.save_count.get(), 1);
}

#[test]
fn cli_send_calls_http_and_saves() {
    let http = MockHttp::ok(200);
    let session = MockSession::default();
    let mut state = State::default();
    state.request.url = Some("https://example.com".to_string());

    run("send", &mut state, &http, &session).unwrap();

    assert_eq!(state.responses.len(), 1);
    assert_eq!(state.responses[0].status, 200);
    assert_eq!(session.save_count.get(), 1);
}

#[test]
fn cli_send_http_failure_returns_err() {
    let http = MockHttp::err();
    let session = MockSession::default();
    let mut state = State::default();
    state.request.url = Some("https://example.com".to_string());

    assert!(run("send", &mut state, &http, &session).is_err());
}

#[test]
fn cli_fail_flag_on_4xx_returns_err() {
    let http = MockHttp::ok(404);
    let session = MockSession::default();
    let mut state = State::default();
    state.request.url = Some("https://example.com".to_string());

    let (cmds, flags) = parse_args(&args("fail send")).unwrap();
    assert!(
        run_commands(
            cmds,
            &flags,
            &mut state,
            &http,
            &session,
            &MockPresets::default()
        )
        .is_err()
    );
}

#[test]
fn cli_fail_flag_on_2xx_succeeds() {
    let http = MockHttp::ok(200);
    let session = MockSession::default();
    let mut state = State::default();
    state.request.url = Some("https://example.com".to_string());

    let (cmds, flags) = parse_args(&args("fail send")).unwrap();
    assert!(
        run_commands(
            cmds,
            &flags,
            &mut state,
            &http,
            &session,
            &MockPresets::default()
        )
        .is_ok()
    );
}

#[test]
fn cli_dry_run_skips_http() {
    let http = MockHttp::err(); // would fail if called
    let session = MockSession::default();
    let mut state = State::default();
    state.request.url = Some("https://example.com".to_string());

    let (cmds, flags) = parse_args(&args("--dry-run send")).unwrap();
    run_commands(
        cmds,
        &flags,
        &mut state,
        &http,
        &session,
        &MockPresets::default(),
    )
    .unwrap();

    assert!(state.responses.is_empty());
    assert_eq!(session.save_count.get(), 0);
}

#[test]
fn cli_reset_clears_state_and_deletes_session() {
    let http = MockHttp::ok(200);
    let session = MockSession::default();
    let mut state = State::default();
    state.request.method = Some("POST".to_string());
    state.request.url = Some("https://example.com".to_string());

    run("reset", &mut state, &http, &session).unwrap();

    assert!(state.request.method.is_none());
    assert!(state.request.url.is_none());
    assert_eq!(session.delete_count.get(), 1);
    assert_eq!(session.save_count.get(), 0);
}

#[test]
fn cli_header_rm_removes_existing() {
    let http = MockHttp::ok(200);
    let session = MockSession::default();
    let mut state = State::default();
    state
        .request
        .headers
        .insert("x-foo".to_string(), "bar".to_string());

    run("header-rm x-foo", &mut state, &http, &session).unwrap();

    assert!(state.request.headers.get("x-foo").is_none());
    assert_eq!(session.save_count.get(), 1);
}

#[test]
fn cli_header_rm_all_clears_all_headers() {
    let http = MockHttp::ok(200);
    let session = MockSession::default();
    let mut state = State::default();
    state
        .request
        .headers
        .insert("x-a".to_string(), "1".to_string());
    state
        .request
        .headers
        .insert("x-b".to_string(), "2".to_string());

    run("header-rm-all", &mut state, &http, &session).unwrap();

    assert!(state.request.headers.is_empty());
    assert_eq!(session.save_count.get(), 1);
}

#[test]
fn cli_header_rm_missing_does_not_save() {
    let http = MockHttp::ok(200);
    let session = MockSession::default();
    let mut state = State::default();

    run("header-rm x-nonexistent", &mut state, &http, &session).unwrap();

    assert_eq!(session.save_count.get(), 0);
}

#[test]
fn cli_send_clears_previous_responses() {
    let http = MockHttp::ok(201);
    let session = MockSession::default();
    let mut state = State::default();
    state.request.url = Some("https://example.com".to_string());
    // Pre-load two fake responses
    state.responses.push(ResponseRecord {
        status: 200,
        body: "old".to_string(),
        ..Default::default()
    });
    state.responses.push(ResponseRecord {
        status: 200,
        body: "old2".to_string(),
        ..Default::default()
    });

    run("send", &mut state, &http, &session).unwrap();

    assert_eq!(state.responses.len(), 1);
    assert_eq!(state.responses[0].status, 201);
}

#[test]
fn cli_show_command_sets_do_show() {
    let http = MockHttp::ok(200);
    let session = MockSession::default();
    let mut state = State::default();

    let result = run("show", &mut state, &http, &session).unwrap();
    assert!(result.do_show);
}

#[test]
fn cli_response_command_sets_do_response() {
    let http = MockHttp::ok(200);
    let session = MockSession::default();
    let mut state = State::default();

    let result = run("response body", &mut state, &http, &session).unwrap();
    assert!(result.do_response.is_some());
}

#[test]
fn cli_no_mutation_does_not_save_session() {
    let http = MockHttp::ok(200);
    let session = MockSession::default();
    let mut state = State::default();

    run("show", &mut state, &http, &session).unwrap();

    assert_eq!(session.save_count.get(), 0);
}

// --- further cases ---

fn redirect(status: u16, location: &str) -> ResponseRecord {
    let mut r = response(status, "");
    r.headers = reel::model::Headers::from_pairs(vec![("location".to_string(), location.to_string())]);
    r
}

#[test]
fn follow_chases_redirects_and_records_final_pair() {
    let http = MockHttp::sequence(vec![
        Ok(redirect(302, "/next")),
        Ok(response(200, "done")),
    ]);
    let session = MockSession::default();
    let mut state = State::default();
    state.request.url = Some("https://example.com/start".to_string());

    run("--follow send", &mut state, &http, &session).unwrap();

    let seen = http.seen.borrow();
    assert_eq!(seen.len(), 2);
    assert_eq!(seen[1].url.as_deref(), Some("https://example.com/next"));
    assert_eq!(state.responses.len(), 1);
    assert_eq!(state.requests.len(), 1);
    assert_eq!(state.responses[0].body, "done");
    assert_eq!(state.requests[0].url.as_deref(), Some("https://example.com/next"));
}

#[test]
fn follow_303_switches_to_get_and_drops_body() {
    let http = MockHttp::sequence(vec![Ok(redirect(303, "/result")), Ok(response(200, "ok"))]);
    let session = MockSession::default();
    let mut state = State::default();
    state.request.method = Some("POST".to_string());
    state.request.url = Some("https://example.com/form".to_string());
    state.request.body = Some("a=1".to_string());

    run("follow send", &mut state, &http, &session).unwrap();

    let seen = http.seen.borrow();
    assert_eq!(seen[1].method.as_deref(), Some("GET"));
    assert_eq!(seen[1].body, None);
}

#[test]
fn follow_cross_host_strips_credentials() {
    let http = MockHttp::sequence(vec![
        Ok(redirect(307, "https://other.example/landing")),
        Ok(response(200, "ok")),
    ]);
    let session = MockSession::default();
    let mut state = State::default();
    state.request.url = Some("https://example.com/".to_string());
    state.request.headers.insert("Authorization".to_string(), "Bearer t".to_string());

    run("--follow send", &mut state, &http, &session).unwrap();

    let seen = http.seen.borrow();
    assert_eq!(seen[0].headers.get("authorization"), Some("Bearer t"));
    assert_eq!(seen[1].headers.get("authorization"), None);
    assert_eq!(seen[1].url.as_deref(), Some("https://other.example/landing"));
}

#[test]
fn follow_gives_up_after_ten_hops() {
    let http = MockHttp::sequence(vec![Ok(redirect(302, "/again"))]);
    let session = MockSession::default();
    let mut state = State::default();
    state.request.url = Some("https://example.com/".to_string());

    let err = run("--retry 3 --delay 0 --follow send", &mut state, &http, &session).unwrap_err();
    assert!(err.contains("too many redirects"), "{err}");
    assert_eq!(http.seen.borrow().len(), 11);
}

#[test]
fn without_follow_a_redirect_is_recorded() {
    let http = MockHttp::sequence(vec![Ok(redirect(302, "/next"))]);
    let session = MockSession::default();
    let mut state = State::default();
    state.request.url = Some("https://example.com/".to_string());

    run("send", &mut state, &http, &session).unwrap();

    assert_eq!(http.seen.borrow().len(), 1);
    assert_eq!(state.responses[0].status, 302);
}

#[test]
fn var_and_var_rm_edit_session_variables() {
    let http = MockHttp::ok(200);
    let session = MockSession::default();
    let mut state = State::default();

    run("var token abc var other x", &mut state, &http, &session).unwrap();
    assert_eq!(state.vars.get("token"), Some("abc"));
    run("var-rm token", &mut state, &http, &session).unwrap();
    assert_eq!(state.vars.get("token"), None);
    assert_eq!(state.vars.get("other"), Some("x"));
    assert!(parse_args(&args("var bad.name 1")).is_err());
}

#[test]
fn then_reads_session_variables() {
    let http = MockHttp::ok(200);
    let session = MockSession::default();
    let presets = MockPresets::with("p.json", preset("GET", "https://example.com/${{ var.id }}"));
    let mut state = State::default();

    run_with_presets("var id 7 then p.json", &mut state, &http, &session, &presets).unwrap();

    assert_eq!(http.seen.borrow()[0].url.as_deref(), Some("https://example.com/7"));
}

#[test]
fn body_rm_and_timeout_and_cookie_rm() {
    let http = MockHttp::ok(200);
    let session = MockSession::default();
    let mut state = State::default();
    state.cookies.push(jar_cookie("sid", "1", "example.com"));
    state.cookies.push(jar_cookie("keep", "2", "example.com"));

    run("body x timeout 5 cookie-rm sid", &mut state, &http, &session).unwrap();
    assert_eq!(state.request.body.as_deref(), Some("x"));
    assert_eq!(state.request.timeout_secs, Some(5));
    assert_eq!(state.cookies.len(), 1);
    assert_eq!(state.cookies[0].name, "keep");

    run("body-rm", &mut state, &http, &session).unwrap();
    assert_eq!(state.request.body, None);
    assert_eq!(session.save_count.get(), 2);
    run("body-rm cookie-rm nothing", &mut state, &http, &session).unwrap();
    assert_eq!(session.save_count.get(), 2);
}

#[test]
fn custom_method_keeps_its_casing() {
    let (cmds, _) = parse_args(&args("method Custom-Method")).unwrap();
    assert!(matches!(&cmds[0], Command::Method(m) if m == "Custom-Method"));
    let (cmds, _) = parse_args(&args("method patch")).unwrap();
    assert!(matches!(&cmds[0], Command::Method(m) if m == "PATCH"));
}

#[test]
fn bare_and_dashed_flag_spellings() {
    let (_, flags) = parse_args(&args("retry 2 delay 3 until status follow --fail")).unwrap();
    assert_eq!(flags.retry, Some(2));
    assert_eq!(flags.delay_secs, 3);
    assert_eq!(flags.until.as_deref(), Some("status"));
    assert!(flags.follow && flags.fail_on_error);
    let (_, flags) = parse_args(&args("--retry 0")).unwrap();
    assert_eq!(flags.retry, Some(0));
    assert!(parse_args(&args("timeout soon")).is_err());
}

#[test]
fn until_with_retry_zero_checks_once() {
    let http = MockHttp::ok(200);
    let session = MockSession::default();
    let mut state = State::default();
    state.request.url = Some("https://example.com".to_string());

    let err = run("--until body.x --retry 0 --delay 0 send", &mut state, &http, &session).unwrap_err();
    assert!(err.contains("not met after 1"), "{err}");
    assert_eq!(http.seen.borrow().len(), 1);
}

#[test]
fn until_alone_polls_ten_times() {
    let http = MockHttp::ok(200);
    let session = MockSession::default();
    let mut state = State::default();
    state.request.url = Some("https://example.com".to_string());

    assert!(run("--until body.x --delay 0 send", &mut state, &http, &session).is_err());
    assert_eq!(http.seen.borrow().len(), 10);
}

#[test]
fn format_curl_follow_and_timeout() {
    let request = Request {
        url: Some("https://example.com".to_string()),
        timeout_secs: Some(5),
        ..Default::default()
    };
    assert_eq!(
        reel::cli::display::format_curl_with(&request, false, true).unwrap(),
        "curl -L -m 5 'https://example.com'"
    );
}

#[test]
fn format_status_and_sizes() {
    assert_eq!(reel::cli::format_status(404), "404 Not Found");
    assert_eq!(reel::cli::format_status(299), "299");
    assert_eq!(format_size(1023), "1023 B");
    assert_eq!(format_size(1024), "1.0 KiB");
    assert_eq!(format_size(1536), "1.5 KiB");
}

#[test]
fn dry_run_lines_list_the_request() {
    let mut request = Request {
        url: Some("https://example.com".to_string()),
        body: Some("{}".to_string()),
        ..Default::default()
    };
    request.headers.insert("b".to_string(), "2".to_string());
    request.headers.insert("a".to_string(), "1".to_string());
    assert_eq!(
        reel::cli::display::dry_run_lines(&request),
        vec!["> GET https://example.com", ">   a: 1", ">   b: 2", ">   {}"]
    );
}

#[test]
fn finished_run_answers_finish_again() {
    let (cmds, flags) = parse_args(&args("method POST url https://x.com")).unwrap();
    let mut runner = Runner::new(cmds, flags, Vars::new());
    let mut state = State::default();
    let mut event = Event::Start;
    let mut steps = 0;
    loop {
        steps += 1;
        assert!(steps < 20, "the run does not end");
        event = match runner.step(&mut state, event) {
            Action::SaveSession => Event::Saved(Ok(())),
            Action::Finish(result) => {
                assert!(result.is_ok());
                break;
            }
            _ => Event::Done,
        };
    }
    let before = state.clone();
    for _ in 0..2 {
        match runner.step(&mut state, Event::Done) {
            Action::Finish(Err(m)) => assert_eq!(m, "error: the run is over"),
            _ => panic!("expected Finish after the run ended"),
        }
    }
    assert_eq!(state.request.method.as_deref(), Some("POST"));
    assert_eq!(state.request.url, before.request.url);
}

#[test]
fn response_selection_picks_range_or_error() {
    assert_eq!(
        response_selection(0, ResponseTarget::Last),
        Err("error: no responses stored yet (run 'reel send' first)".to_string())
    );
    assert_eq!(response_selection(3, ResponseTarget::Last), Ok((2, 3)));
    assert_eq!(response_selection(3, ResponseTarget::Index(1)), Ok((1, 2)));
    assert_eq!(
        response_selection(3, ResponseTarget::Index(3)),
        Err("error: response index 4 out of range (have 3)".to_string())
    );
    assert_eq!(response_selection(3, ResponseTarget::All), Ok((0, 3)));
}

#[test]
fn header_block_lists_sorted_headers() {
    let mut r = response(200, "{}");
    r.headers.insert(s("X-B"), s("2"));
    r.headers.insert(s("A"), s("1"));
    assert_eq!(
        header_block_lines(&r, None),
        vec![s("200 — (session)"), s("A: 1"), s("X-B: 2")]
    );
    r.source = Some(s("step.json"));
    assert_eq!(
        header_block_lines(&r, Some(2)),
        vec![s("[2] 200 — step.json"), s("  A: 1"), s("  X-B: 2")]
    );
}

#[test]
fn state_lines_describe_the_session() {
    let mut state = State::default();
    assert_eq!(
        state_lines(&state, "/tmp/s.json"),
        vec![
            s("Session: /tmp/s.json"),
            s("  method  (not set)"),
            s("  url     (not set)")
        ]
    );
    state.request.method = Some(s("POST"));
    state.request.url = Some(s("https://x.com"));
    state.request.headers.insert(s("Content-Type"), s("application/json"));
    state.request.body = Some(s(r#"{"a":1}"#));
    state.cookies.push(Cookie {
        name: s("sid"),
        value: s("abc"),
        domain: s("x.com"),
        path: s("/"),
        secure: false,
        host_only: true,
    });
    state.vars.insert(s("token"), s("t1"));
    state.responses.push(response(200, "{}"));
    assert_eq!(
        state_lines(&state, "/tmp/s.json"),
        vec![
            s("Session: /tmp/s.json"),
            s("  method  POST"),
            s("  url     https://x.com"),
            s("  header  Content-Type: application/json"),
            s("  body    {\n            \"a\": 1\n          }"),
            s("  cookie  sid=abc  (x.com/)"),
            s("  var     token=t1"),
            s("  responses  1 stored"),
        ]
    );
    state.request.body = Some(s("line one\nline two"));
    assert_eq!(
        state_lines(&state, "/tmp/s.json")[4],
        s("  body    line one\n          line two")
    );
}

#[test]
fn failed_send_keeps_the_history() {
    let http = MockHttp::err();
    let session = MockSession::default();
    let mut state = State::default();
    state.request.url = Some(s("https://example.com"));
    state.requests.push(Request::default());
    state.responses.push(response(200, "old"));
    assert!(run("send", &mut state, &http, &session).is_err());
    assert_eq!(state.requests.len(), 1);
    assert_eq!(state.responses.len(), 1);
    assert_eq!(state.responses[0].body, "old");
}

#[test]
fn parse_errors_name_the_token() {
    assert_eq!(
        parse_args(&args("frobnicate")).err(),
        Some(s("error: unknown command 'frobnicate'\nRun 'reel' with no arguments to see usage."))
    );
    assert_eq!(
        parse_args(&args("url")).err(),
        Some(s("error: 'url' requires a value"))
    );
    assert_eq!(
        parse_args(&args("timeout soon")).err(),
        Some(s("error: invalid timeout seconds 'soon'"))
    );
    assert_eq!(
        parse_args(&args("--retry many")).err(),
        Some(s("error: invalid --retry value"))
    );
}
