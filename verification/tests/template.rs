use reel::model::{Headers, Request, ResponseRecord, Vars};
use reel::template::{apply_interpolation, check_condition, interpolate, Context, TemplateError};

fn pairs(items: &[(&str, &str)]) -> Vec<(String, String)> {
    items.iter().map(|(k, v)| (k.to_string(), v.to_string())).collect()
}

fn record(status: u16, body: &str, headers: &[(&str, &str)]) -> ResponseRecord {
    ResponseRecord {
        status,
        headers: Headers::from_pairs(pairs(headers)),
        body: body.to_string(),
        ..Default::default()
    }
}

fn request(method: &str, url: &str, body: Option<&str>, headers: &[(&str, &str)]) -> Request {
    Request {
        method: Some(method.to_string()),
        url: Some(url.to_string()),
        headers: Headers::from_pairs(pairs(headers)),
        body: body.map(str::to_string),
        ..Default::default()
    }
}

fn no_vars() -> &'static Vars {
    Box::leak(Box::new(Vars::new()))
}

fn ctx<'a>(requests: &'a [Request], responses: &'a [ResponseRecord]) -> Context<'a> {
    Context { requests, responses, vars: no_vars(), env: no_vars() }
}

fn empty_ctx() -> Context<'static> {
    ctx(&[], &[])
}

// Interpolate against a response-only history (no requests).
fn interp(text: &str, responses: &[ResponseRecord]) -> Result<String, TemplateError> {
    interpolate(text, &ctx(&[], responses))
}

fn interp_full(
    text: &str,
    requests: &[Request],
    responses: &[ResponseRecord],
) -> Result<String, TemplateError> {
    interpolate(text, &ctx(requests, responses))
}

// Interpolate with a snapshot of the environment.
fn interp_env(text: &str, env: &[(&str, &str)]) -> Result<String, TemplateError> {
    let env = Vars::from_pairs(pairs(env));
    interpolate(text, &Context { requests: &[], responses: &[], vars: no_vars(), env: &env })
}

#[test]
fn no_placeholders() {
    let r = record(200, "hello", &[]);
    assert_eq!(interp("plain text", &[r]).unwrap(), "plain text");
}

#[test]
fn status_placeholder() {
    let r = record(404, "", &[]);
    assert_eq!(interp("code=${{ status }}", &[r]).unwrap(), "code=404");
}

#[test]
fn body_placeholder() {
    let r = record(200, "raw body", &[]);
    assert_eq!(interp("x=${{ body }}", &[r]).unwrap(), "x=raw body");
}

#[test]
fn header_placeholder() {
    let r = record(200, "", &[("content-type", "application/json")]);
    assert_eq!(
        interp("ct=${{ headers.content-type }}", &[r]).unwrap(),
        "ct=application/json"
    );
}

#[test]
fn header_missing_is_error() {
    let r = record(200, "", &[]);
    assert!(interp("${{ headers.x-missing }}", &[r]).is_err());
}

#[test]
fn body_dot_path() {
    let r = record(200, r#"{"token":"abc123"}"#, &[]);
    assert_eq!(interp("${{ body.token }}", &[r]).unwrap(), "abc123");
}

#[test]
fn body_nested_path() {
    let r = record(200, r#"{"access":{"token":"t42"}}"#, &[]);
    assert_eq!(interp("${{ body.access.token }}", &[r]).unwrap(), "t42");
}

#[test]
fn body_array_index() {
    let r = record(200, r#"{"items":[{"id":"first"},{"id":"second"}]}"#, &[]);
    assert_eq!(interp("${{ body.items.1.id }}", &[r]).unwrap(), "second");
}

#[test]
fn body_numeric_value_stringified() {
    let r = record(200, r#"{"count":42}"#, &[]);
    assert_eq!(interp("${{ body.count }}", &[r]).unwrap(), "42");
}

#[test]
fn body_path_missing_is_error() {
    let r = record(200, r#"{"a":1}"#, &[]);
    assert!(interp("${{ body.b }}", &[r]).is_err());
}

#[test]
fn body_not_json_with_path_is_error() {
    let r = record(200, "not json", &[]);
    assert!(interp("${{ body.field }}", &[r]).is_err());
}

#[test]
fn unclosed_placeholder_is_error() {
    let r = record(200, "", &[]);
    assert!(interp("${{ status", &[r]).is_err());
}

#[test]
fn unknown_expression_is_error() {
    let r = record(200, "", &[]);
    assert!(interp("${{ unknown }}", &[r]).is_err());
}

#[test]
fn multiple_placeholders() {
    let r = record(201, r#"{"id":"99"}"#, &[]);
    assert_eq!(
        interp("status=${{ status }} id=${{ body.id }}", &[r]).unwrap(),
        "status=201 id=99"
    );
}

#[test]
fn apply_interpolation_replaces_url_and_headers() {
    let r = record(200, r#"{"tok":"xyz"}"#, &[]);
    let mut request = Request {
        url: Some("https://example.com/${{ body.tok }}".to_string()),
        headers: Headers::from_pairs(pairs(&[("X-Token", "${{ body.tok }}")])),
        ..Default::default()
    };
    apply_interpolation(
        &mut request,
        &ctx(&[], &[r]),
    )
    .unwrap();
    assert_eq!(request.url.unwrap(), "https://example.com/xyz");
    assert_eq!(request.headers.get("X-Token"), Some("xyz"));
}

// --- indexed response[N] syntax ---

#[test]
fn indexed_response_body_path() {
    let r1 = record(200, r#"{"token":"first"}"#, &[]);
    let r2 = record(200, r#"{"token":"second"}"#, &[]);
    assert_eq!(
        interp("${{ response[1].body.token }}", &[r1, r2]).unwrap(),
        "first"
    );
}

#[test]
fn indexed_response_last_implicit() {
    let r1 = record(200, r#"{"token":"first"}"#, &[]);
    let r2 = record(201, r#"{"token":"second"}"#, &[]);
    // bare ${{ body.token }} still refers to the last response
    assert_eq!(interp("${{ body.token }}", &[r1, r2]).unwrap(), "second");
}

#[test]
fn indexed_response_status() {
    let r1 = record(201, "", &[]);
    let r2 = record(200, "", &[]);
    let responses = vec![r1, r2];
    assert_eq!(
        interp("${{ response[1].status }}", &responses).unwrap(),
        "201"
    );
    assert_eq!(
        interp("${{ response[2].status }}", &responses).unwrap(),
        "200"
    );
}

#[test]
fn indexed_response_header() {
    let r1 = record(200, "", &[("x-token", "tok1")]);
    let r2 = record(200, "", &[("x-token", "tok2")]);
    assert_eq!(
        interp("${{ response[1].headers.x-token }}", &[r1, r2]).unwrap(),
        "tok1"
    );
}

#[test]
fn indexed_response_out_of_range_is_error() {
    let r1 = record(200, "", &[]);
    assert!(interp("${{ response[2].body }}", &[r1]).is_err());
}

#[test]
fn indexed_response_zero_is_error() {
    let r1 = record(200, "", &[]);
    assert!(interp("${{ response[0].body }}", &[r1]).is_err());
}

#[test]
fn indexed_response_no_field_is_error() {
    let r1 = record(200, "", &[]);
    assert!(interp("${{ response[1] }}", &[r1]).is_err());
}

#[test]
fn mix_indexed_and_implicit() {
    let r1 = record(200, r#"{"id":"first"}"#, &[]);
    let r2 = record(201, r#"{"id":"second"}"#, &[]);
    assert_eq!(
        interp(
            "from1=${{ response[1].body.id }} from2=${{ body.id }}",
            &[r1, r2]
        )
        .unwrap(),
        "from1=first from2=second"
    );
}

// --- environment variables ---


#[test]
fn env_var_resolves() {
    let env = [("REEL_TEST_TOKEN", "s3cret")];
    assert_eq!(
        interp_env("Bearer ${{ env.REEL_TEST_TOKEN }}", &env).unwrap(),
        "Bearer s3cret"
    );
}

#[test]
fn env_var_works_without_history() {
    let env = [("REEL_TEST_HOST", "example.com")];
    // No requests and no responses at all — env must still resolve.
    assert_eq!(
        interp_env("https://${{ env.REEL_TEST_HOST }}/x", &env).unwrap(),
        "https://example.com/x"
    );
}

#[test]
fn env_var_missing_is_error() {
    assert!(interp_full("${{ env.REEL_DEFINITELY_UNSET_VAR }}", &[], &[]).is_err());
}

// --- request history ---

#[test]
fn request_url_and_method() {
    let rq = request("POST", "https://api.example.com/login", None, &[]);
    assert_eq!(
        interp_full("${{ request.method }} ${{ request.url }}", &[rq], &[]).unwrap(),
        "POST https://api.example.com/login"
    );
}

#[test]
fn request_body_dot_path() {
    let rq = request("POST", "https://x", Some(r#"{"user":{"id":"u7"}}"#), &[]);
    assert_eq!(
        interp_full("${{ request.body.user.id }}", &[rq], &[]).unwrap(),
        "u7"
    );
}

#[test]
fn request_header_case_insensitive() {
    let rq = request("GET", "https://x", None, &[("X-Trace-Id", "abc")]);
    assert_eq!(
        interp_full("${{ request.headers.x-trace-id }}", &[rq], &[]).unwrap(),
        "abc"
    );
}

#[test]
fn request_indexed() {
    let rq1 = request("GET", "https://one", None, &[]);
    let rq2 = request("GET", "https://two", None, &[]);
    assert_eq!(
        interp_full("${{ request[1].url }}", &[rq1, rq2], &[]).unwrap(),
        "https://one"
    );
}

#[test]
fn request_last_implicit() {
    let rq1 = request("GET", "https://one", None, &[]);
    let rq2 = request("GET", "https://two", None, &[]);
    // bare request.* refers to the most recent request
    assert_eq!(
        interp_full("${{ request.url }}", &[rq1, rq2], &[]).unwrap(),
        "https://two"
    );
}

#[test]
fn request_with_no_history_is_error() {
    assert!(interp_full("${{ request.url }}", &[], &[]).is_err());
}

#[test]
fn request_unknown_field_is_error() {
    let rq = request("GET", "https://x", None, &[]);
    assert!(interp_full("${{ request.bogus }}", &[rq], &[]).is_err());
}

// --- check_condition ---

#[test]
fn condition_existence_passes_when_resolvable() {
    let responses = [record(200, r#"{"token":"abc"}"#, &[])];
    let ctx = ctx(&[], &responses);
    assert!(check_condition("body.token", &ctx).is_ok());
    assert!(check_condition("status", &ctx).is_ok());
}

#[test]
fn condition_existence_fails_when_missing() {
    let responses = [record(200, r#"{"token":"abc"}"#, &[])];
    let ctx = ctx(&[], &responses);
    assert!(check_condition("body.missing", &ctx).is_err());
}

#[test]
fn condition_equality() {
    let responses = [record(201, r#"{"id":42}"#, &[])];
    let ctx = ctx(&[], &responses);
    assert!(check_condition("status == 201", &ctx).is_ok());
    assert!(check_condition("body.id == 42", &ctx).is_ok());
    let err = check_condition("status == 200", &ctx)
        .unwrap_err()
        .to_string();
    assert!(err.contains("actual: 201"), "{err}");
}

#[test]
fn condition_inequality() {
    let responses = [record(200, "{}", &[])];
    let ctx = ctx(&[], &responses);
    assert!(check_condition("status != 404", &ctx).is_ok());
    assert!(check_condition("status != 200", &ctx).is_err());
}

#[test]
fn condition_contains() {
    let responses = [record(200, r#"{"msg":"hello world"}"#, &[])];
    let ctx = ctx(&[], &responses);
    assert!(check_condition("body contains hello", &ctx).is_ok());
    assert!(check_condition("body.msg contains hello world", &ctx).is_ok());
    assert!(check_condition("body contains goodbye", &ctx).is_err());
}

#[test]
fn condition_unknown_operator_is_error() {
    let responses = [record(200, "{}", &[])];
    let ctx = ctx(&[], &responses);
    let err = check_condition("status >= 200", &ctx)
        .unwrap_err()
        .to_string();
    assert!(err.contains("unknown expect operator"), "{err}");
}

#[test]
fn condition_without_history_is_error() {
    let ctx = ctx(&[], &[]);
    assert!(check_condition("status == 200", &ctx).is_err());
}

#[test]
fn condition_empty_is_error() {
    let ctx = ctx(&[], &[]);
    assert!(check_condition("  ", &ctx).is_err());
}

// --- template functions ---


#[test]
fn uuid_function_generates_v4() {
    let out = interpolate("${{ uuid() }}", &empty_ctx()).unwrap();
    assert_eq!(out.len(), 36);
    assert_eq!(out.as_bytes()[14], b'4');
    for i in [8, 13, 18, 23] {
        assert_eq!(out.as_bytes()[i], b'-', "{out}");
    }
    // Each placeholder is evaluated independently.
    let two = interpolate("${{ uuid() }} ${{ uuid() }}", &empty_ctx()).unwrap();
    let (a, b) = two.split_once(' ').unwrap();
    assert_ne!(a, b);
}

#[test]
fn uuid_function_rejects_arguments() {
    assert!(interpolate("${{ uuid(7) }}", &empty_ctx()).is_err());
}

#[test]
fn now_function_returns_unix_seconds() {
    let before = std::time::SystemTime::now()
        .duration_since(std::time::UNIX_EPOCH)
        .unwrap()
        .as_secs() as i64;
    let out: i64 = interpolate("${{ now() }}", &empty_ctx())
        .unwrap()
        .parse()
        .unwrap();
    assert!((out - before).abs() <= 2, "now()={out} vs {before}");
}

#[test]
fn now_function_applies_offset() {
    let base: i64 = interpolate("${{ now() }}", &empty_ctx())
        .unwrap()
        .parse()
        .unwrap();
    let plus: i64 = interpolate("${{ now(+3600) }}", &empty_ctx())
        .unwrap()
        .parse()
        .unwrap();
    let minus: i64 = interpolate("${{ now(-60) }}", &empty_ctx())
        .unwrap()
        .parse()
        .unwrap();
    assert!((plus - base - 3600).abs() <= 2);
    assert!((minus - base + 60).abs() <= 2);
}

#[test]
fn now_function_invalid_offset_is_error() {
    assert!(interpolate("${{ now(soon) }}", &empty_ctx()).is_err());
}

#[test]
fn base64_function_encodes_literal() {
    assert_eq!(
        interpolate("${{ base64('hello') }}", &empty_ctx()).unwrap(),
        "aGVsbG8="
    );
    assert_eq!(
        interpolate("${{ base64('user:pass') }}", &empty_ctx()).unwrap(),
        "dXNlcjpwYXNz"
    );
    // Padding edge cases.
    assert_eq!(
        interpolate("${{ base64('a') }}", &empty_ctx()).unwrap(),
        "YQ=="
    );
    assert_eq!(
        interpolate("${{ base64('ab') }}", &empty_ctx()).unwrap(),
        "YWI="
    );
    assert_eq!(
        interpolate("${{ base64('abc') }}", &empty_ctx()).unwrap(),
        "YWJj"
    );
}

#[test]
fn base64_function_evaluates_nested_expression() {
    let responses = [record(200, r#"{"token":"abc"}"#, &[])];
    let ctx = ctx(&[], &responses);
    assert_eq!(
        interpolate("${{ base64(body.token) }}", &ctx).unwrap(),
        "YWJj"
    );
}

#[test]
fn base64_function_without_argument_is_error() {
    assert!(interpolate("${{ base64() }}", &empty_ctx()).is_err());
}

#[test]
fn unknown_function_is_error() {
    let err = interpolate("${{ rot13('x') }}", &empty_ctx())
        .unwrap_err()
        .to_string();
    assert!(err.contains("unknown template function"), "{err}");
}

// --- default values ---

#[test]
fn default_used_when_env_var_missing() {
    assert_eq!(
        interpolate(
            "${{ env.REEL_TEST_SURELY_UNSET | default: localhost:8080 }}",
            &empty_ctx()
        )
        .unwrap(),
        "localhost:8080"
    );
}

#[test]
fn default_ignored_when_expression_resolves() {
    let env = [("REEL_TEST_DEFAULT_SET", "real")];
    assert_eq!(
        interp_env("${{ env.REEL_TEST_DEFAULT_SET | default: fallback }}", &env).unwrap(),
        "real"
    );
}

#[test]
fn default_used_when_history_missing() {
    assert_eq!(
        interpolate("${{ body.token | default: anonymous }}", &empty_ctx()).unwrap(),
        "anonymous"
    );
}

#[test]
fn default_value_may_contain_spaces_and_be_empty() {
    assert_eq!(
        interpolate(
            "${{ env.REEL_TEST_SURELY_UNSET | default: a b c }}",
            &empty_ctx()
        )
        .unwrap(),
        "a b c"
    );
    assert_eq!(
        interpolate("${{ env.REEL_TEST_SURELY_UNSET | default: }}", &empty_ctx()).unwrap(),
        ""
    );
}

#[test]
fn default_does_not_mask_unknown_function() {
    // A misspelled function is a structural error, not missing data — it must
    // propagate even with a default present.
    let err = interpolate("${{ uuidd() | default: x }}", &empty_ctx())
        .unwrap_err()
        .to_string();
    assert!(err.contains("unknown template function"), "{err}");
}

#[test]
fn default_does_not_mask_unknown_expression() {
    let responses = [record(200, "{}", &[])];
    let ctx = ctx(&[], &responses);
    let err = interpolate("${{ statas | default: x }}", &ctx)
        .unwrap_err()
        .to_string();
    assert!(err.contains("unknown template expression"), "{err}");

    let rq = request("GET", "https://x", None, &[]);
    let err = interp_full("${{ request.methud | default: x }}", &[rq], &[])
        .unwrap_err()
        .to_string();
    assert!(err.contains("unknown request expression"), "{err}");
}

#[test]
fn default_applies_to_unresolvable_inside_function() {
    // The Unresolvable marker survives the nested evaluation in base64(...).
    assert_eq!(
        interpolate(
            "${{ base64(env.REEL_TEST_SURELY_UNSET) | default: none }}",
            &empty_ctx()
        )
        .unwrap(),
        "none"
    );
}

#[test]
fn pipe_without_default_keyword_is_error() {
    let err = interpolate("${{ status | fallback: x }}", &empty_ctx())
        .unwrap_err()
        .to_string();
    assert!(err.contains("default:"), "{err}");
}

#[test]
fn pipe_inside_quoted_literal_is_not_a_default() {
    assert_eq!(
        interpolate("${{ base64('a|b') }}", &empty_ctx()).unwrap(),
        "YXxi"
    );
}

// --- elapsed ---

#[test]
fn elapsed_expression_resolves() {
    let mut r = record(200, "{}", &[]);
    r.elapsed_ms = 142;
    let responses = [record(200, "{}", &[]), r];
    let ctx = ctx(&[], &responses);
    assert_eq!(interpolate("${{ elapsed }}", &ctx).unwrap(), "142");
    assert_eq!(
        interpolate("${{ response[1].elapsed }}", &ctx).unwrap(),
        "0"
    );
    assert!(check_condition("elapsed == 142", &ctx).is_ok());
}

// --- the single-record form of the first template engine ---

#[test]
fn template_no_placeholders() {
    let r = record(200, "hello", &[]);
    assert_eq!(interp("plain text", &[r]).unwrap(), "plain text");
}

#[test]
fn template_status_placeholder() {
    let r = record(404, "", &[]);
    assert_eq!(interp("code=${{ status }}", &[r]).unwrap(), "code=404");
}

#[test]
fn template_body_placeholder() {
    let r = record(200, "raw body", &[]);
    assert_eq!(interp("x=${{ body }}", &[r]).unwrap(), "x=raw body");
}

#[test]
fn template_header_placeholder() {
    let r = record(200, "", &[("content-type", "application/json")]);
    assert_eq!(
        interp("ct=${{ headers.content-type }}", &[r]).unwrap(),
        "ct=application/json"
    );
}

#[test]
fn template_header_missing_is_error() {
    let r = record(200, "", &[]);
    assert!(interp("${{ headers.x-missing }}", &[r]).is_err());
}

#[test]
fn template_body_dot_path() {
    let r = record(200, r#"{"token":"abc123"}"#, &[]);
    assert_eq!(interp("${{ body.token }}", &[r]).unwrap(), "abc123");
}

#[test]
fn template_body_nested_path() {
    let r = record(200, r#"{"access":{"token":"t42"}}"#, &[]);
    assert_eq!(interp("${{ body.access.token }}", &[r]).unwrap(), "t42");
}

#[test]
fn template_body_array_index() {
    let r = record(200, r#"{"items":[{"id":"first"},{"id":"second"}]}"#, &[]);
    assert_eq!(interp("${{ body.items.1.id }}", &[r]).unwrap(), "second");
}

#[test]
fn template_body_numeric_value_stringified() {
    let r = record(200, r#"{"count":42}"#, &[]);
    assert_eq!(interp("${{ body.count }}", &[r]).unwrap(), "42");
}

#[test]
fn template_body_path_missing_is_error() {
    let r = record(200, r#"{"a":1}"#, &[]);
    assert!(interp("${{ body.b }}", &[r]).is_err());
}

#[test]
fn template_body_not_json_with_path_is_error() {
    let r = record(200, "not json", &[]);
    assert!(interp("${{ body.field }}", &[r]).is_err());
}

#[test]
fn template_unclosed_placeholder_is_error() {
    let r = record(200, "", &[]);
    assert!(interp("${{ status", &[r]).is_err());
}

#[test]
fn template_unknown_expression_is_error() {
    let r = record(200, "", &[]);
    assert!(interp("${{ unknown }}", &[r]).is_err());
}

#[test]
fn template_multiple_placeholders() {
    let r = record(201, r#"{"id":"99"}"#, &[]);
    assert_eq!(
        interp("status=${{ status }} id=${{ body.id }}", &[r]).unwrap(),
        "status=201 id=99"
    );
}

#[test]
fn template_apply_interpolation_replaces_url_and_headers() {
    let r = record(200, r#"{"tok":"xyz"}"#, &[]);
    let mut request = Request {
        url: Some("https://example.com/${{ body.tok }}".to_string()),
        headers: Headers::from_pairs(pairs(&[("X-Token", "${{ body.tok }}")])),
        ..Default::default()
    };
    let responses = [r];
    apply_interpolation(&mut request, &ctx(&[], &responses)).unwrap();
    assert_eq!(request.url.unwrap(), "https://example.com/xyz");
    assert_eq!(request.headers.get("X-Token"), Some("xyz"));
}

// --- further cases ---

#[test]
fn quoted_braces_do_not_close_a_placeholder() {
    assert_eq!(interpolate("${{ base64('}}') }}", &empty_ctx()).unwrap(), "fX0=");
}

#[test]
fn session_variables_resolve() {
    let vars = Vars::from_pairs(pairs(&[("user", "alice")]));
    let env = Vars::new();
    let c = Context { requests: &[], responses: &[], vars: &vars, env: &env };
    assert_eq!(interpolate("hi ${{ var.user }}", &c).unwrap(), "hi alice");
    assert!(interpolate("${{ var.USER }}", &c).is_err());
    assert_eq!(interpolate("${{ var.none | default: x }}", &c).unwrap(), "x");
}

#[test]
fn function_shaped_json_key_is_a_path() {
    let responses = [record(200, r#"{"items(0)":"v"}"#, &[])];
    assert_eq!(interpolate("${{ body.items(0) }}", &ctx(&[], &responses)).unwrap(), "v");
}

#[test]
fn base64_of_multibyte_text_encodes_utf8() {
    assert_eq!(interpolate("${{ base64('é') }}", &empty_ctx()).unwrap(), "w6k=");
}

#[test]
fn bare_field_equals_last_indexed_response() {
    let responses = [record(201, "a", &[]), record(202, "b", &[])];
    let c = ctx(&[], &responses);
    assert_eq!(
        interpolate("${{ status }}", &c).unwrap(),
        interpolate("${{ response[2].status }}", &c).unwrap()
    );
}

#[test]
fn text_without_placeholders_is_returned_unchanged() {
    let responses = [record(200, "x", &[])];
    let t = "curly } braces { and $ signs";
    assert_eq!(interpolate(t, &ctx(&[], &responses)).unwrap(), t);
}

#[test]
fn failed_interpolation_empties_the_failed_field() {
    let mut request = Request {
        url: Some("https://x/${{ body.id }}".to_string()),
        body: Some("${{ body.id }}".to_string()),
        ..Default::default()
    };
    assert!(apply_interpolation(&mut request, &empty_ctx()).is_err());
    assert_eq!(request.url, None);
    assert_eq!(request.body.as_deref(), Some("${{ body.id }}"));
}

#[test]
fn failed_header_keeps_its_value_after_earlier_fields() {
    let responses = [record(200, "{\"id\":7}", &[])];
    let mut headers = Headers::default();
    headers.insert("X-A".to_string(), "${{ body.id }}".to_string());
    headers.insert("X-B".to_string(), "${{ body.missing }}".to_string());
    let mut request = Request {
        url: Some("https://x/${{ body.id }}".to_string()),
        headers,
        ..Default::default()
    };
    assert!(apply_interpolation(&mut request, &ctx(&[], &responses)).is_err());
    assert_eq!(request.url.as_deref(), Some("https://x/7"));
    assert_eq!(request.headers.get("x-a"), Some("7"));
    assert_eq!(request.headers.get("x-b"), Some("${{ body.missing }}"));
}

#[test]
fn escaped_placeholder_is_literal() {
    assert_eq!(interpolate("$${{ status }}", &empty_ctx()).unwrap(), "${{ status }}");
    let responses = [record(201, "x", &[])];
    assert_eq!(
        interpolate("a $${{ status }} b ${{ status }}", &ctx(&[], &responses)).unwrap(),
        "a ${{ status }} b 201"
    );
}
