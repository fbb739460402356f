//! `${{ ... }}` templates: interpolation of request fields against the
//! request/response history, session variables and the environment, and the
//! `expect` conditions checked against the same data.
//!
//! Evaluation is specified by the spec functions below. `uuid()` and `now()`
//! read a random number and the wall clock; each placeholder (and each
//! condition) is evaluated against a `Draw` that stands for those two
//! readings, so the contracts say exactly what comes out for every possible
//! reading.
use vstd::prelude::*;
use vstd::string::StringExecFns;

use crate::bindings::{json_node, new_uuid_v4, system_time_now, unix_seconds, uuid_shaped};
use crate::json::{json_at, json_at_exec};
use crate::model::{
    header_lookup, var_lookup, Headers, Pairs, Request, RequestV, ResponseRecord, ResponseV, Vars,
};
use crate::text::{
    lemma_back_ws_bounds, lemma_back_ws_keeps, lemma_decimal_digits, lemma_decimal_parse,
    lemma_find_single, is_digit, skip_ws, back_ws,
    chars_of, decimal, decimal_exec, extend, find, find_char, find_exec, is_alnum, is_alnum_exec,
    is_ws, is_ws_exec, lemma_find_from_result, lemma_trim_len, parse_signed, parse_signed_exec,
    parse_unsigned, parse_unsigned_exec, same, signed_decimal, signed_decimal_exec, slice_chars,
    starts_with, starts_with_exec, string_from, string_of, strip_prefix, strip_prefix_exec,
    strip_suffix, strip_suffix_exec, tail, trim, trim_end, trim_end_exec, trim_exec, trim_start,
    trim_start_exec,
};

verus! {

// ---------------------------------------------------------------------------
// The model
// ---------------------------------------------------------------------------

/// What a template can read, as plain values.
pub struct Ctx {
    pub requests: Seq<RequestV>,
    pub responses: Seq<ResponseV>,
    pub vars: Pairs,
    pub env: Pairs,
}

/// The readings of the outside world one evaluation may use: the UUID that
/// `uuid()` yields and the clock (whole seconds since the Unix epoch, None
/// before it) that `now()` reads.
pub struct Draw {
    pub uuid: Seq<char>,
    pub clock: Option<u64>,
}

pub open spec fn draw_ok(d: Draw) -> bool {
    uuid_shaped(d.uuid)
}

pub open spec fn draws_ok(ds: Seq<Draw>) -> bool {
    forall|i: int| 0 <= i < ds.len() ==> draw_ok(#[trigger] ds[i])
}

/// The result of evaluating an expression: a value, missing data (absorbed
/// by `| default:`), or a malformed expression (never absorbed).
pub enum Eval {
    Val(Seq<char>),
    Missing,
    Bad,
}

pub open spec fn opt_val(o: Option<Seq<char>>) -> Eval {
    match o {
        Some(v) => Eval::Val(v),
        None => Eval::Missing,
    }
}

/// A dot-path into a JSON text.
pub open spec fn json_field(body: Seq<char>, path: Seq<char>) -> Eval {
    if json_node(body) is None {
        Eval::Missing
    } else {
        opt_val(json_at(body, path))
    }
}

/// A field of a response record: `status`, `elapsed`, `body`, `body.<path>`,
/// `headers.<name>`.
pub open spec fn record_expr(e: Seq<char>, r: ResponseV) -> Eval {
    if e == "status"@ {
        Eval::Val(decimal(r.status as nat))
    } else if e == "elapsed"@ {
        Eval::Val(decimal(r.elapsed_ms as nat))
    } else if e == "body"@ {
        Eval::Val(r.body)
    } else {
        match strip_prefix(e, "headers."@) {
            Some(name) => opt_val(header_lookup(r.headers, name)),
            None => match strip_prefix(e, "body."@) {
                Some(path) => json_field(r.body, path),
                None => Eval::Bad,
            },
        }
    }
}

/// A field of a request record: `method`, `url`, `body`, `body.<path>`,
/// `headers.<name>`.
pub open spec fn request_expr(e: Seq<char>, q: RequestV) -> Eval {
    if e == "method"@ {
        opt_val(q.method)
    } else if e == "url"@ {
        opt_val(q.url)
    } else if e == "body"@ {
        opt_val(q.body)
    } else {
        match strip_prefix(e, "headers."@) {
            Some(name) => opt_val(header_lookup(q.headers, name)),
            None => match strip_prefix(e, "body."@) {
                Some(path) => match q.body {
                    Some(b) => json_field(b, path),
                    None => Eval::Missing,
                },
                None => Eval::Bad,
            },
        }
    }
}

/// `[N].field` or `.field` after `request`/`response`: the 1-based index
/// (None for the last record) and the field; None when malformed.
pub open spec fn split_index(rest: Seq<char>) -> Option<(Option<nat>, Seq<char>)> {
    match strip_prefix(rest, "["@) {
        Some(after) => match find(after, "]"@) {
            None => None,
            Some(be) => match parse_unsigned(after.take(be), usize::MAX as nat) {
                None => None,
                Some(idx) => if idx == 0 {
                    None
                } else {
                    match strip_prefix(after.skip(be + 1), "."@) {
                        Some(f) => Some((Some(idx), f)),
                        None => None,
                    }
                },
            },
        },
        None => match strip_prefix(rest, "."@) {
            Some(f) => Some((None, f)),
            None => None,
        },
    }
}

/// The record an index selects: the last one for None, else the `n`-th
/// (1-based).
pub open spec fn pick<T>(records: Seq<T>, idx: Option<nat>) -> Option<T> {
    match idx {
        None => if records.len() > 0 {
            Some(records.last())
        } else {
            None
        },
        Some(n) => if 1 <= n <= records.len() {
            Some(records[n - 1])
        } else {
            None
        },
    }
}

pub open spec fn is_ident(name: Seq<char>) -> bool {
    forall|i: int| 0 <= i < name.len() ==> is_alnum(#[trigger] name[i]) || name[i] == '_'
}

/// `name(args)` when the expression has that shape with an identifier-shaped
/// name: the name and the trimmed arguments.
pub open spec fn call_of(e: Seq<char>) -> Option<(Seq<char>, Seq<char>)> {
    match find(e, seq!['(']) {
        Some(open) => match strip_suffix(e.skip(open + 1), ")"@) {
            Some(args) => {
                let name = trim_end(e.take(open));
                if name.len() > 0 && is_ident(name) {
                    Some((name, trim(args)))
                } else {
                    None
                }
            },
            None => None,
        },
        None => None,
    }
}

/// The offset argument of `now(...)`: empty for 0, else an `i64` with an
/// optional leading `+`.
pub open spec fn now_offset(args: Seq<char>) -> Option<int> {
    if args.len() == 0 {
        Some(0)
    } else {
        let t = if args[0] == '+' {
            args.drop_first()
        } else {
            args
        };
        parse_signed(t, 0x8000_0000_0000_0000nat, 0x7fff_ffff_ffff_ffffnat)
    }
}

/// A single-quoted literal argument: the text between the quotes.
pub open spec fn literal_arg(args: Seq<char>) -> Option<Seq<char>> {
    match strip_prefix(args, "'"@) {
        Some(a) => strip_suffix(a, "'"@),
        None => None,
    }
}

pub proof fn lemma_call_shorter(e: Seq<char>)
    ensures
        call_of(e) matches Some((name, args)) ==> args.len() + 1 < e.len(),
{
    match find(e, seq!['(']) {
        Some(open) => {
            lemma_find_from_result(e, seq!['('], 0);
            match strip_suffix(e.skip(open + 1), ")"@) {
                Some(args) => {
                    lemma_trim_len(args);
                },
                None => {},
            }
        },
        None => {},
    }
}

/// A template function: `uuid()`, `now()`, `now(±N)`, `base64(<arg>)`.
pub open spec fn function(name: Seq<char>, args: Seq<char>, c: Ctx, d: Draw) -> Eval
    decreases args.len() + 1,
{
    if name == "uuid"@ {
        if args.len() > 0 {
            Eval::Bad
        } else {
            Eval::Val(d.uuid)
        }
    } else if name == "now"@ {
        match now_offset(args) {
            None => Eval::Bad,
            Some(off) => match d.clock {
                None => Eval::Bad,
                Some(secs) => Eval::Val(signed_decimal(secs as int + off)),
            },
        }
    } else if name == "base64"@ {
        if args.len() == 0 {
            Eval::Bad
        } else {
            match literal_arg(args) {
                Some(lit) => Eval::Val(base64(vstd::utf8::encode_utf8(lit))),
                None => match expr(args, c, d) {
                    Eval::Val(v) => Eval::Val(base64(vstd::utf8::encode_utf8(v))),
                    other => other,
                },
            }
        }
    } else {
        Eval::Bad
    }
}

/// One template expression (the text inside `${{ }}`, without a default).
pub open spec fn expr(e: Seq<char>, c: Ctx, d: Draw) -> Eval
    decreases e.len(),
{
    match call_of(e) {
        Some((name, args)) => {
            proof {
                lemma_call_shorter(e);
            }
            function(name, args, c, d)
        },
        None => match strip_prefix(e, "env."@) {
            Some(n) => opt_val(var_lookup(c.env, n)),
            None => match strip_prefix(e, "var."@) {
                Some(n) => opt_val(var_lookup(c.vars, n)),
                None => request_or_response(e, c),
            },
        },
    }
}

/// The history forms of an expression: `request.<field>`,
/// `request[N].<field>`, `response[N].<field>`, or a bare field of the last
/// response.
pub open spec fn request_or_response(e: Seq<char>, c: Ctx) -> Eval {
    match strip_prefix(e, "request"@) {
        Some(rest) if starts_with(rest, "."@) || starts_with(rest, "["@) => match split_index(rest) {
            None => Eval::Bad,
            Some((idx, f)) => match pick(c.requests, idx) {
                None => Eval::Missing,
                Some(q) => request_expr(f, q),
            },
        },
        _ => match strip_prefix(e, "response"@) {
            Some(rest) if starts_with(rest, "["@) => match split_index(rest) {
                None => Eval::Bad,
                Some((idx, f)) => match pick(c.responses, idx) {
                    None => Eval::Missing,
                    Some(r) => record_expr(f, r),
                },
            },
            _ => if c.responses.len() == 0 {
                Eval::Missing
            } else {
                record_expr(e, c.responses.last())
            },
        },
    }
}

/// Whether `ch` is what `unquoted_find` looks for: whitespace, or `|`.
pub open spec fn is_target(ch: char, ws: bool) -> bool {
    if ws {
        is_ws(ch)
    } else {
        ch == '|'
    }
}

/// First index at or after `i` holding the target character outside single
/// quotes (`q`: whether position `i` lies inside quotes).
pub open spec fn unquoted_find(s: Seq<char>, ws: bool, i: int, q: bool) -> Option<int>
    decreases s.len() - i,
{
    if i < 0 || i >= s.len() {
        None
    } else if s[i] == '\'' {
        unquoted_find(s, ws, i + 1, !q)
    } else if !q && is_target(s[i], ws) {
        Some(i)
    } else {
        unquoted_find(s, ws, i + 1, q)
    }
}

/// First `}}` at or after `i` outside single quotes.
pub open spec fn placeholder_end(s: Seq<char>, i: int, q: bool) -> Option<int>
    decreases s.len() - i,
{
    if i < 0 || i + 1 >= s.len() {
        None
    } else if s[i] == '\'' {
        placeholder_end(s, i + 1, !q)
    } else if !q && s[i] == '}' && s[i + 1] == '}' {
        Some(i)
    } else {
        placeholder_end(s, i + 1, q)
    }
}

/// `expr | default: value` split at the first `|` outside quotes.
pub open spec fn split_default(e: Seq<char>) -> Option<(Seq<char>, Seq<char>)> {
    match unquoted_find(e, false, 0, false) {
        Some(i) => Some((e.take(i), e.skip(i + 1))),
        None => None,
    }
}

/// One placeholder's text, honouring an optional `| default: <value>`: the
/// default replaces missing data only.
pub open spec fn placeholder(e: Seq<char>, c: Ctx, d: Draw) -> Eval {
    match split_default(e) {
        None => expr(e, c, d),
        Some((ep, rest)) => match strip_prefix(trim(rest), "default:"@) {
            None => Eval::Bad,
            Some(dflt) => match expr(trim_end(ep), c, d) {
                Eval::Missing => Eval::Val(trim_start(dflt)),
                other => other,
            },
        },
    }
}

/// A draw that no evaluation reads.
pub open spec fn spare_draw() -> Draw {
    Draw {
        uuid: Seq::new(
            36,
            |i: int|
                if i == 8 || i == 13 || i == 18 || i == 23 {
                    '-'
                } else if i == 14 {
                    '4'
                } else {
                    '0'
                },
        ),
        clock: None,
    }
}

pub open spec fn head_draw(ds: Seq<Draw>) -> Draw {
    if ds.len() > 0 {
        ds[0]
    } else {
        spare_draw()
    }
}

pub open spec fn rest_draws(ds: Seq<Draw>) -> Seq<Draw> {
    if ds.len() > 0 {
        ds.drop_first()
    } else {
        ds
    }
}

pub proof fn lemma_placeholder_end_bounds(s: Seq<char>, i: int, q: bool)
    requires
        0 <= i,
    ensures
        placeholder_end(s, i, q) matches Some(k) ==> i <= k && k + 2 <= s.len() && s[k] == '}' && s[k
            + 1] == '}',
    decreases s.len() - i,
{
    if 0 <= i && i + 1 < s.len() {
        lemma_placeholder_end_bounds(s, i + 1, !q);
        lemma_placeholder_end_bounds(s, i + 1, q);
    }
}

/// `text` with every `${{ ... }}` replaced: the `k`-th placeholder is
/// evaluated against draw `ds[k]`. `$${{` is an escape: it stands for a
/// literal `${{`, and nothing is evaluated there.
pub open spec fn interp(t: Seq<char>, c: Ctx, ds: Seq<Draw>) -> Eval
    decreases t.len(),
{
    match find(t, "${{"@) {
        None => Eval::Val(t),
        Some(s) => {
            proof {
                reveal_strlit("${{");
                lemma_find_from_result(t, "${{"@, 0);
            }
            if s > 0 && t[s - 1] == '$' {
                match interp(t.skip(s + 3), c, ds) {
                    Eval::Val(w) => Eval::Val(t.take(s - 1) + "${{"@ + w),
                    other => other,
                }
            } else {
            let after = t.skip(s + 3);
            match placeholder_end(after, 0, false) {
                None => Eval::Bad,
                Some(en) => {
                    proof {
                        lemma_placeholder_end_bounds(after, 0, false);
                    }
                    match placeholder(trim(after.take(en)), c, head_draw(ds)) {
                        Eval::Val(v) => match interp(after.skip(en + 2), c, rest_draws(ds)) {
                            Eval::Val(w) => Eval::Val(t.take(s) + v + w),
                            other => other,
                        },
                        other => other,
                    }
                },
            }
            }
        },
    }
}

/// `contains` on strings.
pub open spec fn contains(a: Seq<char>, b: Seq<char>) -> bool {
    find(a, b) is Some
}

/// An expect condition split at the first whitespace outside quotes.
pub open spec fn split_condition(t: Seq<char>) -> (Seq<char>, Seq<char>) {
    match unquoted_find(t, true, 0, false) {
        Some(i) => (t.take(i), trim_start(t.skip(i + 1))),
        None => (t, Seq::empty()),
    }
}

/// The index of the first whitespace character.
pub open spec fn first_ws(s: Seq<char>, i: int) -> Option<int>
    decreases s.len() - i,
{
    if i < 0 || i >= s.len() {
        None
    } else if is_ws(s[i]) {
        Some(i)
    } else {
        first_ws(s, i + 1)
    }
}

/// The operator part of a condition: operator and expected value.
pub open spec fn operator_of(rest: Seq<char>) -> (Seq<char>, Seq<char>) {
    match first_ws(rest, 0) {
        Some(i) => (rest.take(i), trim_start(rest.skip(i + 1))),
        None => (rest, Seq::empty()),
    }
}

/// Whether an `expect` condition holds: `<expr>` (resolves at all),
/// `<expr> == <v>`, `<expr> != <v>`, `<expr> contains <v>`.
pub open spec fn condition_holds(condition: Seq<char>, c: Ctx, d: Draw) -> bool {
    let t = trim(condition);
    if t.len() == 0 {
        false
    } else {
        let (e, rest) = split_condition(t);
        match expr(e, c, d) {
            Eval::Val(actual) => if rest.len() == 0 {
                true
            } else {
                let (op, expected) = operator_of(rest);
                if op == "=="@ {
                    actual == expected
                } else if op == "!="@ {
                    actual != expected
                } else if op == "contains"@ {
                    contains(actual, expected)
                } else {
                    false
                }
            },
            _ => false,
        }
    }
}

// ---------------------------------------------------------------------------
// Base64
// ---------------------------------------------------------------------------

/// The base64 alphabet (standard, with `+` and `/`).
pub open spec fn b64_char(n: int) -> char {
    if n < 26 {
        (('A' as int) + n) as char
    } else if n < 52 {
        (('a' as int) + n - 26) as char
    } else if n < 62 {
        (('0' as int) + n - 52) as char
    } else if n == 62 {
        '+'
    } else {
        '/'
    }
}

/// Standard base64 with `=` padding.
pub open spec fn base64(d: Seq<u8>) -> Seq<char>
    decreases d.len(),
{
    if d.len() == 0 {
        Seq::empty()
    } else {
        let a = d[0] as int;
        if d.len() == 1 {
            seq![b64_char(a / 4), b64_char((a % 4) * 16), '=', '=']
        } else {
            let b = d[1] as int;
            if d.len() == 2 {
                seq![b64_char(a / 4), b64_char((a % 4) * 16 + b / 16), b64_char((b % 16) * 4), '=']
            } else {
                let c = d[2] as int;
                seq![
                    b64_char(a / 4),
                    b64_char((a % 4) * 16 + b / 16),
                    b64_char((b % 16) * 4 + c / 64),
                    b64_char(c % 64),
                ] + base64(d.skip(3))
            }
        }
    }
}

fn b64_char_exec(n: u8) -> (c: char)
    requires
        n < 64,
    ensures
        c == b64_char(n as int),
{
    if n < 26 {
        (65 + n) as char
    } else if n < 52 {
        (97 + n - 26) as char
    } else if n < 62 {
        (48 + n - 52) as char
    } else if n == 62 {
        '+'
    } else {
        '/'
    }
}

fn base64_exec(d: &[u8]) -> (r: Vec<char>)
    ensures
        r@ == base64(d@),
{
    let mut out: Vec<char> = Vec::new();
    let mut i: usize = 0;
    assert(d@.skip(0) =~= d@);
    while i < d.len()
        invariant
            i <= d@.len(),
            out@ + base64(d@.skip(i as int)) == base64(d@),
        decreases d@.len() - i,
    {
        let ghost rest = d@.skip(i as int);
        let ghost prev = out@;
        let n = d.len() - i;
        let a = d[i];
        if n == 1 {
            out.push(b64_char_exec(a / 4));
            out.push(b64_char_exec((a % 4) * 16));
            out.push('=');
            out.push('=');
            assert(out@ =~= prev + base64(rest));
            i = i + 1;
            assert(base64(d@.skip(i as int)) =~= Seq::<char>::empty());
        } else if n == 2 {
            let b = d[i + 1];
            out.push(b64_char_exec(a / 4));
            out.push(b64_char_exec((a % 4) * 16 + b / 16));
            out.push(b64_char_exec((b % 16) * 4));
            out.push('=');
            assert(out@ =~= prev + base64(rest));
            i = i + 2;
            assert(base64(d@.skip(i as int)) =~= Seq::<char>::empty());
        } else {
            let b = d[i + 1];
            let c = d[i + 2];
            out.push(b64_char_exec(a / 4));
            out.push(b64_char_exec((a % 4) * 16 + b / 16));
            out.push(b64_char_exec((b % 16) * 4 + c / 64));
            out.push(b64_char_exec(c % 64));
            assert(rest.skip(3) =~= d@.skip(i + 3));
            assert(out@ + base64(d@.skip(i + 3)) =~= prev + base64(rest));
            i = i + 3;
        }
    }
    assert(d@.skip(i as int).len() == 0);
    assert(out@ + base64(d@.skip(i as int)) =~= out@);
    out
}


// ---------------------------------------------------------------------------
// Evaluation
// ---------------------------------------------------------------------------

/// Why an expression could not be evaluated.
#[derive(Debug, Clone, Copy)]
pub enum ErrorKind {
    /// Well-formed, but the data it refers to is absent (an unset variable, a
    /// missing history entry, header or JSON key, a body that is not JSON).
    /// Only this kind is replaced by a `| default:` value.
    Unresolvable,
    /// Malformed: an unknown function, expression or operator, bad index
    /// syntax, an unclosed placeholder.
    Invalid,
}

/// A failed evaluation: its kind and a message for the user.
#[derive(Debug)]
pub struct TemplateError {
    pub kind: ErrorKind,
    pub message: String,
}

impl TemplateError {
    /// The message.
    pub fn to_string(&self) -> (r: String)
        ensures
            r@ == self.message@,
    {
        self.message.clone()
    }
}

pub open spec fn error_eval(e: TemplateError) -> Eval {
    match e.kind {
        ErrorKind::Unresolvable => Eval::Missing,
        ErrorKind::Invalid => Eval::Bad,
    }
}

pub open spec fn eval_of(r: Result<Vec<char>, TemplateError>) -> Eval {
    match r {
        Ok(v) => Eval::Val(v@),
        Err(e) => error_eval(e),
    }
}

/// What a public evaluation returned, as an `Eval`.
pub open spec fn outcome(r: Result<String, TemplateError>) -> Eval {
    match r {
        Ok(v) => Eval::Val(v@),
        Err(e) => error_eval(e),
    }
}

/// The data a template can interpolate against: the request/response history
/// of the current session (bare `body`/`status`/`headers.*` refer to the last
/// response; `request.*`/`request[N].*` reach the captured requests), the
/// session variables (`var.*`) and a snapshot of the process environment
/// (`env.*`).
pub struct Context<'a> {
    pub requests: &'a [Request],
    pub responses: &'a [ResponseRecord],
    pub vars: &'a Vars,
    pub env: &'a Vars,
}

impl<'a> View for Context<'a> {
    type V = Ctx;

    open spec fn view(&self) -> Ctx {
        Ctx {
            requests: self.requests.deep_view(),
            responses: self.responses.deep_view(),
            vars: self.vars@,
            env: self.env@,
        }
    }
}

fn say(a: &str, b: &[char], c: &str) -> (r: String)
    ensures
        r@ == a@ + b@ + c@,
{
    let mut m = string_from(a);
    let mid = string_of(b);
    m.append(mid.as_str());
    m.append(c);
    m
}

fn missing(message: String) -> (e: TemplateError)
    ensures
        error_eval(e) == Eval::Missing,
        e.kind is Unresolvable,
        e.message == message,
{
    TemplateError { kind: ErrorKind::Unresolvable, message }
}

fn invalid(message: String) -> (e: TemplateError)
    ensures
        error_eval(e) == Eval::Bad,
        e.kind is Invalid,
        e.message == message,
{
    TemplateError { kind: ErrorKind::Invalid, message }
}

fn json_field_exec(body: &str, path: &[char], what: &str) -> (r: Result<Vec<char>, TemplateError>)
    ensures
        eval_of(r) == json_field(body@, path@),
{
    if !crate::json::is_json(body) {
        return Err(missing(say(what, &[], " body is not valid JSON")));
    }
    match json_at_exec(body, path) {
        Some(v) => Ok(v),
        None => Err(missing(say("path '", path, "' not found in body"))),
    }
}

fn record_expr_exec(e: &[char], r: &ResponseRecord) -> (out: Result<Vec<char>, TemplateError>)
    ensures
        eval_of(out) == record_expr(e@, r@),
{
    if same(e, chars_of("status").as_slice()) {
        return Ok(decimal_exec(r.status as u128));
    }
    if same(e, chars_of("elapsed").as_slice()) {
        return Ok(decimal_exec(r.elapsed_ms as u128));
    }
    if same(e, chars_of("body").as_slice()) {
        return Ok(chars_of(r.body.as_str()));
    }
    match strip_prefix_exec(e, chars_of("headers.").as_slice()) {
        Some(name) => {
            let n = string_of(name.as_slice());
            match r.headers.get(n.as_str()) {
                Some(v) => Ok(chars_of(v)),
                None => Err(missing(say("header '", name.as_slice(), "' not found in response"))),
            }
        },
        None => match strip_prefix_exec(e, chars_of("body.").as_slice()) {
            Some(path) => json_field_exec(r.body.as_str(), path.as_slice(), "response"),
            None => Err(invalid(say("unknown template expression '${{ ", e, " }}'"))),
        },
    }
}

fn request_expr_exec(e: &[char], q: &Request) -> (out: Result<Vec<char>, TemplateError>)
    ensures
        eval_of(out) == request_expr(e@, q@),
{
    if same(e, chars_of("method").as_slice()) {
        return match &q.method {
            Some(m) => Ok(chars_of(m.as_str())),
            None => Err(missing(string_from("request method not set"))),
        };
    }
    if same(e, chars_of("url").as_slice()) {
        return match &q.url {
            Some(u) => Ok(chars_of(u.as_str())),
            None => Err(missing(string_from("request url not set"))),
        };
    }
    if same(e, chars_of("body").as_slice()) {
        return match &q.body {
            Some(b) => Ok(chars_of(b.as_str())),
            None => Err(missing(string_from("request body not set"))),
        };
    }
    match strip_prefix_exec(e, chars_of("headers.").as_slice()) {
        Some(name) => {
            let n = string_of(name.as_slice());
            match q.headers.get(n.as_str()) {
                Some(v) => Ok(chars_of(v)),
                None => Err(missing(say("header '", name.as_slice(), "' not found in request"))),
            }
        },
        None => match strip_prefix_exec(e, chars_of("body.").as_slice()) {
            Some(path) => match &q.body {
                Some(b) => json_field_exec(b.as_str(), path.as_slice(), "request"),
                None => Err(missing(string_from("request body not set"))),
            },
            None => Err(invalid(say("unknown request expression 'request.", e, "'"))),
        },
    }
}

pub open spec fn index_of(i: Option<usize>) -> Option<nat> {
    match i {
        Some(n) => Some(n as nat),
        None => None,
    }
}

fn split_index_exec(rest: &[char]) -> (r: Option<(Option<usize>, Vec<char>)>)
    ensures
        r matches Some((i, f)) ==> split_index(rest@) == Some((index_of(i), f@)),
        r is None ==> split_index(rest@) is None,
{
    match strip_prefix_exec(rest, chars_of("[").as_slice()) {
        Some(after) => match find_exec(after.as_slice(), chars_of("]").as_slice()) {
            None => None,
            Some(be) => {
                proof {
                    reveal_strlit("]");
                    lemma_find_from_result(after@, "]"@, 0);
                }
                assert(after@.len() == after.len());
                let num = slice_chars(after.as_slice(), 0, be);
                assert(num@ =~= after@.take(be as int));
                match parse_unsigned_exec(num.as_slice(), usize::MAX as u128) {
                    None => None,
                    Some(idx) => {
                        if idx == 0 {
                            None
                        } else {
                            let rest2 = tail(after.as_slice(), be + 1);
                            assert(rest2@ =~= after@.skip(be + 1));
                            match strip_prefix_exec(rest2.as_slice(), chars_of(".").as_slice()) {
                                Some(f) => Some((Some(idx as usize), f)),
                                None => None,
                            }
                        }
                    },
                }
            },
        },
        None => match strip_prefix_exec(rest, chars_of(".").as_slice()) {
            Some(f) => Some((None, f)),
            None => None,
        },
    }
}

fn is_ident_exec(name: &[char]) -> (r: bool)
    ensures
        r == is_ident(name@),
{
    let mut i: usize = 0;
    while i < name.len()
        invariant
            i <= name@.len(),
            forall|j: int| 0 <= j < i ==> is_alnum(#[trigger] name@[j]) || name@[j] == '_',
        decreases name@.len() - i,
    {
        if !(is_alnum_exec(name[i]) || name[i] == '_') {
            return false;
        }
        i += 1;
    }
    true
}

fn call_of_exec(e: &[char]) -> (r: Option<(Vec<char>, Vec<char>)>)
    ensures
        r matches Some((n, a)) ==> call_of(e@) == Some((n@, a@)),
        r is None ==> call_of(e@) is None,
{
    match find_char(e, '(') {
        None => None,
        Some(open) => {
            proof {
                lemma_find_from_result(e@, seq!['('], 0);
            }
            assert(e@.len() == e.len());
            let after = tail(e, open + 1);
            assert(after@ =~= e@.skip(open + 1));
            match strip_suffix_exec(after.as_slice(), chars_of(")").as_slice()) {
                None => None,
                Some(args) => {
                    let head = slice_chars(e, 0, open);
                    assert(head@ =~= e@.take(open as int));
                    let name = trim_end_exec(head.as_slice());
                    if name.len() > 0 && is_ident_exec(name.as_slice()) {
                        Some((name, trim_exec(args.as_slice())))
                    } else {
                        None
                    }
                },
            }
        },
    }
}

fn now_offset_exec(args: &[char]) -> (r: Option<i128>)
    ensures
        r matches Some(v) ==> now_offset(args@) == Some(v as int),
        r is None ==> now_offset(args@) is None,
{
    if args.len() == 0 {
        return Some(0);
    }
    let t = if args[0] == '+' {
        tail(args, 1)
    } else {
        slice_chars(args, 0, args.len())
    };
    assert(args@[0] == '+' ==> t@ =~= args@.drop_first());
    assert(args@[0] != '+' ==> t@ =~= args@);
    parse_signed_exec(t.as_slice(), 0x8000_0000_0000_0000u128, 0x7fff_ffff_ffff_ffffu128)
}

fn literal_arg_exec(args: &[char]) -> (r: Option<Vec<char>>)
    ensures
        r matches Some(l) ==> literal_arg(args@) == Some(l@),
        r is None ==> literal_arg(args@) is None,
{
    match strip_prefix_exec(args, chars_of("'").as_slice()) {
        Some(a) => strip_suffix_exec(a.as_slice(), chars_of("'").as_slice()),
        None => None,
    }
}

fn base64_of_chars(v: &[char]) -> (r: Vec<char>)
    ensures
        r@ == base64(vstd::utf8::encode_utf8(v@)),
{
    let s = string_of(v);
    let bytes = s.as_str().as_bytes();
    base64_exec(bytes)
}

fn spare() -> (d: Ghost<Draw>)
    ensures
        d@ == spare_draw(),
        draw_ok(d@),
{
    Ghost(spare_draw())
}

fn function_exec(name: &[char], args: &[char], ctx: &Context) -> (out: (
    Result<Vec<char>, TemplateError>,
    Ghost<Draw>,
))
    ensures
        draw_ok(out.1@),
        eval_of(out.0) == function(name@, args@, ctx@, out.1@),
    decreases args@.len() + 1,
{
    if same(name, chars_of("uuid").as_slice()) {
        if args.len() > 0 {
            return (Err(invalid(string_from("uuid() takes no arguments"))), spare());
        }
        let u = new_uuid_v4();
        let d = Ghost(Draw { uuid: u@, clock: None });
        return (Ok(chars_of(u.as_str())), d);
    }
    if same(name, chars_of("now").as_slice()) {
        return match now_offset_exec(args) {
            None => (Err(invalid(say("invalid now() offset '", args, "'"))), spare()),
            Some(off) => {
                let t = system_time_now();
                let secs = unix_seconds(&t);
                let d = Ghost(Draw { uuid: spare_draw().uuid, clock: secs });
                match secs {
                    None => (Err(invalid(string_from("system clock before Unix epoch"))), d),
                    Some(s) => (Ok(signed_decimal_exec(s as i128 + off)), d),
                }
            },
        };
    }
    if same(name, chars_of("base64").as_slice()) {
        if args.len() == 0 {
            return (
                Err(invalid(string_from("base64() requires an argument (a 'literal' or an expression)"))),
                spare(),
            );
        }
        return match literal_arg_exec(args) {
            Some(lit) => (Ok(base64_of_chars(lit.as_slice())), spare()),
            None => {
                let (r, d) = expr_exec(args, ctx);
                match r {
                    Ok(v) => (Ok(base64_of_chars(v.as_slice())), d),
                    Err(e) => (Err(e), d),
                }
            },
        };
    }
    (
        Err(invalid(say("unknown template function '", name, "()' (supported: uuid, now, base64)"))),
        spare(),
    )
}

fn pick_request<'a>(records: &'a [Request], idx: Option<usize>) -> (r: Option<&'a Request>)
    ensures
        r matches Some(q) ==> pick(records.deep_view(), index_of(idx)) == Some(q@),
        r is None ==> pick(records.deep_view(), index_of(idx)) is None,
{
    match idx {
        None => if records.len() > 0 {
            Some(&records[records.len() - 1])
        } else {
            None
        },
        Some(n) => if 1 <= n && n <= records.len() {
            Some(&records[n - 1])
        } else {
            None
        },
    }
}

fn pick_response<'a>(records: &'a [ResponseRecord], idx: Option<usize>) -> (r: Option<
    &'a ResponseRecord,
>)
    ensures
        r matches Some(q) ==> pick(records.deep_view(), index_of(idx)) == Some(q@),
        r is None ==> pick(records.deep_view(), index_of(idx)) is None,
{
    match idx {
        None => if records.len() > 0 {
            Some(&records[records.len() - 1])
        } else {
            None
        },
        Some(n) => if 1 <= n && n <= records.len() {
            Some(&records[n - 1])
        } else {
            None
        },
    }
}

fn request_or_response_exec(e: &[char], ctx: &Context) -> (out: Result<Vec<char>, TemplateError>)
    ensures
        eval_of(out) == request_or_response(e@, ctx@),
{
    if let Some(rest) = strip_prefix_exec(e, chars_of("request").as_slice()) {
        if starts_with_exec(rest.as_slice(), chars_of(".").as_slice()) || starts_with_exec(
            rest.as_slice(),
            chars_of("[").as_slice(),
        ) {
            return match split_index_exec(rest.as_slice()) {
                None => Err(invalid(string_from("expected 'request.<field>' or 'request[N].<field>'"))),
                Some((idx, f)) => match pick_request(ctx.requests, idx) {
                    None => Err(missing(string_from("no such request in the history"))),
                    Some(q) => request_expr_exec(f.as_slice(), q),
                },
            };
        }
    }
    if let Some(rest) = strip_prefix_exec(e, chars_of("response").as_slice()) {
        if starts_with_exec(rest.as_slice(), chars_of("[").as_slice()) {
            return match split_index_exec(rest.as_slice()) {
                None => Err(invalid(string_from("expected 'response[N].<field>'"))),
                Some((idx, f)) => match pick_response(ctx.responses, idx) {
                    None => Err(missing(string_from("no such response in the history"))),
                    Some(r) => record_expr_exec(f.as_slice(), r),
                },
            };
        }
    }
    match pick_response(ctx.responses, None) {
        None => Err(missing(string_from("no previous response"))),
        Some(r) => record_expr_exec(e, r),
    }
}

fn expr_exec(e: &[char], ctx: &Context) -> (out: (Result<Vec<char>, TemplateError>, Ghost<Draw>))
    ensures
        draw_ok(out.1@),
        eval_of(out.0) == expr(e@, ctx@, out.1@),
    decreases e@.len(),
{
    match call_of_exec(e) {
        Some((name, args)) => {
            proof {
                lemma_call_shorter(e@);
            }
            function_exec(name.as_slice(), args.as_slice(), ctx)
        },
        None => {
            if let Some(n) = strip_prefix_exec(e, chars_of("env.").as_slice()) {
                let key = string_of(n.as_slice());
                return match ctx.env.get(key.as_str()) {
                    Some(v) => (Ok(chars_of(v)), spare()),
                    None => (
                        Err(missing(say("environment variable '", n.as_slice(), "' not set"))),
                        spare(),
                    ),
                };
            }
            if let Some(n) = strip_prefix_exec(e, chars_of("var.").as_slice()) {
                let key = string_of(n.as_slice());
                return match ctx.vars.get(key.as_str()) {
                    Some(v) => (Ok(chars_of(v)), spare()),
                    None => (
                        Err(missing(say("variable '", n.as_slice(), "' not set (set it with: reel var <NAME> <VALUE>)"))),
                        spare(),
                    ),
                };
            }
            (request_or_response_exec(e, ctx), spare())
        },
    }
}

fn is_target_exec(ch: char, ws: bool) -> (r: bool)
    ensures
        r == is_target(ch, ws),
{
    if ws {
        is_ws_exec(ch)
    } else {
        ch == '|'
    }
}

fn unquoted_find_exec(s: &[char], ws: bool) -> (r: Option<usize>)
    ensures
        r matches Some(i) ==> unquoted_find(s@, ws, 0, false) == Some(i as int) && i < s@.len(),
        r is None ==> unquoted_find(s@, ws, 0, false) is None,
{
    let mut i: usize = 0;
    let mut q = false;
    while i < s.len()
        invariant
            i <= s@.len(),
            unquoted_find(s@, ws, 0, false) == unquoted_find(s@, ws, i as int, q),
        decreases s@.len() - i,
    {
        if s[i] == '\'' {
            q = !q;
        } else if !q && is_target_exec(s[i], ws) {
            return Some(i);
        }
        i += 1;
    }
    None
}

fn placeholder_end_exec(s: &[char]) -> (r: Option<usize>)
    ensures
        r matches Some(i) ==> placeholder_end(s@, 0, false) == Some(i as int),
        r is None ==> placeholder_end(s@, 0, false) is None,
{
    let mut i: usize = 0;
    let mut q = false;
    while i < s.len() && i + 1 < s.len()
        invariant
            i <= s@.len(),
            placeholder_end(s@, 0, false) == placeholder_end(s@, i as int, q),
        decreases s@.len() - i,
    {
        if s[i] == '\'' {
            q = !q;
        } else if !q && s[i] == '}' && s[i + 1] == '}' {
            return Some(i);
        }
        i += 1;
    }
    None
}

fn placeholder_exec(e: &[char], ctx: &Context) -> (out: (Result<Vec<char>, TemplateError>, Ghost<Draw>))
    ensures
        draw_ok(out.1@),
        eval_of(out.0) == placeholder(e@, ctx@, out.1@),
{
    match unquoted_find_exec(e, false) {
        None => expr_exec(e, ctx),
        Some(i) => {
            assert(e@.len() == e.len());
            let ep = slice_chars(e, 0, i);
            let rest = tail(e, i + 1);
            assert(ep@ =~= e@.take(i as int));
            assert(rest@ =~= e@.skip(i + 1));
            let tr = trim_exec(rest.as_slice());
            match strip_prefix_exec(tr.as_slice(), chars_of("default:").as_slice()) {
                None => (
                    Err(invalid(say("expected '| default: <value>' after '|' in '${{ ", e, " }}'"))),
                    spare(),
                ),
                Some(dflt) => {
                    let (r, d) = expr_exec(trim_end_exec(ep.as_slice()).as_slice(), ctx);
                    match r {
                        Ok(v) => (Ok(v), d),
                        Err(err) => match err.kind {
                            ErrorKind::Unresolvable => (Ok(trim_start_exec(dflt.as_slice())), d),
                            ErrorKind::Invalid => (Err(err), d),
                        },
                    }
                },
            }
        },
    }
}

fn interp_exec(t: &[char], ctx: &Context) -> (out: (Result<Vec<char>, TemplateError>, Ghost<Seq<Draw>>))
    ensures
        draws_ok(out.1@),
        eval_of(out.0) == interp(t@, ctx@, out.1@),
    decreases t@.len(),
{
    match find_exec(t, chars_of("${{").as_slice()) {
        None => {
            let all = slice_chars(t, 0, t.len());
            assert(all@ =~= t@);
            (Ok(all), Ghost(Seq::empty()))
        },
        Some(s) => {
            proof {
                reveal_strlit("${{");
                lemma_find_from_result(t@, "${{"@, 0);
            }
            assert(t@.len() == t.len());
            if s > 0 && t[s - 1] == '$' {
                let rest = tail(t, s + 3);
                assert(rest@ =~= t@.skip(s + 3));
                let (r2, ds2) = interp_exec(rest.as_slice(), ctx);
                return match r2 {
                    Ok(w) => {
                        let mut out = slice_chars(t, 0, s - 1);
                        extend(&mut out, chars_of("${{").as_slice());
                        extend(&mut out, w.as_slice());
                        assert(out@ =~= t@.take(s - 1) + "${{"@ + w@);
                        (Ok(out), ds2)
                    },
                    Err(err) => (Err(err), ds2),
                };
            }
            let after = tail(t, s + 3);
            assert(after@ =~= t@.skip(s + 3));
            match placeholder_end_exec(after.as_slice()) {
                None => (Err(invalid(string_from("unclosed '${{' in template"))), Ghost(Seq::empty())),
                Some(en) => {
                    proof {
                        lemma_placeholder_end_bounds(after@, 0, false);
                    }
                    let inner_raw = slice_chars(after.as_slice(), 0, en);
                    assert(inner_raw@ =~= after@.take(en as int));
                    let inner = trim_exec(inner_raw.as_slice());
                    let (r, d) = placeholder_exec(inner.as_slice(), ctx);
                    match r {
                        Err(err) => {
                            let ghost ds = seq![d@];
                            assert(head_draw(ds) == d@);
                            (Err(err), Ghost(ds))
                        },
                        Ok(v) => {
                            let rest = tail(after.as_slice(), en + 2);
                            assert(rest@ =~= after@.skip(en + 2));
                            let (r2, ds2) = interp_exec(rest.as_slice(), ctx);
                            let ghost ds = seq![d@] + ds2@;
                            assert(head_draw(ds) == d@);
                            assert(rest_draws(ds) =~= ds2@);
                            assert forall|k: int| 0 <= k < ds.len() implies draw_ok(#[trigger] ds[k]) by {
                                if k > 0 {
                                    assert(ds[k] == ds2@[k - 1]);
                                }
                            }
                            match r2 {
                                Ok(w) => {
                                    let mut out = slice_chars(t, 0, s);
                                    extend(&mut out, v.as_slice());
                                    extend(&mut out, w.as_slice());
                                    assert(out@ =~= t@.take(s as int) + v@ + w@);
                                    (Ok(out), Ghost(ds))
                                },
                                Err(err) => (Err(err), Ghost(ds)),
                            }
                        },
                    }
                },
            }
        },
    }
}

/// Replaces every `${{ expr }}` placeholder in `text` using values from
/// `ctx`. Each placeholder is evaluated on its own draw of the clock and the
/// random number source.
pub fn interpolate(text: &str, ctx: &Context) -> (r: Result<String, TemplateError>)
    ensures
        exists|ds: Seq<Draw>| draws_ok(ds) && #[trigger] interp(text@, ctx@, ds) == outcome(r),
{
    let t = chars_of(text);
    let (r, ds) = interp_exec(t.as_slice(), ctx);
    let out = match r {
        Ok(v) => Ok(string_of(v.as_slice())),
        Err(e) => Err(e),
    };
    assert(interp(text@, ctx@, ds@) == outcome(out));
    out
}

fn operator_exec(rest: &[char]) -> (r: (Vec<char>, Vec<char>))
    ensures
        operator_of(rest@) == (r.0@, r.1@),
{
    let mut i: usize = 0;
    while i < rest.len()
        invariant
            i <= rest@.len(),
            first_ws(rest@, 0) == first_ws(rest@, i as int),
        decreases rest@.len() - i,
    {
        if is_ws_exec(rest[i]) {
            let op = slice_chars(rest, 0, i);
            let value = tail(rest, i + 1);
            assert(op@ =~= rest@.take(i as int));
            assert(value@ =~= rest@.skip(i + 1));
            return (op, trim_start_exec(value.as_slice()));
        }
        i += 1;
    }
    let all = slice_chars(rest, 0, rest.len());
    assert(all@ =~= rest@);
    (all, Vec::new())
}

/// The error `expect` reports when its condition fails, where the library
/// fixes the text: an empty condition, an unknown operator, and a failed
/// comparison (with the actual value). None when the condition holds, and
/// when its expression cannot be evaluated (the error then carries the
/// evaluation's message).
pub open spec fn condition_failure(condition: Seq<char>, c: Ctx, d: Draw) -> Option<Seq<char>> {
    let t = trim(condition);
    if t.len() == 0 {
        Some("empty expect condition"@)
    } else {
        let (e, rest) = split_condition(t);
        match expr(e, c, d) {
            Eval::Val(actual) => if rest.len() == 0 {
                None
            } else {
                let (op, expected) = operator_of(rest);
                if op == "=="@ || op == "!="@ || op == "contains"@ {
                    if condition_holds(condition, c, d) {
                        None
                    } else {
                        Some("expect failed: "@ + t + " (actual: "@ + actual + ")"@)
                    }
                } else {
                    Some("unknown expect operator '"@ + op + "' (supported: ==, !=, contains)"@)
                }
            },
            _ => None,
        }
    }
}

proof fn lemma_unquoted_ws_at(t: Seq<char>, n: int, i: int)
    requires
        0 <= i <= n < t.len(),
        is_ws(t[n]),
        forall|j: int| i <= j < n ==> t[j] != '\'' && !is_ws(#[trigger] t[j]),
    ensures
        unquoted_find(t, true, i, false) == Some(n),
    decreases n - i,
{
    if i < n {
        lemma_unquoted_ws_at(t, n, i + 1);
    }
}

proof fn lemma_first_ws_at(s: Seq<char>, n: int, i: int)
    requires
        0 <= i <= n < s.len(),
        is_ws(s[n]),
        forall|j: int| i <= j < n ==> !is_ws(#[trigger] s[j]),
    ensures
        first_ws(s, i) == Some(n),
    decreases n - i,
{
    if i < n {
        lemma_first_ws_at(s, n, i + 1);
    }
}

/// How `<e> <op> <v>` is taken apart: the whole text is kept by trimming,
/// the expression is `e`, then the operator `op` and the expected value `v`.
proof fn lemma_condition_parts(e: Seq<char>, op: Seq<char>, v: Seq<char>)
    requires
        e.len() > 0,
        forall|i: int| 0 <= i < e.len() ==> e[i] != '\'' && !is_ws(#[trigger] e[i]),
        op.len() > 0,
        forall|i: int| 0 <= i < op.len() ==> !is_ws(#[trigger] op[i]),
        v.len() > 0,
        !is_ws(v[0]),
        !is_ws(v.last()),
    ensures
        trim(e + " "@ + op + " "@ + v) == e + " "@ + op + " "@ + v,
        split_condition(e + " "@ + op + " "@ + v) == (e, op + " "@ + v),
        operator_of(op + " "@ + v) == (op, v),
        (op + " "@ + v).len() > 0,
        (e + " "@ + op + " "@ + v).len() > 0,
{
    reveal_strlit(" ");
    let t = e + " "@ + op + " "@ + v;
    let n = e.len() as int;
    assert(t[0] == e[0]);
    assert(t[t.len() - 1] == v.last());
    assert(skip_ws(t, 0) == 0);
    assert(trim_start(t) =~= t);
    assert(back_ws(t, t.len() as int) == t.len());
    assert(trim(t) =~= t);
    assert(t[n] == ' ');
    assert forall|j: int| 0 <= j < n implies t[j] != '\'' && !is_ws(#[trigger] t[j]) by {
        assert(t[j] == e[j]);
    }
    lemma_unquoted_ws_at(t, n, 0);
    let after = t.skip(n + 1);
    assert(after =~= op + " "@ + v);
    assert(after[0] == op[0]);
    assert(skip_ws(after, 0) == 0);
    assert(trim_start(after) =~= after);
    assert(t.take(n) =~= e);
    let k = op.len() as int;
    assert(after[k] == ' ');
    assert forall|j: int| 0 <= j < k implies !is_ws(#[trigger] after[j]) by {
        assert(after[j] == op[j]);
    }
    lemma_first_ws_at(after, k, 0);
    assert(after.take(k) =~= op);
    assert(after.skip(k + 1) =~= v);
    assert(skip_ws(v, 0) == 0);
    assert(trim_start(v) =~= v);
}

proof fn lemma_no_unquoted_ws(t: Seq<char>, i: int)
    requires
        0 <= i <= t.len(),
        forall|j: int| 0 <= j < t.len() ==> t[j] != '\'' && !is_ws(#[trigger] t[j]),
    ensures
        unquoted_find(t, true, i, false) is None,
    decreases t.len() - i,
{
    if i < t.len() {
        lemma_no_unquoted_ws(t, i + 1);
    }
}

/// A condition that is a bare expression (one word, no operator) holds
/// exactly when the expression evaluates.
pub proof fn law_bare_condition(e: Seq<char>, c: Ctx, d: Draw)
    requires
        e.len() > 0,
        forall|i: int| 0 <= i < e.len() ==> e[i] != '\'' && !is_ws(#[trigger] e[i]),
    ensures
        condition_holds(e, c, d) <==> expr(e, c, d) is Val,
{
    assert(!is_ws(e[0]));
    assert(!is_ws(e[e.len() - 1]));
    assert(skip_ws(e, 0) == 0);
    assert(trim_start(e) =~= e);
    assert(back_ws(e, e.len() as int) == e.len());
    assert(trim(e) =~= e);
    lemma_no_unquoted_ws(e, 0);
}

/// `expect <expr> <op> <value>` compares the expression's value with the
/// value character for character: `==` holds exactly when they are equal
/// (no case folding), `!=` exactly when the expression evaluates and differs,
/// `contains` exactly when the value occurs in it. The expression is one word
/// (no whitespace, no quotes) and the value has no whitespace at its ends,
/// as on a command line.
pub proof fn law_expect_comparisons(e: Seq<char>, v: Seq<char>, c: Ctx, d: Draw)
    requires
        e.len() > 0,
        forall|i: int| 0 <= i < e.len() ==> e[i] != '\'' && !is_ws(#[trigger] e[i]),
        v.len() > 0,
        !is_ws(v[0]),
        !is_ws(v.last()),
    ensures
        condition_holds(e + " "@ + "=="@ + " "@ + v, c, d) <==> expr(e, c, d) == Eval::Val(v),
        condition_holds(e + " "@ + "!="@ + " "@ + v, c, d) <==> (expr(e, c, d) is Val && expr(e, c, d)
            != Eval::Val(v)),
        condition_holds(e + " "@ + "contains"@ + " "@ + v, c, d) <==> (expr(e, c, d) matches Eval::Val(a)
            && exists|i: int| 0 <= i <= a.len() - v.len() && #[trigger] a.subrange(i, i + v.len()) == v),
{
    reveal_strlit("==");
    reveal_strlit("!=");
    reveal_strlit("contains");
    assert forall|op: Seq<char>| op == "=="@ || op == "!="@ || op == "contains"@ implies op.len() > 0 && forall|i: int|
        0 <= i < op.len() ==> !is_ws(#[trigger] op[i]) by {}
    lemma_condition_parts(e, "=="@, v);
    lemma_condition_parts(e, "!="@, v);
    lemma_condition_parts(e, "contains"@, v);
    if let Eval::Val(a) = expr(e, c, d) {
        lemma_find_from_result(a, v, 0);
        if let Some(k) = find(a, v) {
            assert(a.subrange(k, k + v.len()) == v);
        } else {
            assert forall|i: int| 0 <= i <= a.len() - v.len() implies #[trigger] a.subrange(i, i + v.len()) != v by {
                assert(!crate::text::matches_at(a, v, i));
            }
        }
    }
}

/// A comparison that fails reports the whole condition and the actual value,
/// `expect failed: <condition> (actual: <value>)`, and one that holds
/// reports nothing; an operator other than `==`, `!=` and `contains` never
/// holds and is refused by name.
pub proof fn law_expect_failure_message(e: Seq<char>, op: Seq<char>, v: Seq<char>, c: Ctx, d: Draw)
    requires
        e.len() > 0,
        forall|i: int| 0 <= i < e.len() ==> e[i] != '\'' && !is_ws(#[trigger] e[i]),
        op.len() > 0,
        forall|i: int| 0 <= i < op.len() ==> !is_ws(#[trigger] op[i]),
        v.len() > 0,
        !is_ws(v[0]),
        !is_ws(v.last()),
    ensures
        expr(e, c, d) matches Eval::Val(a) ==> ((op == "=="@ || op == "!="@ || op == "contains"@)
            ==> condition_failure(e + " "@ + op + " "@ + v, c, d) == (if condition_holds(
            e + " "@ + op + " "@ + v,
            c,
            d,
        ) {
            None
        } else {
            Some("expect failed: "@ + (e + " "@ + op + " "@ + v) + " (actual: "@ + a + ")"@)
        })),
        expr(e, c, d) is Val && !(op == "=="@ || op == "!="@ || op == "contains"@) ==> condition_failure(
            e + " "@ + op + " "@ + v,
            c,
            d,
        ) == Some("unknown expect operator '"@ + op + "' (supported: ==, !=, contains)"@) && !condition_holds(
            e + " "@ + op + " "@ + v,
            c,
            d,
        ),
{
    lemma_condition_parts(e, op, v);
}

/// Checks an `expect` condition against the history:
///
///   <expr>                  passes when the expression resolves at all
///   <expr> == <value>       string equality (status codes compare as strings)
///   <expr> != <value>       string inequality
///   <expr> contains <value> substring match
///
/// `<expr>` is any template expression (no `${{ }}` wrapper); the first
/// whitespace outside single quotes separates it from the operator.
pub fn check_condition(condition: &str, ctx: &Context) -> (r: Result<(), TemplateError>)
    ensures
        exists|d: Draw|
            draw_ok(d) && (r is Ok <==> #[trigger] condition_holds(condition@, ctx@, d)) && (condition_failure(
                condition@,
                ctx@,
                d,
            ) matches Some(m) ==> r matches Err(e) && e.message@ == m),
{
    let c = chars_of(condition);
    let t = trim_exec(c.as_slice());
    if t.len() == 0 {
        assert(!condition_holds(condition@, ctx@, spare_draw()));
        assert(condition_failure(condition@, ctx@, spare_draw()) == Some("empty expect condition"@));
        return Err(invalid(string_from("empty expect condition")));
    }
    let (e, rest) = match unquoted_find_exec(t.as_slice(), true) {
        Some(i) => {
            let a = slice_chars(t.as_slice(), 0, i);
            let b = tail(t.as_slice(), i + 1);
            assert(a@ =~= t@.take(i as int));
            assert(b@ =~= t@.skip(i + 1));
            (a, trim_start_exec(b.as_slice()))
        },
        None => (slice_chars(t.as_slice(), 0, t.len()), Vec::new()),
    };
    assert(split_condition(t@) == (e@, rest@));
    let (r, d) = expr_exec(e.as_slice(), ctx);
    let out = match r {
        Err(err) => {
            let mut m = say("expect '", e.as_slice(), "': ");
            m.append(err.message.as_str());
            Err(invalid(m))
        },
        Ok(actual) => {
            if rest.len() == 0 {
                Ok(())
            } else {
                let (op, expected) = operator_exec(rest.as_slice());
                let passed = if same(op.as_slice(), chars_of("==").as_slice()) {
                    Some(same(actual.as_slice(), expected.as_slice()))
                } else if same(op.as_slice(), chars_of("!=").as_slice()) {
                    Some(!same(actual.as_slice(), expected.as_slice()))
                } else if same(op.as_slice(), chars_of("contains").as_slice()) {
                    Some(find_exec(actual.as_slice(), expected.as_slice()).is_some())
                } else {
                    None
                };
                match passed {
                    None => Err(
                        invalid(
                            say(
                                "unknown expect operator '",
                                op.as_slice(),
                                "' (supported: ==, !=, contains)",
                            ),
                        ),
                    ),
                    Some(true) => Ok(()),
                    Some(false) => {
                        let mut m = say("expect failed: ", t.as_slice(), " (actual: ");
                        m.append(string_of(actual.as_slice()).as_str());
                        m.append(")");
                        Err(invalid(m))
                    },
                }
            }
        },
    };
    assert(out is Ok <==> condition_holds(condition@, ctx@, d@));
    assert(condition_failure(condition@, ctx@, d@) matches Some(m) ==> out matches Err(e) && e.message@ == m);
    out
}

/// Some draws turn `t` into `v`.
pub open spec fn interpolates_to(t: Seq<char>, c: Ctx, v: Seq<char>) -> bool {
    exists|ds: Seq<Draw>| draws_ok(ds) && #[trigger] interp(t, c, ds) == Eval::Val(v)
}

/// Some draws make the interpolation of `t` fail.
pub open spec fn interpolation_fails(t: Seq<char>, c: Ctx) -> bool {
    exists|ds: Seq<Draw>| draws_ok(ds) && !(#[trigger] interp(t, c, ds) is Val)
}

pub open spec fn field_interpolates(old: Option<Seq<char>>, c: Ctx, new: Option<Seq<char>>) -> bool {
    match (old, new) {
        (None, None) => true,
        (Some(a), Some(b)) => interpolates_to(a, c, b),
        _ => false,
    }
}

pub open spec fn field_fails(old: Option<Seq<char>>, c: Ctx) -> bool {
    match old {
        Some(a) => interpolation_fails(a, c),
        None => false,
    }
}

/// Interpolating the request `old` against `c` gives `new`: url, body and
/// header values are interpolated, the rest is kept.
pub open spec fn request_interpolated(old: RequestV, c: Ctx, new: RequestV) -> bool {
    &&& new.method == old.method
    &&& new.timeout_secs == old.timeout_secs
    &&& field_interpolates(old.url, c, new.url)
    &&& field_interpolates(old.body, c, new.body)
    &&& new.headers.len() == old.headers.len()
    &&& forall|i: int|
        0 <= i < old.headers.len() ==> (#[trigger] new.headers[i]).0 == old.headers[i].0 && interpolates_to(
            old.headers[i].1,
            c,
            new.headers[i].1,
        )
}

/// The header values before index `i` are interpolated, the others kept.
pub open spec fn headers_interpolated_upto(old: Pairs, c: Ctx, new: Pairs, i: int) -> bool {
    &&& new.len() == old.len()
    &&& forall|j: int|
        0 <= j < old.len() ==> (#[trigger] new[j]).0 == old[j].0 && (if j < i {
            interpolates_to(old[j].1, c, new[j].1)
        } else {
            new[j].1 == old[j].1
        })
}

/// Interpolating the request `old` against `c` failed and left `new`: the
/// fields are interpolated in order (url, body, header values), and the
/// first that fails stops it. A failed url or body is emptied; a failed
/// header keeps its value, with the earlier ones interpolated.
pub open spec fn request_interpolation_failed(old: RequestV, c: Ctx, new: RequestV) -> bool {
    &&& new.method == old.method
    &&& new.timeout_secs == old.timeout_secs
    &&& {
        ||| {
            &&& field_fails(old.url, c)
            &&& new.url is None
            &&& new.body == old.body
            &&& new.headers == old.headers
        }
        ||| {
            &&& field_interpolates(old.url, c, new.url)
            &&& field_fails(old.body, c)
            &&& new.body is None
            &&& new.headers == old.headers
        }
        ||| {
            &&& field_interpolates(old.url, c, new.url)
            &&& field_interpolates(old.body, c, new.body)
            &&& exists|i: int|
                0 <= i < old.headers.len() && interpolation_fails(#[trigger] old.headers[i].1, c)
                    && headers_interpolated_upto(old.headers, c, new.headers, i)
        }
    }
}

/// Interpolates every string field of the request: url, body and header
/// values, in that order. The first field that fails stops it: a failed url
/// or body is left empty, a failed header keeps its value.
pub fn apply_interpolation(request: &mut Request, ctx: &Context) -> (r: Result<(), TemplateError>)
    ensures
        r is Ok ==> request_interpolated(old(request)@, ctx@, final(request)@),
        r is Err ==> request_interpolation_failed(old(request)@, ctx@, final(request)@),
{
    let ghost q0 = request@;
    match request.url.take() {
        Some(u) => match interpolate(u.as_str(), ctx) {
            Ok(v) => request.url = Some(v),
            Err(e) => {
                assert(request@ == (RequestV { url: None, ..q0 }));
                assert(interpolation_fails(u@, ctx@));
                return Err(e);
            },
        },
        None => {},
    }
    let ghost q1 = request@;
    assert(field_interpolates(q0.url, ctx@, q1.url));
    match request.body.take() {
        Some(b) => match interpolate(b.as_str(), ctx) {
            Ok(v) => request.body = Some(v),
            Err(e) => {
                assert(request@ == (RequestV { body: None, ..q1 }));
                assert(interpolation_fails(b@, ctx@));
                return Err(e);
            },
        },
        None => {},
    }
    let ghost q2 = request@;
    assert(field_interpolates(q0.body, ctx@, q2.body));
    assert(q2.headers == q0.headers);
    let n = request.headers.len();
    let mut pairs: Vec<(String, String)> = Vec::new();
    let mut i: usize = 0;
    while i < n
        invariant
            n == request.headers@.len(),
            request@ == q2,
            q0 == old(request)@,
            q2.headers == q0.headers,
            q2.method == q0.method,
            q2.timeout_secs == q0.timeout_secs,
            field_interpolates(q0.url, ctx@, q2.url),
            field_interpolates(q0.body, ctx@, q2.body),
            i <= n,
            pairs@.len() == i,
            forall|j: int|
                0 <= j < i ==> (#[trigger] pairs.deep_view()[j]).0 == request.headers@[j].0
                    && interpolates_to(request.headers@[j].1, ctx@, pairs.deep_view()[j].1),
        decreases n - i,
    {
        let (name, value) = request.headers.entry(i);
        match interpolate(value.as_str(), ctx) {
            Ok(v) => {
                let ghost prev = pairs.deep_view();
                pairs.push((name.clone(), v));
                assert(pairs.deep_view() =~= prev.push((name@, v@)));
            },
            Err(e) => {
                assert(interpolation_fails(q0.headers[i as int].1, ctx@));
                let ghost k = i as int;
                let mut j: usize = i;
                while j < n
                    invariant
                        n == request.headers@.len(),
                        request@ == q2,
                        q0 == old(request)@,
                        q2.headers == q0.headers,
                        q2.method == q0.method,
                        q2.timeout_secs == q0.timeout_secs,
                        field_interpolates(q0.url, ctx@, q2.url),
                        field_interpolates(q0.body, ctx@, q2.body),
                        k <= j <= n,
                        pairs@.len() == j,
                        headers_interpolated_upto(q0.headers.take(j as int), ctx@, pairs.deep_view(), k),
                    decreases n - j,
                {
                    let (name, value) = request.headers.entry(j);
                    let ghost prev = pairs.deep_view();
                    pairs.push((name.clone(), value.clone()));
                    assert(pairs.deep_view() =~= prev.push((name@, value@)));
                    assert(q0.headers.take(j + 1) =~= q0.headers.take(j as int).push(q0.headers[j as int]));
                    j += 1;
                }
                assert(q0.headers.take(n as int) =~= q0.headers);
                request.headers = Headers::from_pairs(pairs);
                assert(headers_interpolated_upto(q0.headers, ctx@, request@.headers, k));
                assert(field_interpolates(q0.url, ctx@, request@.url));
                assert(field_interpolates(q0.body, ctx@, request@.body));
                assert(0 <= k < q0.headers.len() && interpolation_fails(q0.headers[k].1, ctx@)
                    && headers_interpolated_upto(q0.headers, ctx@, request@.headers, k));
                assert(request@.method == q0.method && request@.timeout_secs == q0.timeout_secs);
                assert(request_interpolation_failed(q0, ctx@, request@));
                return Err(e);
            },
        }
        i += 1;
    }
    request.headers = Headers::from_pairs(pairs);
    Ok(())
}

// ---------------------------------------------------------------------------
// Laws
// ---------------------------------------------------------------------------

/// Text without a `${{` is returned unchanged, whatever the history.
pub proof fn law_plain_text_unchanged(t: Seq<char>, c: Ctx, ds: Seq<Draw>)
    requires
        find(t, "${{"@) is None,
    ensures
        interp(t, c, ds) == Eval::Val(t),
{
}

/// `$${{` is an escape: between plain texts it comes out as a literal `${{`
/// and nothing is evaluated, whatever the history.
pub proof fn law_escaped_placeholder_is_literal(a: Seq<char>, b: Seq<char>, c: Ctx, ds: Seq<Draw>)
    requires
        find(a, "${{"@) is None,
        find(b, "${{"@) is None,
        a.len() == 0 || a.last() != '$',
    ensures
        interp(a + "$${{"@ + b, c, ds) == Eval::Val(a + "${{"@ + b),
{
    reveal_strlit("${{");
    reveal_strlit("$${{");
    let p = "${{"@;
    let t = a + "$${{"@ + b;
    let n = a.len() as int;
    let k = n + 1;
    lemma_find_from_result(a, p, 0);
    assert(t.subrange(k, k + 3) =~= p);
    assert(crate::text::matches_at(t, p, k));
    assert forall|j: int| 0 <= j < k implies !crate::text::matches_at(t, p, j) by {
        if j + 3 <= n {
            assert(t.subrange(j, j + 3) =~= a.subrange(j, j + 3));
            assert(!crate::text::matches_at(a, p, j));
        } else if j == n - 2 {
            assert(t.subrange(j, j + 3)[2] == t[n]);
            assert(p[2] == '{');
        } else if j == n - 1 {
            assert(t.subrange(j, j + 3)[0] == a.last());
            assert(p[0] == '$');
        } else {
            assert(j == n);
            assert(t.subrange(j, j + 3)[1] == t[n + 1]);
            assert(p[1] == '{');
        }
    }
    lemma_find_from_result(t, p, 0);
    assert(find(t, p) == Some(k));
    assert(t[k - 1] == '$');
    assert(t.skip(k + 3) =~= b);
    assert(t.take(k - 1) =~= a);
    law_plain_text_unchanged(b, c, ds);
    assert(interp(t.skip(k + 3), c, ds) == Eval::Val(b));
}

/// An expression that starts with `p`, where `p` holds no `(` and, at `j`,
/// a character that cannot be part of a function name, is no function call.
proof fn lemma_no_call(e: Seq<char>, p: Seq<char>, j: int)
    requires
        starts_with(e, p),
        0 <= j < p.len(),
        !is_ws(p[j]),
        !is_alnum(p[j]),
        p[j] != '_',
        forall|i: int| 0 <= i < p.len() ==> p[i] != '(',
    ensures
        call_of(e) is None,
{
    lemma_find_from_result(e, seq!['('], 0);
    if let Some(open) = find(e, seq!['(']) {
        assert(e.subrange(open, open + 1)[0] == e[open]);
        if open < p.len() {
            assert(e.subrange(0, p.len() as int)[open] == e[open]);
        }
        let t = e.take(open);
        assert(t[j] == p[j]) by {
            assert(e.subrange(0, p.len() as int)[j] == e[j]);
        }
        lemma_back_ws_keeps(t, open, j);
        lemma_back_ws_bounds(t, open);
        let name = trim_end(t);
        assert(name[j] == t[j]);
        assert(!is_ident(name)) by {
            assert(!(is_alnum(name[j]) || name[j] == '_'));
        }
    }
}

/// The indexed form `[N].field` splits into the index and the field.
proof fn lemma_split_indexed(n: nat, f: Seq<char>)
    requires
        1 <= n <= usize::MAX,
    ensures
        split_index("["@ + decimal(n) + "]."@ + f) == Some((Some(n), f)),
{
    reveal_strlit("[");
    reveal_strlit("]");
    reveal_strlit(".");
    reveal_strlit("].");
    let dec = decimal(n);
    lemma_decimal_digits(n);
    lemma_decimal_parse(n, usize::MAX as nat);
    let rest = "["@ + dec + "]."@ + f;
    let after = dec + "]."@ + f;
    assert(rest.subrange(0, 1) =~= "["@);
    assert(rest.subrange(1, rest.len() as int) =~= after);
    assert(after[dec.len() as int] == ']');
    assert forall|j: int| 0 <= j < dec.len() implies after[j] != ']' by {
        assert(after[j] == dec[j]);
        assert(is_digit(dec[j]));
    }
    lemma_find_single(after, ']', dec.len() as int);
    assert("]"@ =~= seq![']']);
    assert(after.take(dec.len() as int) =~= dec);
    let tail = after.skip(dec.len() as int + 1);
    assert(tail =~= "."@ + f);
    assert(tail.subrange(0, 1) =~= "."@);
    assert(tail.subrange(1, tail.len() as int) =~= f);
}

/// The bare form `.field` splits into no index and the field.
proof fn lemma_split_bare(f: Seq<char>)
    ensures
        split_index("."@ + f) == Some((None::<nat>, f)),
{
    reveal_strlit("[");
    reveal_strlit(".");
    let rest = "."@ + f;
    assert(rest.subrange(0, 1) =~= "."@);
    assert(rest.subrange(0, 1) != "["@) by {
        assert(rest.subrange(0, 1)[0] == '.');
    }
    assert(rest.subrange(1, rest.len() as int) =~= f);
}

/// `request.<field>` is the field of the last request, the same as
/// `request[N].<field>` with N the number of recorded requests.
pub proof fn law_bare_request_is_last(f: Seq<char>, c: Ctx, d: Draw)
    requires
        1 <= c.requests.len() <= usize::MAX,
    ensures
        expr("request."@ + f, c, d) == request_expr(f, c.requests.last()),
        expr("request["@ + decimal(c.requests.len()) + "]."@ + f, c, d) == request_expr(
            f,
            c.requests.last(),
        ),
{
    reveal_strlit("request.");
    reveal_strlit("request[");
    reveal_strlit("request");
    reveal_strlit("env.");
    reveal_strlit("var.");
    reveal_strlit("].");
    reveal_strlit("[");
    reveal_strlit(".");
    let n = c.requests.len();
    let e1 = "request."@ + f;
    let e2 = "request["@ + decimal(n) + "]."@ + f;
    let p1 = "request."@;
    let p2 = "request["@;
    assert(e1.subrange(0, 8) =~= p1);
    assert(e2.subrange(0, 8) =~= p2);
    lemma_no_call(e1, p1, 7);
    lemma_no_call(e2, p2, 7);
    assert(e1.subrange(0, 4)[0] == 'r');
    assert(e2.subrange(0, 4)[0] == 'r');
    assert(e1.subrange(0, 7) =~= "request"@);
    assert(e2.subrange(0, 7) =~= "request"@);
    let r1 = e1.subrange(7, e1.len() as int);
    let r2 = e2.subrange(7, e2.len() as int);
    assert(r1 =~= "."@ + f);
    assert(r2 =~= "["@ + decimal(n) + "]."@ + f);
    assert(r1.subrange(0, 1) =~= "."@);
    assert(r2.subrange(0, 1) =~= "["@);
    lemma_split_bare(f);
    lemma_split_indexed(n, f);
}

/// A bare field (`status`, `body...`, `headers...`, `elapsed`) is the field
/// of the last response, the same as `response[N].<field>` with N the number
/// of recorded responses.
pub proof fn law_bare_field_is_last_response(f: Seq<char>, c: Ctx, d: Draw)
    requires
        1 <= c.responses.len() <= usize::MAX,
        call_of(f) is None,
        strip_prefix(f, "env."@) is None,
        strip_prefix(f, "var."@) is None,
        !(strip_prefix(f, "request"@) matches Some(rest) && (starts_with(rest, "."@) || starts_with(
            rest,
            "["@,
        ))),
        !(strip_prefix(f, "response"@) matches Some(rest) && starts_with(rest, "["@)),
    ensures
        expr(f, c, d) == record_expr(f, c.responses.last()),
        expr("response["@ + decimal(c.responses.len()) + "]."@ + f, c, d) == record_expr(
            f,
            c.responses.last(),
        ),
{
    reveal_strlit("response[");
    reveal_strlit("response");
    reveal_strlit("request");
    reveal_strlit("env.");
    reveal_strlit("var.");
    reveal_strlit("].");
    reveal_strlit("[");
    let n = c.responses.len();
    let e2 = "response["@ + decimal(n) + "]."@ + f;
    let p2 = "response["@;
    assert(e2.subrange(0, 9) =~= p2);
    lemma_no_call(e2, p2, 8);
    assert(e2.subrange(0, 4)[0] == 'r');
    assert(e2.subrange(0, 4)[1] == 'e');
    assert(e2.subrange(0, 4)[2] == 's');
    assert(e2.subrange(0, 7)[2] == 's');
    assert(e2.subrange(0, 8) =~= "response"@);
    let r2 = e2.subrange(8, e2.len() as int);
    assert(r2 =~= "["@ + decimal(n) + "]."@ + f);
    assert(r2.subrange(0, 1) =~= "["@);
    lemma_split_indexed(n, f);
}

} // verus!
