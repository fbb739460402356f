//! Text the command line prints: status lines, sizes, the dry-run listing and
//! the request as an equivalent `curl` command.
use vstd::prelude::*;
use vstd::string::StringExecFns;

use crate::model::order::sort_by;
use super::commands::ResponseTarget;
use crate::bindings::{json_pretty, pretty_json};
use crate::model::{
    by_name, reason_of, status_reason, Pairs, Request, RequestV, ResponseRecord, ResponseV, State,
    StateV,
};
use crate::text::{
    chars_of, decimal, decimal_exec, digit_char, digit_char_exec, extend, is_alnum,
    is_alnum_exec, slice_chars, string_from, string_of,
};

verus! {

/// `200 OK`, or the bare code when it has no reason phrase.
pub open spec fn status_text(code: u16) -> Seq<char> {
    match reason_of(code) {
        Some(reason) => decimal(code as nat) + " "@ + reason,
        None => decimal(code as nat),
    }
}

pub fn format_status(code: u16) -> (r: String)
    ensures
        r@ == status_text(code),
{
    let mut out = string_of(decimal_exec(code as u128).as_slice());
    match status_reason(code) {
        Some(reason) => {
            out.append(" ");
            out.append(reason);
        },
        None => {},
    }
    out
}

/// `10 * b / unit` rounded to the nearest integer, ties to even.
pub open spec fn tenths(b: nat, unit: nat) -> nat {
    let q = (10 * b) / unit;
    let r = (10 * b) % unit;
    if 2 * r > unit || (2 * r == unit && q % 2 == 1) {
        q + 1
    } else {
        q
    }
}

/// A count of tenths with one decimal: `41` is `4.1`.
pub open spec fn one_decimal(t: nat) -> Seq<char> {
    decimal(t / 10) + "."@ + seq![digit_char(t % 10)]
}

/// A human-readable byte count: 1024-based units, one decimal above bytes.
pub open spec fn size_text(b: nat) -> Seq<char> {
    if b < 1024 {
        decimal(b) + " B"@
    } else if b < 1024 * 1024 {
        one_decimal(tenths(b, 1024)) + " KiB"@
    } else if b < 1024 * 1024 * 1024 {
        one_decimal(tenths(b, 1024 * 1024)) + " MiB"@
    } else {
        one_decimal(tenths(b, 1024 * 1024 * 1024)) + " GiB"@
    }
}

fn tenths_exec(b: u128, unit: u128) -> (t: u128)
    requires
        0 < unit <= 1024 * 1024 * 1024,
        b < 0x1_0000_0000_0000_0000,
    ensures
        t == tenths(b as nat, unit as nat),
{
    let q = (10 * b) / unit;
    let r = (10 * b) % unit;
    if 2 * r > unit || (2 * r == unit && q % 2 == 1) {
        q + 1
    } else {
        q
    }
}

fn one_decimal_exec(t: u128) -> (r: String)
    ensures
        r@ == one_decimal(t as nat),
{
    let mut out = string_of(decimal_exec(t / 10).as_slice());
    out.append(".");
    let d = digit_char_exec((t % 10) as u8);
    let tail = string_of(&[d]);
    out.append(tail.as_str());
    proof {
        assert(tail@ =~= seq![digit_char((t % 10) as nat)]);
    }
    out
}

pub fn format_size(bytes: usize) -> (r: String)
    ensures
        r@ == size_text(bytes as nat),
{
    let b = bytes as u128;
    if b < 1024 {
        let mut out = string_of(decimal_exec(b).as_slice());
        out.append(" B");
        out
    } else if b < 1024 * 1024 {
        let mut out = one_decimal_exec(tenths_exec(b, 1024));
        out.append(" KiB");
        out
    } else if b < 1024 * 1024 * 1024 {
        let mut out = one_decimal_exec(tenths_exec(b, 1024 * 1024));
        out.append(" MiB");
        out
    } else {
        let mut out = one_decimal_exec(tenths_exec(b, 1024 * 1024 * 1024));
        out.append(" GiB");
        out
    }
}

// ---------------------------------------------------------------------------
// Shell quoting and the curl command
// ---------------------------------------------------------------------------

/// POSIX single-quote escaping of the contents: `'` becomes `'\''`.
pub open spec fn quote_body(s: Seq<char>) -> Seq<char>
    decreases s.len(),
{
    if s.len() == 0 {
        Seq::empty()
    } else if s.last() == '\'' {
        quote_body(s.drop_last()) + seq!['\'', '\\', '\'', '\'']
    } else {
        quote_body(s.drop_last()).push(s.last())
    }
}

pub open spec fn shell_quote(s: Seq<char>) -> Seq<char> {
    seq!['\''] + quote_body(s) + seq!['\'']
}

/// Methods are plain tokens unless they hold anything outside
/// `[A-Za-z0-9_-]`; then they are quoted.
pub open spec fn plain_token(m: Seq<char>) -> bool {
    &&& m.len() > 0
    &&& forall|i: int| 0 <= i < m.len() ==> is_alnum(#[trigger] m[i]) || m[i] == '-' || m[i] == '_'
}

pub open spec fn quote_method(m: Seq<char>) -> Seq<char> {
    if plain_token(m) {
        m
    } else {
        shell_quote(m)
    }
}

fn shell_quote_exec(s: &[char]) -> (r: Vec<char>)
    ensures
        r@ == shell_quote(s@),
{
    let mut out: Vec<char> = Vec::new();
    out.push('\'');
    let mut i: usize = 0;
    while i < s.len()
        invariant
            i <= s@.len(),
            out@ == seq!['\''] + quote_body(s@.take(i as int)),
        decreases s@.len() - i,
    {
        let ghost prev = out@;
        let c = s[i];
        if c == '\'' {
            out.push('\'');
            out.push('\\');
            out.push('\'');
            out.push('\'');
        } else {
            out.push(c);
        }
        assert(s@.take(i + 1).drop_last() =~= s@.take(i as int));
        assert(out@ =~= seq!['\''] + quote_body(s@.take(i + 1)));
        i += 1;
    }
    assert(s@.take(s@.len() as int) =~= s@);
    out.push('\'');
    out
}

fn plain_token_exec(m: &[char]) -> (r: bool)
    ensures
        r == plain_token(m@),
{
    if m.len() == 0 {
        return false;
    }
    let mut i: usize = 0;
    while i < m.len()
        invariant
            i <= m@.len(),
            forall|j: int| 0 <= j < i ==> is_alnum(#[trigger] m@[j]) || m@[j] == '-' || m@[j] == '_',
        decreases m@.len() - i,
    {
        let c = m[i];
        if !(is_alnum_exec(c) || c == '-' || c == '_') {
            return false;
        }
        i += 1;
    }
    true
}

fn quote_method_exec(m: &[char]) -> (r: Vec<char>)
    ensures
        r@ == quote_method(m@),
{
    if plain_token_exec(m) {
        let mut r = Vec::new();
        extend(&mut r, m);
        assert(r@ =~= m@);
        r
    } else {
        shell_quote_exec(m)
    }
}

/// Pieces joined with single spaces.
pub open spec fn join_words(parts: Seq<Seq<char>>) -> Seq<char>
    decreases parts.len(),
{
    if parts.len() == 0 {
        Seq::empty()
    } else if parts.len() == 1 {
        parts[0]
    } else {
        join_words(parts.drop_last()) + seq![' '] + parts.last()
    }
}

pub open spec fn header_parts(hs: Pairs) -> Seq<Seq<char>> {
    Seq::new(hs.len(), |i: int| "-H "@ + shell_quote(hs[i].0 + ": "@ + hs[i].1))
}

/// The words of the curl command for a request with URL `url`: the method
/// (spelled out whenever a body is present, since curl would switch to POST),
/// `-k`, `-L` under `--follow`, `-m` with the request's timeout, the URL, the
/// headers sorted by name, and the body.
pub open spec fn curl_parts(req: RequestV, url: Seq<char>, insecure: bool, follow: bool) -> Seq<Seq<char>> {
    let method = match (req.method, req.body) {
        (Some(m), _) => seq!["-X "@ + quote_method(m)],
        (None, Some(_)) => seq!["-X GET"@],
        (None, None) => Seq::empty(),
    };
    let k = if insecure {
        seq!["-k"@]
    } else {
        Seq::empty()
    };
    let l = if follow {
        seq!["-L"@]
    } else {
        Seq::empty()
    };
    let m = match req.timeout_secs {
        Some(n) => seq!["-m "@ + decimal(n as nat)],
        None => Seq::empty(),
    };
    let body = match req.body {
        Some(b) => seq!["--data-binary "@ + shell_quote(b)],
        None => Seq::empty(),
    };
    seq!["curl"@] + method + k + l + m + seq![shell_quote(url)] + header_parts(
        sort_by(req.headers, by_name()),
    ) + body
}

fn join_words_exec(parts: &Vec<Vec<char>>) -> (r: Vec<char>)
    ensures
        r@ == join_words(parts.deep_view()),
{
    let mut out: Vec<char> = Vec::new();
    let mut i: usize = 0;
    while i < parts.len()
        invariant
            i <= parts@.len(),
            out@ == join_words(parts.deep_view().take(i as int)),
        decreases parts@.len() - i,
    {
        let ghost prev = parts.deep_view().take(i as int);
        assert(parts.deep_view().take(i + 1).drop_last() =~= prev);
        assert(parts.deep_view()[i as int] == parts@[i as int]@);
        if i > 0 {
            out.push(' ');
        }
        extend(&mut out, parts[i].as_slice());
        assert(out@ =~= join_words(parts.deep_view().take(i + 1)));
        i += 1;
    }
    assert(parts.deep_view().take(parts@.len() as int) =~= parts.deep_view());
    out
}

fn push_part(parts: &mut Vec<Vec<char>>, p: Vec<char>)
    ensures
        final(parts).deep_view() == old(parts).deep_view().push(p@),
{
    let ghost prev = parts.deep_view();
    let ghost pv = p.deep_view();
    assert(pv =~= p@);
    parts.push(p);
    assert(parts.deep_view() =~= prev.push(pv));
}

fn prefixed(prefix: &str, rest: &[char]) -> (r: Vec<char>)
    ensures
        r@ == prefix@ + rest@,
{
    let mut out = chars_of(prefix);
    extend(&mut out, rest);
    out
}

/// The request as an equivalent `curl` command, with `-L` when `follow`.
/// Fails when the request has no URL.
pub fn format_curl_with(request: &Request, insecure: bool, follow: bool) -> (r: Result<String, String>)
    ensures
        request@.url matches Some(u) ==> r matches Ok(s) && s@ == join_words(
            curl_parts(request@, u, insecure, follow),
        ),
        request@.url is None ==> (r matches Err(m) && m@ == "error: URL not set (use: reel url <URL>)"@),
{
    let url = match &request.url {
        Some(u) => u,
        None => {
            return Err(string_from("error: URL not set (use: reel url <URL>)"));
        },
    };
    let ghost req = request@;
    let mut parts: Vec<Vec<char>> = Vec::new();
    push_part(&mut parts, chars_of("curl"));
    let ghost p0 = parts.deep_view();
    match (&request.method, &request.body) {
        (Some(m), _) => push_part(
            &mut parts,
            prefixed("-X ", quote_method_exec(chars_of(m.as_str()).as_slice()).as_slice()),
        ),
        (None, Some(_)) => push_part(&mut parts, chars_of("-X GET")),
        (None, None) => {},
    }
    if insecure {
        push_part(&mut parts, chars_of("-k"));
    }
    if follow {
        push_part(&mut parts, chars_of("-L"));
    }
    match request.timeout_secs {
        Some(n) => push_part(&mut parts, prefixed("-m ", decimal_exec(n as u128).as_slice())),
        None => {},
    }
    push_part(&mut parts, shell_quote_exec(chars_of(url.as_str()).as_slice()));
    let ghost before_headers = parts.deep_view();
    let sorted = request.headers.sorted();
    let ghost hs = sort_by(req.headers, by_name());
    let mut i: usize = 0;
    while i < sorted.len()
        invariant
            i <= sorted@.len(),
            sorted.deep_view() == hs,
            parts.deep_view() == before_headers + header_parts(hs).take(i as int),
        decreases sorted@.len() - i,
    {
        let (name, value) = sorted[i];
        assert(hs[i as int] == (name@, value@));
        let mut text = chars_of(name.as_str());
        extend(&mut text, chars_of(": ").as_slice());
        extend(&mut text, chars_of(value.as_str()).as_slice());
        let ghost prev = parts.deep_view();
        push_part(&mut parts, prefixed("-H ", shell_quote_exec(text.as_slice()).as_slice()));
        assert(header_parts(hs).take(i + 1) =~= header_parts(hs).take(i as int).push(
            header_parts(hs)[i as int],
        ));
        assert(parts.deep_view() =~= before_headers + header_parts(hs).take(i + 1));
        i += 1;
    }
    assert(header_parts(hs).take(sorted@.len() as int) =~= header_parts(hs));
    match &request.body {
        Some(b) => push_part(
            &mut parts,
            prefixed("--data-binary ", shell_quote_exec(chars_of(b.as_str()).as_slice()).as_slice()),
        ),
        None => {},
    }
    assert(parts.deep_view() =~= curl_parts(req, url@, insecure, follow));
    Ok(string_of(join_words_exec(&parts).as_slice()))
}

/// The request as an equivalent `curl` command. Fails when the request has
/// no URL.
pub fn format_curl(request: &Request, insecure: bool) -> (r: Result<String, String>)
    ensures
        request@.url matches Some(u) ==> r matches Ok(s) && s@ == join_words(
            curl_parts(request@, u, insecure, false),
        ),
        request@.url is None ==> r is Err,
{
    format_curl_with(request, insecure, false)
}

/// The lines a dry run prints for a request: method (GET when unset) and
/// URL, the headers sorted by name, and the body.
pub open spec fn dry_run_text(req: RequestV) -> Seq<Seq<char>> {
    let method = match req.method {
        Some(m) => m,
        None => "GET"@,
    };
    let url = match req.url {
        Some(u) => u,
        None => "(not set)"@,
    };
    let hs = sort_by(req.headers, by_name());
    let body = match req.body {
        Some(b) => seq![">   "@ + b],
        None => Seq::empty(),
    };
    seq!["> "@ + method + " "@ + url] + pair_rows(">   "@, hs) + body
}

pub fn dry_run_lines(request: &Request) -> (r: Vec<String>)
    ensures
        r.deep_view() == dry_run_text(request@),
{
    let ghost req = request@;
    let mut first = chars_of("> ");
    match &request.method {
        Some(m) => extend(&mut first, chars_of(m.as_str()).as_slice()),
        None => extend(&mut first, chars_of("GET").as_slice()),
    }
    extend(&mut first, chars_of(" ").as_slice());
    match &request.url {
        Some(u) => extend(&mut first, chars_of(u.as_str()).as_slice()),
        None => extend(&mut first, chars_of("(not set)").as_slice()),
    }
    let mut out: Vec<String> = Vec::new();
    out.push(string_of(first.as_slice()));
    let sorted = request.headers.sorted();
    push_pair_rows(&mut out, &sorted, chars_of(">   ").as_slice());
    match &request.body {
        Some(b) => {
            let mut line = chars_of(">   ");
            extend(&mut line, chars_of(b.as_str()).as_slice());
            let ghost prev = out.deep_view();
            let text = string_of(line.as_slice());
            out.push(text);
            assert(out.deep_view() =~= prev.push(">   "@ + b@));
        },
        None => {},
    }
    assert(out.deep_view() =~= dry_run_text(req));
    out
}

/// Which stored responses `response` shows, as a half-open range of
/// indices into the history, or the error it prints instead: none is stored,
/// or the 1-based index is past the end.
pub open spec fn selection(count: nat, target: ResponseTarget) -> Result<(nat, nat), Seq<char>> {
    if count == 0 {
        Err("error: no responses stored yet (run 'reel send' first)"@)
    } else {
        match target {
            ResponseTarget::Last => Ok(((count - 1) as nat, count)),
            ResponseTarget::Index(n) => if n < count {
                Ok((n as nat, (n + 1) as nat))
            } else {
                Err(
                    "error: response index "@ + decimal((n + 1) as nat) + " out of range (have "@
                        + decimal(count) + ")"@,
                )
            },
            ResponseTarget::All => Ok((0, count)),
        }
    }
}

pub fn response_selection(count: usize, target: ResponseTarget) -> (r: Result<(usize, usize), String>)
    ensures
        match r {
            Ok((a, b)) => selection(count as nat, target) == Ok::<(nat, nat), Seq<char>>((a as nat, b as nat)),
            Err(m) => selection(count as nat, target) == Err::<(nat, nat), Seq<char>>(m@),
        },
{
    if count == 0 {
        return Err(string_from("error: no responses stored yet (run 'reel send' first)"));
    }
    match target {
        ResponseTarget::Last => Ok((count - 1, count)),
        ResponseTarget::Index(n) => {
            if n < count {
                Ok((n, n + 1))
            } else {
                let mut m = chars_of("error: response index ");
                extend(&mut m, decimal_exec(n as u128 + 1).as_slice());
                extend(&mut m, chars_of(" out of range (have ").as_slice());
                extend(&mut m, decimal_exec(count as u128).as_slice());
                extend(&mut m, chars_of(")").as_slice());
                Err(string_of(m.as_slice()))
            }
        },
        ResponseTarget::All => Ok((0, count)),
    }
}

/// Where a stored response came from: the preset path, or `(session)`.
pub open spec fn source_text(r: ResponseV) -> Seq<char> {
    match r.source {
        Some(s) => s,
        None => "(session)"@,
    }
}

/// The header listing of a response: `STATUS — SOURCE`, then one
/// `name: value` line per header, sorted by name. In the listing of every
/// response the first line starts with the 1-based number in brackets and
/// the header lines are indented by two spaces.
pub open spec fn header_block(r: ResponseV, number: Option<nat>) -> Seq<Seq<char>> {
    let head = decimal(r.status as nat) + " — "@ + source_text(r);
    let (first, indent) = match number {
        Some(i) => ("["@ + decimal(i) + "] "@ + head, "  "@),
        None => (head, Seq::<char>::empty()),
    };
    seq![first] + pair_rows(indent, sort_by(r.headers, by_name()))
}

pub fn header_block_lines(r: &ResponseRecord, number: Option<usize>) -> (lines: Vec<String>)
    ensures
        lines.deep_view() == header_block(
            r@,
            match number {
                Some(i) => Some(i as nat),
                None => None::<nat>,
            },
        ),
{
    let ghost rv = r@;
    let ghost num = match number {
        Some(i) => Some(i as nat),
        None => None::<nat>,
    };
    let mut head = decimal_exec(r.status as u128);
    extend(&mut head, chars_of(" — ").as_slice());
    match &r.source {
        Some(s) => extend(&mut head, chars_of(s.as_str()).as_slice()),
        None => extend(&mut head, chars_of("(session)").as_slice()),
    }
    let (first, indent) = match number {
        Some(i) => {
            let mut f = chars_of("[");
            extend(&mut f, decimal_exec(i as u128).as_slice());
            extend(&mut f, chars_of("] ").as_slice());
            extend(&mut f, head.as_slice());
            (f, chars_of("  "))
        },
        None => (head, Vec::new()),
    };
    let mut out: Vec<String> = Vec::new();
    out.push(string_of(first.as_slice()));
    let sorted = r.headers.sorted();
    push_pair_rows(&mut out, &sorted, indent.as_slice());
    assert(out.deep_view() =~= header_block(rv, num));
    out
}

/// `t` with a column of ten spaces after every line break, so that a
/// multi-line value lines up under the labels of `show`.
pub open spec fn indent_continuation(t: Seq<char>) -> Seq<char>
    decreases t.len(),
{
    if t.len() == 0 {
        t
    } else {
        indent_continuation(t.drop_last()) + if t.last() == '\n' {
            "\n          "@
        } else {
            seq![t.last()]
        }
    }
}

fn indent_continuation_exec(t: &[char]) -> (r: Vec<char>)
    ensures
        r@ == indent_continuation(t@),
{
    let mut out: Vec<char> = Vec::new();
    let mut i: usize = 0;
    while i < t.len()
        invariant
            i <= t@.len(),
            out@ == indent_continuation(t@.take(i as int)),
        decreases t@.len() - i,
    {
        let ghost prev = t@.take(i as int);
        assert(t@.take(i + 1).drop_last() =~= prev);
        if t[i] == '\n' {
            extend(&mut out, chars_of("\n          ").as_slice());
        } else {
            out.push(t[i]);
        }
        i += 1;
    }
    assert(t@.take(t@.len() as int) =~= t@);
    out
}

/// A request body as `show` prints it: pretty JSON when it parses, the text
/// as it is otherwise, continuation lines indented.
pub open spec fn shown_body(b: Seq<char>) -> Seq<char> {
    indent_continuation(
        match json_pretty(b) {
            Some(p) => p,
            None => b,
        },
    )
}

/// The lines `show` prints: the session file, method and URL (`(not set)`
/// when unset), the headers sorted by name, the body, the cookie jar, the
/// session variables, and the number of stored responses when there are any.
pub open spec fn state_text(s: StateV, session: Seq<char>) -> Seq<Seq<char>> {
    let q = s.request;
    let method = match q.method {
        Some(m) => m,
        None => "(not set)"@,
    };
    let url = match q.url {
        Some(u) => u,
        None => "(not set)"@,
    };
    let hs = sort_by(q.headers, by_name());
    let body = match q.body {
        Some(b) => seq!["  body    "@ + shown_body(b)],
        None => Seq::empty(),
    };
    let responses = if s.responses.len() > 0 {
        seq!["  responses  "@ + decimal(s.responses.len()) + " stored"@]
    } else {
        Seq::empty()
    };
    seq!["Session: "@ + session, "  method  "@ + method, "  url     "@ + url] + pair_rows(
        "  header  "@,
        hs,
    ) + body + cookie_rows(s) + var_rows(s.vars) + responses
}

fn join2(a: &str, b: &str) -> (r: String)
    ensures
        r@ == a@ + b@,
{
    let mut v = chars_of(a);
    extend(&mut v, chars_of(b).as_slice());
    string_of(v.as_slice())
}

/// One `PREFIX name: value` line per pair.
pub open spec fn pair_rows(prefix: Seq<char>, hs: Pairs) -> Seq<Seq<char>> {
    Seq::new(hs.len(), |i: int| prefix + hs[i].0 + ": "@ + hs[i].1)
}

fn push_pair_rows(out: &mut Vec<String>, pairs: &Vec<(&String, &String)>, prefix: &[char])
    ensures
        final(out).deep_view() == old(out).deep_view() + pair_rows(prefix@, pairs.deep_view()),
{
    let ghost start = out.deep_view();
    let ghost hs = pairs.deep_view();
    let ghost rows = pair_rows(prefix@, hs);
    let mut i: usize = 0;
    while i < pairs.len()
        invariant
            i <= pairs@.len(),
            hs == pairs.deep_view(),
            rows == pair_rows(prefix@, hs),
            out.deep_view() == start + rows.take(i as int),
        decreases pairs@.len() - i,
    {
        let (name, value) = pairs[i];
        assert(hs[i as int] == (name@, value@));
        let mut line = slice_chars(prefix, 0, prefix.len());
        assert(prefix@.subrange(0, prefix@.len() as int) =~= prefix@);
        extend(&mut line, chars_of(name.as_str()).as_slice());
        extend(&mut line, chars_of(": ").as_slice());
        extend(&mut line, chars_of(value.as_str()).as_slice());
        let ghost prev = out.deep_view();
        out.push(string_of(line.as_slice()));
        assert(rows.take(i + 1) =~= rows.take(i as int).push(rows[i as int]));
        assert(out.deep_view() =~= prev.push(rows[i as int]));
        i += 1;
    }
    assert(rows.take(pairs@.len() as int) =~= rows);
}

/// One `  cookie  name=value  (domainpath)` line per cookie of the jar.
pub open spec fn cookie_rows(s: StateV) -> Seq<Seq<char>> {
    Seq::new(
        s.cookies.len(),
        |i: int|
            "  cookie  "@ + s.cookies[i].name + "="@ + s.cookies[i].value + "  ("@ + s.cookies[i].domain
                + s.cookies[i].path + ")"@,
    )
}

/// One `  var     NAME=VALUE` line per session variable, in storage order.
pub open spec fn var_rows(vars: Pairs) -> Seq<Seq<char>> {
    Seq::new(vars.len(), |i: int| "  var     "@ + vars[i].0 + "="@ + vars[i].1)
}

pub fn state_lines(state: &State, session: &str) -> (lines: Vec<String>)
    ensures
        lines.deep_view() == state_text(state@, session@),
{
    let ghost sv = state@;
    let mut out: Vec<String> = Vec::new();
    out.push(join2("Session: ", session));
    let method = match &state.request.method {
        Some(m) => m.as_str(),
        None => "(not set)",
    };
    out.push(join2("  method  ", method));
    let url = match &state.request.url {
        Some(u) => u.as_str(),
        None => "(not set)",
    };
    out.push(join2("  url     ", url));
    let ghost head = out.deep_view();
    assert(head =~= state_text(sv, session@).take(3));
    let sorted = state.request.headers.sorted();
    push_pair_rows(&mut out, &sorted, chars_of("  header  ").as_slice());
    let ghost upto_headers = out.deep_view();
    assert(upto_headers == head + pair_rows("  header  "@, sort_by(sv.request.headers, by_name())));
    match &state.request.body {
        Some(b) => {
            let shown = match pretty_json(b.as_str()) {
                Some(p) => chars_of(p.as_str()),
                None => chars_of(b.as_str()),
            };
            let mut line = chars_of("  body    ");
            extend(&mut line, indent_continuation_exec(shown.as_slice()).as_slice());
            out.push(string_of(line.as_slice()));
        },
        None => {},
    }
    let ghost upto_body = out.deep_view();
    let ghost body_part = match sv.request.body {
        Some(b) => seq!["  body    "@ + shown_body(b)],
        None => Seq::<Seq<char>>::empty(),
    };
    assert(upto_body =~= upto_headers + body_part);
    let ghost rows = cookie_rows(sv);
    let mut i: usize = 0;
    while i < state.cookies.len()
        invariant
            i <= state.cookies@.len(),
            sv == state@,
            rows == cookie_rows(sv),
            out.deep_view() == upto_body + rows.take(i as int),
        decreases state.cookies@.len() - i,
    {
        let c = &state.cookies[i];
        assert(sv.cookies[i as int] == c@);
        let mut line = chars_of("  cookie  ");
        extend(&mut line, chars_of(c.name.as_str()).as_slice());
        extend(&mut line, chars_of("=").as_slice());
        extend(&mut line, chars_of(c.value.as_str()).as_slice());
        extend(&mut line, chars_of("  (").as_slice());
        extend(&mut line, chars_of(c.domain.as_str()).as_slice());
        extend(&mut line, chars_of(c.path.as_str()).as_slice());
        extend(&mut line, chars_of(")").as_slice());
        let ghost prev = out.deep_view();
        out.push(string_of(line.as_slice()));
        assert(rows.take(i + 1) =~= rows.take(i as int).push(rows[i as int]));
        assert(out.deep_view() =~= prev.push(rows[i as int]));
        i += 1;
    }
    assert(rows.take(state.cookies@.len() as int) =~= rows);
    let ghost upto_cookies = out.deep_view();
    let ghost vrows = var_rows(sv.vars);
    let mut j: usize = 0;
    while j < state.vars.len()
        invariant
            j <= sv.vars.len(),
            sv == state@,
            vrows == var_rows(sv.vars),
            out.deep_view() == upto_cookies + vrows.take(j as int),
        decreases sv.vars.len() - j,
    {
        let (name, value) = state.vars.entry(j);
        let mut line = chars_of("  var     ");
        extend(&mut line, chars_of(name.as_str()).as_slice());
        extend(&mut line, chars_of("=").as_slice());
        extend(&mut line, chars_of(value.as_str()).as_slice());
        let ghost prev = out.deep_view();
        out.push(string_of(line.as_slice()));
        assert(vrows.take(j + 1) =~= vrows.take(j as int).push(vrows[j as int]));
        assert(out.deep_view() =~= prev.push(vrows[j as int]));
        j += 1;
    }
    assert(vrows.take(sv.vars.len() as int) =~= vrows);
    let ghost upto_vars = out.deep_view();
    let n = state.responses.len();
    if n > 0 {
        let mut line = chars_of("  responses  ");
        extend(&mut line, decimal_exec(n as u128).as_slice());
        extend(&mut line, chars_of(" stored").as_slice());
        out.push(string_of(line.as_slice()));
    }
    let ghost tail = if n > 0 {
        seq!["  responses  "@ + decimal(sv.responses.len()) + " stored"@]
    } else {
        Seq::<Seq<char>>::empty()
    };
    assert(out.deep_view() =~= upto_vars + tail);
    assert(state_text(sv, session@) =~= head + pair_rows("  header  "@, sort_by(sv.request.headers, by_name()))
        + body_part + rows + vrows + tail);
    assert(out.deep_view() =~= state_text(sv, session@));
    out
}

} // verus!
