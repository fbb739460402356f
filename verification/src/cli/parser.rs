//! The command-line grammar: tokens in, commands and global flags out.
use vstd::prelude::*;

use super::commands::{
    default_flags, Command, CommandV, FlagsV, GlobalFlags, ResponseTarget, ResponseView,
};
use vstd::string::StringExecFns;

use crate::bindings::{to_lowercase, unicode_lowercase};
use crate::text::{
    chars_of, eq_ci, eq_ci_exec, is_alnum, is_alnum_exec, parse_unsigned, parse_unsigned_exec,
    same, split_once, split_once_exec, string_from, string_of, trim, trim_exec,
    upper_all, upper_seq,
};

verus! {

// ---------------------------------------------------------------------------
// The grammar
// ---------------------------------------------------------------------------

/// Parser state: the commands so far, the flags, and the position just past
/// the Method/Url pair of a verb shortcut (where the implied send may go).
pub struct Parsed {
    pub cmds: Seq<CommandV>,
    pub flags: FlagsV,
    pub verb_end: Option<nat>,
}

pub open spec fn initial() -> Parsed {
    Parsed { cmds: Seq::empty(), flags: default_flags(), verb_end: None }
}

pub open spec fn arg(args: Seq<Seq<char>>, i: int) -> Option<Seq<char>> {
    if 0 <= i < args.len() {
        Some(args[i])
    } else {
        None
    }
}

/// The verb shortcuts: `get <URL>` = `method GET url <URL>` plus one implied send.
pub open spec fn is_verb(t: Seq<char>) -> bool {
    ||| t == "get"@
    ||| t == "post"@
    ||| t == "put"@
    ||| t == "patch"@
    ||| t == "delete"@
    ||| t == "head"@
    ||| t == "options"@
}

/// The standard method a name denotes (case-insensitively), if any.
pub open spec fn standard_method(m: Seq<char>) -> Option<Seq<char>> {
    if eq_ci(m, "GET"@) {
        Some("GET"@)
    } else if eq_ci(m, "HEAD"@) {
        Some("HEAD"@)
    } else if eq_ci(m, "POST"@) {
        Some("POST"@)
    } else if eq_ci(m, "PUT"@) {
        Some("PUT"@)
    } else if eq_ci(m, "DELETE"@) {
        Some("DELETE"@)
    } else if eq_ci(m, "CONNECT"@) {
        Some("CONNECT"@)
    } else if eq_ci(m, "OPTIONS"@) {
        Some("OPTIONS"@)
    } else if eq_ci(m, "TRACE"@) {
        Some("TRACE"@)
    } else if eq_ci(m, "PATCH"@) {
        Some("PATCH"@)
    } else {
        None
    }
}

/// Standard methods are uppercased; any other method is kept as typed (HTTP
/// methods are case-sensitive).
pub open spec fn normalize_method(m: Seq<char>) -> Seq<char> {
    match standard_method(m) {
        Some(s) => s,
        None => m,
    }
}

/// Variable names stay usable inside `${{ var.<name> }}`: letters, digits,
/// `_` and `-`.
pub open spec fn valid_var_name(name: Seq<char>) -> bool {
    &&& name.len() > 0
    &&& forall|i: int|
        0 <= i < name.len() ==> is_alnum(#[trigger] name[i]) || name[i] == '_' || name[i] == '-'
}

/// The optional target after `response`: `all`, a 1-based index, or nothing
/// (the last response); the number of tokens it takes. None for index 0.
pub open spec fn response_target(rest: Seq<Seq<char>>) -> Option<(ResponseTarget, nat)> {
    if rest.len() == 0 {
        Some((ResponseTarget::Last, 0))
    } else if rest[0] == "all"@ {
        Some((ResponseTarget::All, 1))
    } else if rest[0] != "body"@ && rest[0] != "headers"@ {
        match parse_unsigned(rest[0], usize::MAX as nat) {
            Some(n) => if n == 0 {
                None
            } else {
                Some((ResponseTarget::Index((n - 1) as usize), 1))
            },
            None => Some((ResponseTarget::Last, 0)),
        }
    } else {
        Some((ResponseTarget::Last, 0))
    }
}

/// The optional view after the target: `body`, `headers`, or the full record.
pub open spec fn response_view(rest: Seq<Seq<char>>) -> (ResponseView, nat) {
    if rest.len() > 0 && rest[0] == "body"@ {
        (ResponseView::Body, 1)
    } else if rest.len() > 0 && rest[0] == "headers"@ {
        (ResponseView::Headers, 1)
    } else {
        (ResponseView::Full, 0)
    }
}

pub open spec fn push_cmd(st: Parsed, c: CommandV) -> Parsed {
    Parsed { cmds: st.cmds.push(c), ..st }
}

pub open spec fn set_flags(st: Parsed, f: FlagsV) -> Parsed {
    Parsed { flags: f, ..st }
}

/// A command taking one value: the command it builds from the value.
pub open spec fn one_value_command(t: Seq<char>, v: Seq<char>) -> Option<CommandV> {
    if t == "method"@ {
        Some(CommandV::Method(normalize_method(v)))
    } else if t == "url"@ {
        Some(CommandV::Url(v))
    } else if t == "body"@ {
        Some(CommandV::Body(v))
    } else if t == "var-rm"@ {
        Some(CommandV::VarRm(v))
    } else if t == "header-rm"@ {
        Some(CommandV::HeaderRm(unicode_lowercase(v)))
    } else if t == "cookie-rm"@ {
        Some(CommandV::CookieRm(v))
    } else if t == "then"@ {
        Some(CommandV::Then(v))
    } else if t == "expect"@ {
        Some(CommandV::Expect(v))
    } else if t == "save"@ {
        Some(CommandV::Save(v))
    } else if t == "load"@ {
        Some(CommandV::Load(v))
    } else {
        None
    }
}

pub open spec fn takes_one_value(t: Seq<char>) -> bool {
    ||| t == "method"@
    ||| t == "url"@
    ||| t == "body"@
    ||| t == "var-rm"@
    ||| t == "header-rm"@
    ||| t == "cookie-rm"@
    ||| t == "then"@
    ||| t == "expect"@
    ||| t == "save"@
    ||| t == "load"@
}

/// A command taking no value.
pub open spec fn bare_command(t: Seq<char>) -> Option<CommandV> {
    if t == "send"@ {
        Some(CommandV::Send)
    } else if t == "show"@ {
        Some(CommandV::Show)
    } else if t == "curl"@ {
        Some(CommandV::Curl)
    } else if t == "reset"@ {
        Some(CommandV::Reset)
    } else if t == "header-rm-all"@ {
        Some(CommandV::HeaderRmAll)
    } else if t == "body-rm"@ {
        Some(CommandV::BodyRm)
    } else {
        None
    }
}

/// A flag taking no value: the flags once it is set. Every flag has a bare
/// and a `--` spelling.
pub open spec fn switch_flag(t: Seq<char>, f: FlagsV) -> Option<FlagsV> {
    if t == "fail"@ || t == "--fail"@ {
        Some(FlagsV { fail_on_error: true, ..f })
    } else if t == "insecure"@ || t == "--insecure"@ {
        Some(FlagsV { insecure: true, ..f })
    } else if t == "dry-run"@ || t == "--dry-run"@ {
        Some(FlagsV { dry_run: true, ..f })
    } else if t == "follow"@ || t == "--follow"@ {
        Some(FlagsV { follow: true, ..f })
    } else if t == "help"@ || t == "-h"@ || t == "--help"@ {
        Some(FlagsV { help: true, ..f })
    } else if t == "-V"@ || t == "--version"@ {
        Some(FlagsV { version: true, ..f })
    } else {
        None
    }
}

pub open spec fn is_retry(t: Seq<char>) -> bool {
    t == "retry"@ || t == "--retry"@
}

pub open spec fn is_until(t: Seq<char>) -> bool {
    t == "until"@ || t == "--until"@
}

pub open spec fn is_delay(t: Seq<char>) -> bool {
    t == "delay"@ || t == "--delay"@
}

/// A flag taking a value: the flags once it is set, or None when the value
/// is not valid for it.
pub open spec fn value_flag(t: Seq<char>, v: Seq<char>, f: FlagsV) -> Option<FlagsV> {
    if is_retry(t) {
        match parse_unsigned(v, u32::MAX as nat) {
            Some(n) => Some(FlagsV { retry: Some(n as u32), ..f }),
            None => None,
        }
    } else if is_until(t) {
        Some(FlagsV { until: Some(v), ..f })
    } else if is_delay(t) {
        match parse_unsigned(v, u64::MAX as nat) {
            Some(n) => Some(FlagsV { delay_secs: n as u64, ..f }),
            None => None,
        }
    } else {
        None
    }
}

/// `header KEY:VALUE` (both trimmed, the key not empty) or `header KEY VALUE`:
/// the command and the number of value tokens it takes.
pub open spec fn header_command(args: Seq<Seq<char>>, pos: int) -> Option<(CommandV, int)> {
    match arg(args, pos + 1) {
        None => None,
        Some(first) => match split_once(first, ':') {
            Some((k, v)) => if trim(k).len() == 0 {
                None
            } else {
                Some((CommandV::Header(trim(k), trim(v)), 1))
            },
            None => match arg(args, pos + 2) {
                Some(v) => Some((CommandV::Header(first, v), 2)),
                None => None,
            },
        },
    }
}

/// A command token at `pos` with its values: the command and the position
/// after it, or None when the token is no command or its values are invalid.
pub open spec fn command_step(args: Seq<Seq<char>>, pos: int) -> Option<(CommandV, int)> {
    let t = args[pos];
    let v = arg(args, pos + 1);
    if bare_command(t) is Some {
        Some((bare_command(t)->0, pos + 1))
    } else if takes_one_value(t) {
        match v {
            None => None,
            Some(x) => Some((one_value_command(t, x)->0, pos + 2)),
        }
    } else if t == "header"@ {
        match header_command(args, pos) {
            Some((c, n)) => Some((c, pos + 1 + n)),
            None => None,
        }
    } else if t == "var"@ {
        match (v, arg(args, pos + 2)) {
            (Some(name), Some(value)) => if valid_var_name(name) {
                Some((CommandV::Var(name, value), pos + 3))
            } else {
                None
            },
            _ => None,
        }
    } else if t == "timeout"@ {
        match v {
            None => None,
            Some(x) => match parse_unsigned(x, u64::MAX as nat) {
                Some(n) => Some((CommandV::Timeout(n as u64), pos + 2)),
                None => None,
            },
        }
    } else if t == "response"@ {
        let rest = args.skip(pos + 1);
        match response_target(rest) {
            None => None,
            Some((target, n)) => {
                let (view, m) = response_view(rest.skip(n as int));
                Some((CommandV::Response(target, view), pos + 1 + n + m))
            },
        }
    } else {
        None
    }
}

/// One token at `pos` (and the values it consumes): the position after it
/// and the new state, or None when the command line is invalid there.
pub open spec fn step(args: Seq<Seq<char>>, pos: int, st: Parsed) -> Option<(int, Parsed)> {
    let t = args[pos];
    let v = arg(args, pos + 1);
    if is_verb(t) {
        if st.verb_end is Some || v is None {
            None
        } else {
            let cmds = st.cmds.push(CommandV::Method(upper_seq(t))).push(CommandV::Url(v->0));
            Some((pos + 2, Parsed { cmds, flags: st.flags, verb_end: Some(cmds.len()) }))
        }
    } else if switch_flag(t, st.flags) is Some {
        Some((pos + 1, set_flags(st, switch_flag(t, st.flags)->0)))
    } else if is_retry(t) || is_until(t) || is_delay(t) {
        match v {
            None => None,
            Some(x) => match value_flag(t, x, st.flags) {
                Some(f) => Some((pos + 2, set_flags(st, f))),
                None => None,
            },
        }
    } else {
        match command_step(args, pos) {
            Some((c, np)) => Some((np, push_cmd(st, c))),
            None => None,
        }
    }
}

/// The tokens from `pos` on.
pub open spec fn parse_from(args: Seq<Seq<char>>, pos: int, st: Parsed) -> Option<Parsed>
    decreases args.len() - pos,
{
    if pos < 0 || pos >= args.len() {
        Some(st)
    } else {
        match step(args, pos, st) {
            Some((np, st2)) => if pos < np {
                parse_from(args, np, st2)
            } else {
                None
            },
            None => None,
        }
    }
}

pub open spec fn sends(c: CommandV) -> bool {
    c is Send || c is Then
}

pub open spec fn has_send(cmds: Seq<CommandV>) -> bool {
    exists|i: int| 0 <= i < cmds.len() && sends(#[trigger] cmds[i])
}

/// The first `expect` at or after `i` (the length when there is none).
pub open spec fn expect_from(cmds: Seq<CommandV>, i: int) -> int
    decreases cmds.len() - i,
{
    if i < 0 || i >= cmds.len() {
        cmds.len() as int
    } else if cmds[i] is Expect {
        i
    } else {
        expect_from(cmds, i + 1)
    }
}

/// A verb shortcut implies one send unless the line already sends: it goes
/// before the first `expect` written after the verb, so that assertion checks
/// the verb's response.
pub open spec fn finalize(p: Parsed) -> Seq<CommandV> {
    match p.verb_end {
        Some(ve) => if has_send(p.cmds) {
            p.cmds
        } else {
            p.cmds.insert(expect_from(p.cmds, ve as int), CommandV::Send)
        },
        None => p.cmds,
    }
}

/// A command line: the commands and the flags, or None when it is invalid.
pub open spec fn parse_spec(args: Seq<Seq<char>>) -> Option<(Seq<CommandV>, FlagsV)> {
    match parse_from(args, 0, initial()) {
        Some(p) => Some((finalize(p), p.flags)),
        None => None,
    }
}

/// The error for the command token at `pos` when `command_step` rejects it:
/// a missing value, a malformed header, a bad variable name or timeout, a
/// response index below 1, or an unknown command.
pub open spec fn command_error(args: Seq<Seq<char>>, pos: int) -> Seq<char> {
    let t = args[pos];
    let v = arg(args, pos + 1);
    if takes_one_value(t) {
        "error: '"@ + t + "' requires a value"@
    } else if t == "header"@ {
        "error: 'header' requires KEY:VALUE or KEY VALUE (and a non-empty key)"@
    } else if t == "var"@ {
        match (v, arg(args, pos + 2)) {
            (Some(name), Some(_)) => "error: invalid variable name '"@ + name
                + "' (allowed: letters, digits, '_', '-')"@,
            _ => "error: 'var' requires a name and a value"@,
        }
    } else if t == "timeout"@ {
        match v {
            None => "error: 'timeout' requires a number of seconds"@,
            Some(x) => "error: invalid timeout seconds '"@ + x + "'"@,
        }
    } else if t == "response"@ {
        "error: response indices start at 1"@
    } else {
        "error: unknown command '"@ + t + "'\nRun 'reel' with no arguments to see usage."@
    }
}

/// The error for the token at `pos` when `step` rejects it.
pub open spec fn step_error(args: Seq<Seq<char>>, pos: int, st: Parsed) -> Seq<char> {
    let t = args[pos];
    let v = arg(args, pos + 1);
    if is_verb(t) {
        if st.verb_end is Some {
            "error: '"@ + t
                + "' after an earlier verb shortcut — only one per invocation (chain requests with 'then', or use 'method'/'url'/'send')"@
        } else {
            "error: '"@ + t + "' requires a URL"@
        }
    } else if is_retry(t) || is_until(t) || is_delay(t) {
        match v {
            None => "error: '"@ + t + "' requires a value"@,
            Some(_) => "error: invalid "@ + t + " value"@,
        }
    } else {
        command_error(args, pos)
    }
}

/// The error of an invalid command line from `pos` on: that of the first
/// token it rejects.
pub open spec fn parse_error(args: Seq<Seq<char>>, pos: int, st: Parsed) -> Seq<char>
    decreases args.len() - pos,
{
    if pos < 0 || pos >= args.len() {
        Seq::empty()
    } else {
        match step(args, pos, st) {
            Some((np, st2)) => if pos < np {
                parse_error(args, np, st2)
            } else {
                Seq::empty()
            },
            None => step_error(args, pos, st),
        }
    }
}

// ---------------------------------------------------------------------------
// The parser
// ---------------------------------------------------------------------------

pub open spec fn ve_view(ve: Option<usize>) -> Option<nat> {
    match ve {
        Some(n) => Some(n as nat),
        None => None,
    }
}

pub open spec fn pview(cmds: Seq<CommandV>, flags: FlagsV, ve: Option<usize>) -> Parsed {
    Parsed { cmds, flags, verb_end: ve_view(ve) }
}

fn is_lit(t: &[char], lit: &str) -> (r: bool)
    ensures
        r == (t@ == lit@),
{
    same(t, chars_of(lit).as_slice())
}

fn is_verb_exec(t: &[char]) -> (r: bool)
    ensures
        r == is_verb(t@),
{
    is_lit(t, "get") || is_lit(t, "post") || is_lit(t, "put") || is_lit(t, "patch") || is_lit(
        t,
        "delete",
    ) || is_lit(t, "head") || is_lit(t, "options")
}

fn normalize_method_exec(m: &[char]) -> (r: String)
    ensures
        r@ == normalize_method(m@),
{
    if eq_ci_exec(m, chars_of("GET").as_slice()) {
        string_from("GET")
    } else if eq_ci_exec(m, chars_of("HEAD").as_slice()) {
        string_from("HEAD")
    } else if eq_ci_exec(m, chars_of("POST").as_slice()) {
        string_from("POST")
    } else if eq_ci_exec(m, chars_of("PUT").as_slice()) {
        string_from("PUT")
    } else if eq_ci_exec(m, chars_of("DELETE").as_slice()) {
        string_from("DELETE")
    } else if eq_ci_exec(m, chars_of("CONNECT").as_slice()) {
        string_from("CONNECT")
    } else if eq_ci_exec(m, chars_of("OPTIONS").as_slice()) {
        string_from("OPTIONS")
    } else if eq_ci_exec(m, chars_of("TRACE").as_slice()) {
        string_from("TRACE")
    } else if eq_ci_exec(m, chars_of("PATCH").as_slice()) {
        string_from("PATCH")
    } else {
        string_of(m)
    }
}

fn valid_var_name_exec(name: &[char]) -> (r: bool)
    ensures
        r == valid_var_name(name@),
{
    if name.len() == 0 {
        return false;
    }
    let mut i: usize = 0;
    while i < name.len()
        invariant
            i <= name@.len(),
            forall|j: int|
                0 <= j < i ==> is_alnum(#[trigger] name@[j]) || name@[j] == '_' || name@[j] == '-',
        decreases name@.len() - i,
    {
        let c = name[i];
        if !(is_alnum_exec(c) || c == '_' || c == '-') {
            return false;
        }
        i += 1;
    }
    true
}

fn bare_command_exec(t: &[char]) -> (r: Option<Command>)
    ensures
        r matches Some(c) ==> bare_command(t@) == Some(c.deep_view()),
        r is None ==> bare_command(t@) is None,
{
    if is_lit(t, "send") {
        Some(Command::Send)
    } else if is_lit(t, "show") {
        Some(Command::Show)
    } else if is_lit(t, "curl") {
        Some(Command::Curl)
    } else if is_lit(t, "reset") {
        Some(Command::Reset)
    } else if is_lit(t, "header-rm-all") {
        Some(Command::HeaderRmAll)
    } else if is_lit(t, "body-rm") {
        Some(Command::BodyRm)
    } else {
        None
    }
}

fn one_value_command_exec(t: &[char], v: &String) -> (r: Option<Command>)
    ensures
        r matches Some(c) ==> takes_one_value(t@) && one_value_command(t@, v@) == Some(c.deep_view()),
        r is None ==> !takes_one_value(t@),
{
    if is_lit(t, "method") {
        Some(Command::Method(normalize_method_exec(chars_of(v.as_str()).as_slice())))
    } else if is_lit(t, "url") {
        Some(Command::Url(v.clone()))
    } else if is_lit(t, "body") {
        Some(Command::Body(v.clone()))
    } else if is_lit(t, "var-rm") {
        Some(Command::VarRm(v.clone()))
    } else if is_lit(t, "header-rm") {
        Some(Command::HeaderRm(to_lowercase(v.as_str())))
    } else if is_lit(t, "cookie-rm") {
        Some(Command::CookieRm(v.clone()))
    } else if is_lit(t, "then") {
        Some(Command::Then(v.clone()))
    } else if is_lit(t, "expect") {
        Some(Command::Expect(v.clone()))
    } else if is_lit(t, "save") {
        Some(Command::Save(v.clone()))
    } else if is_lit(t, "load") {
        Some(Command::Load(v.clone()))
    } else {
        None
    }
}

fn switch_flag_exec(t: &[char], flags: &mut GlobalFlags) -> (r: bool)
    ensures
        r == switch_flag(t@, old(flags)@) is Some,
        r ==> final(flags)@ == switch_flag(t@, old(flags)@)->0,
        !r ==> final(flags)@ == old(flags)@,
{
    if is_lit(t, "fail") || is_lit(t, "--fail") {
        flags.fail_on_error = true;
    } else if is_lit(t, "insecure") || is_lit(t, "--insecure") {
        flags.insecure = true;
    } else if is_lit(t, "dry-run") || is_lit(t, "--dry-run") {
        flags.dry_run = true;
    } else if is_lit(t, "follow") || is_lit(t, "--follow") {
        flags.follow = true;
    } else if is_lit(t, "help") || is_lit(t, "-h") || is_lit(t, "--help") {
        flags.help = true;
    } else if is_lit(t, "-V") || is_lit(t, "--version") {
        flags.version = true;
    } else {
        return false;
    }
    true
}

fn value_flag_exec(t: &[char], v: &String, flags: &mut GlobalFlags) -> (r: bool)
    requires
        is_retry(t@) || is_until(t@) || is_delay(t@),
    ensures
        r == value_flag(t@, v@, old(flags)@) is Some,
        r ==> final(flags)@ == value_flag(t@, v@, old(flags)@)->0,
        !r ==> final(flags)@ == old(flags)@,
{
    let vc = chars_of(v.as_str());
    if is_lit(t, "retry") || is_lit(t, "--retry") {
        match parse_unsigned_exec(vc.as_slice(), u32::MAX as u128) {
            Some(n) => {
                flags.retry = Some(n as u32);
                true
            },
            None => false,
        }
    } else if is_lit(t, "until") || is_lit(t, "--until") {
        flags.until = Some(v.clone());
        true
    } else {
        match parse_unsigned_exec(vc.as_slice(), u64::MAX as u128) {
            Some(n) => {
                flags.delay_secs = n as u64;
                true
            },
            None => false,
        }
    }
}

fn header_command_exec(args: &[String], pos: usize) -> (r: Option<(Command, usize)>)
    requires
        pos < args@.len(),
    ensures
        r matches Some((c, n)) ==> header_command(args.deep_view(), pos as int) == Some(
            (c.deep_view(), n as int),
        ),
        r is None ==> header_command(args.deep_view(), pos as int) is None,
{
    assert(args@.len() == args.len());
    if pos + 1 >= args.len() {
        return None;
    }
    let first = &args[pos + 1];
    assert(args.deep_view()[pos + 1] == first@);
    let fc = chars_of(first.as_str());
    match split_once_exec(fc.as_slice(), ':') {
        Some((k, v)) => {
            let key = trim_exec(k.as_slice());
            if key.len() == 0 {
                None
            } else {
                let value = trim_exec(v.as_slice());
                Some((Command::Header(string_of(key.as_slice()), string_of(value.as_slice())), 1))
            }
        },
        None => {
            if pos + 2 >= args.len() {
                return None;
            }
            assert(args.deep_view()[pos + 2] == args@[pos + 2]@);
            Some((Command::Header(first.clone(), args[pos + 2].clone()), 2))
        },
    }
}

fn response_exec(args: &[String], pos: usize) -> (r: Option<(Command, usize)>)
    requires
        pos < args@.len(),
    ensures
        r matches Some((c, np)) ==> {
            let rest = args.deep_view().skip(pos + 1);
            &&& response_target(rest) matches Some((target, n)) && {
                let (view, m) = response_view(rest.skip(n as int));
                &&& c.deep_view() == CommandV::Response(target, view)
                &&& np == pos + 1 + n + m
            }
        },
        r is None ==> response_target(args.deep_view().skip(pos + 1)) is None,
{
    assert(args@.len() == args.len());
    let ghost rest = args.deep_view().skip(pos + 1);
    let mut at = pos + 1;
    let target = if at < args.len() {
        assert(rest[0] == args@[at as int]@);
        let tok = chars_of(args[at].as_str());
        if is_lit(tok.as_slice(), "all") {
            at = at + 1;
            ResponseTarget::All
        } else if !is_lit(tok.as_slice(), "body") && !is_lit(tok.as_slice(), "headers") {
            match parse_unsigned_exec(tok.as_slice(), usize::MAX as u128) {
                Some(n) => {
                    if n == 0 {
                        return None;
                    }
                    at = at + 1;
                    ResponseTarget::Index((n - 1) as usize)
                },
                None => ResponseTarget::Last,
            }
        } else {
            ResponseTarget::Last
        }
    } else {
        ResponseTarget::Last
    };
    assert(response_target(rest) == Some((target, (at - pos - 1) as nat)));
    let ghost rest2 = rest.skip(at - pos - 1);
    assert(rest2 =~= args.deep_view().skip(at as int));
    let view = if at < args.len() {
        assert(rest2[0] == args@[at as int]@);
        let tok = chars_of(args[at].as_str());
        if is_lit(tok.as_slice(), "body") {
            at = at + 1;
            ResponseView::Body
        } else if is_lit(tok.as_slice(), "headers") {
            at = at + 1;
            ResponseView::Headers
        } else {
            ResponseView::Full
        }
    } else {
        ResponseView::Full
    };
    Some((Command::Response(target, view), at))
}

fn push_command(cmds: &mut Vec<Command>, c: Command)
    ensures
        final(cmds).deep_view() == old(cmds).deep_view().push(c.deep_view()),
{
    let ghost prev = cmds.deep_view();
    let ghost cv = c.deep_view();
    cmds.push(c);
    assert(cmds.deep_view() =~= prev.push(cv));
}

fn message(a: &str, b: &str, c: &str) -> (r: String)
    ensures
        r@ == a@ + b@ + c@,
{
    let mut m = string_from(a);
    m.append(b);
    m.append(c);
    m
}

#[verifier::rlimit(60)]
fn step_exec(
    args: &[String],
    pos: usize,
    cmds: &mut Vec<Command>,
    flags: &mut GlobalFlags,
    verb_end: &mut Option<usize>,
) -> (r: Result<usize, String>)
    requires
        pos < args@.len(),
        *old(verb_end) matches Some(ve) ==> ve <= old(cmds)@.len(),
    ensures
        r matches Ok(np) ==> {
            &&& pos < np <= args@.len()
            &&& step(args.deep_view(), pos as int, pview(old(cmds).deep_view(), old(flags)@, *old(verb_end)))
                == Some((np as int, pview(final(cmds).deep_view(), final(flags)@, *final(verb_end))))
            &&& *final(verb_end) matches Some(ve) ==> ve <= final(cmds)@.len()
        },
        r is Err ==> step(args.deep_view(), pos as int, pview(old(cmds).deep_view(), old(flags)@, *old(verb_end))) is None,
        r matches Err(m) ==> m@ == step_error(
            args.deep_view(),
            pos as int,
            pview(old(cmds).deep_view(), old(flags)@, *old(verb_end)),
        ),
{
    assert(args@.len() == args.len());
    let ghost a = args.deep_view();
    assert(a[pos as int] == args@[pos as int]@);
    assert(pos + 1 < args@.len() ==> a[pos + 1] == args@[pos + 1]@);
    let token = &args[pos];
    let t = chars_of(token.as_str());
    let has_value = pos + 1 < args.len();
    if is_verb_exec(t.as_slice()) {
        if verb_end.is_some() {
            return Err(message("error: '", token.as_str(), "' after an earlier verb shortcut — only one per invocation (chain requests with 'then', or use 'method'/'url'/'send')"));
        }
        if !has_value {
            return Err(message("error: '", token.as_str(), "' requires a URL"));
        }
        let method = string_of(upper_all(t.as_slice()).as_slice());
        push_command(cmds, Command::Method(method));
        push_command(cmds, Command::Url(args[pos + 1].clone()));
        *verb_end = Some(cmds.len());
        return Ok(pos + 2);
    }
    if switch_flag_exec(t.as_slice(), flags) {
        return Ok(pos + 1);
    }
    if is_lit(t.as_slice(), "retry") || is_lit(t.as_slice(), "--retry") || is_lit(t.as_slice(), "until")
        || is_lit(t.as_slice(), "--until") || is_lit(t.as_slice(), "delay") || is_lit(
        t.as_slice(),
        "--delay",
    ) {
        if !has_value {
            return Err(message("error: '", token.as_str(), "' requires a value"));
        }
        if value_flag_exec(t.as_slice(), &args[pos + 1], flags) {
            return Ok(pos + 2);
        }
        return Err(message("error: invalid ", token.as_str(), " value"));
    }
    assert(!is_verb(a[pos as int]));
    assert(switch_flag(a[pos as int], old(flags)@) is None);
    assert(!(is_retry(a[pos as int]) || is_until(a[pos as int]) || is_delay(a[pos as int])));
    match command_exec(args, pos) {
        Ok((c, np)) => {
            push_command(cmds, c);
            assert(flags@ == old(flags)@);
            assert(*verb_end == *old(verb_end));
            Ok(np)
        },
        Err(m) => Err(m),
    }
}

#[verifier::rlimit(40)]
fn command_exec(args: &[String], pos: usize) -> (r: Result<(Command, usize), String>)
    requires
        pos < args@.len(),
    ensures
        r matches Ok((c, np)) ==> pos < np <= args@.len() && command_step(args.deep_view(), pos as int)
            == Some((c.deep_view(), np as int)),
        r is Err ==> command_step(args.deep_view(), pos as int) is None,
        r matches Err(m) ==> m@ == command_error(args.deep_view(), pos as int),
{
    assert(args@.len() == args.len());
    let ghost a = args.deep_view();
    assert(a[pos as int] == args@[pos as int]@);
    assert(pos + 1 < args@.len() ==> a[pos + 1] == args@[pos + 1]@);
    let token = &args[pos];
    let t = chars_of(token.as_str());
    let has_value = pos + 1 < args.len();
    if let Some(c) = bare_command_exec(t.as_slice()) {
        return Ok((c, pos + 1));
    }
    if has_value {
        if let Some(c) = one_value_command_exec(t.as_slice(), &args[pos + 1]) {
            return Ok((c, pos + 2));
        }
    } else {
        let probe = String::new();
        if one_value_command_exec(t.as_slice(), &probe).is_some() {
            return Err(message("error: '", token.as_str(), "' requires a value"));
        }
    }
    if is_lit(t.as_slice(), "header") {
        return match header_command_exec(args, pos) {
            Some((c, n)) => Ok((c, pos + 1 + n)),
            None => Err(string_from("error: 'header' requires KEY:VALUE or KEY VALUE (and a non-empty key)")),
        };
    }
    if is_lit(t.as_slice(), "var") {
        if !(has_value && pos + 2 < args.len()) {
            return Err(string_from("error: 'var' requires a name and a value"));
        }
        assert(a[pos + 2] == args@[pos + 2]@);
        let name = &args[pos + 1];
        if !valid_var_name_exec(chars_of(name.as_str()).as_slice()) {
            return Err(message("error: invalid variable name '", name.as_str(), "' (allowed: letters, digits, '_', '-')"));
        }
        return Ok((Command::Var(name.clone(), args[pos + 2].clone()), pos + 3));
    }
    if is_lit(t.as_slice(), "timeout") {
        if !has_value {
            return Err(string_from("error: 'timeout' requires a number of seconds"));
        }
        return match parse_unsigned_exec(chars_of(args[pos + 1].as_str()).as_slice(), u64::MAX as u128) {
            Some(n) => Ok((Command::Timeout(n as u64), pos + 2)),
            None => Err(message("error: invalid timeout seconds '", args[pos + 1].as_str(), "'")),
        };
    }
    if is_lit(t.as_slice(), "response") {
        return match response_exec(args, pos) {
            Some((c, np)) => Ok((c, np)),
            None => Err(string_from("error: response indices start at 1")),
        };
    }
    Err(message("error: unknown command '", token.as_str(), "'\nRun 'reel' with no arguments to see usage."))
}

fn is_send_command(c: &Command) -> (r: bool)
    ensures
        r == sends(c.deep_view()),
{
    match c {
        Command::Send => true,
        Command::Then(_) => true,
        _ => false,
    }
}

fn is_expect_command(c: &Command) -> (r: bool)
    ensures
        r == c.deep_view() is Expect,
{
    match c {
        Command::Expect(_) => true,
        _ => false,
    }
}

/// Parses the command line: the commands in order and the global flags.
/// Flags only count in command position — a token consumed as a value never
/// sets one.
pub fn parse_args(args: &[String]) -> (r: Result<(Vec<Command>, GlobalFlags), String>)
    ensures
        r matches Ok((c, f)) ==> parse_spec(args.deep_view()) == Some((c.deep_view(), f@)),
        r is Err ==> parse_spec(args.deep_view()) is None,
        r matches Err(m) ==> m@ == parse_error(args.deep_view(), 0, initial()),
{
    let ghost a = args.deep_view();
    let mut cmds: Vec<Command> = Vec::new();
    let mut flags = GlobalFlags::new();
    let mut verb_end: Option<usize> = None;
    let mut pos: usize = 0;
    assert(cmds.deep_view() =~= Seq::<CommandV>::empty());
    assert(pview(cmds.deep_view(), flags@, verb_end) == initial());
    while pos < args.len()
        invariant
            a == args.deep_view(),
            pos <= args@.len(),
            verb_end matches Some(ve) ==> ve <= cmds@.len(),
            parse_from(a, 0, initial()) == parse_from(a, pos as int, pview(cmds.deep_view(), flags@, verb_end)),
            parse_error(a, 0, initial()) == parse_error(a, pos as int, pview(cmds.deep_view(), flags@, verb_end)),
        decreases args@.len() - pos,
    {
        match step_exec(args, pos, &mut cmds, &mut flags, &mut verb_end) {
            Ok(np) => {
                pos = np;
            },
            Err(m) => {
                return Err(m);
            },
        }
    }
    let ghost p = pview(cmds.deep_view(), flags@, verb_end);
    assert(parse_from(a, 0, initial()) == Some(p));
    if let Some(ve) = verb_end {
        let mut found = false;
        let mut i: usize = 0;
        while i < cmds.len()
            invariant
                i <= cmds@.len(),
                cmds.deep_view() == p.cmds,
                found <==> exists|j: int| 0 <= j < i && sends(#[trigger] p.cmds[j]),
            decreases cmds@.len() - i,
        {
            assert(cmds.deep_view()[i as int] == cmds@[i as int].deep_view());
            if is_send_command(&cmds[i]) {
                found = true;
            }
            i += 1;
        }
        if !found {
            let mut k = ve;
            while k < cmds.len() && !is_expect_command(&cmds[k])
                invariant
                    ve <= k <= cmds@.len(),
                    cmds.deep_view() == p.cmds,
                    expect_from(p.cmds, ve as int) == expect_from(p.cmds, k as int),
                decreases cmds@.len() - k,
            {
                assert(cmds.deep_view()[k as int] == cmds@[k as int].deep_view());
                k += 1;
            }
            assert(k < cmds@.len() ==> cmds.deep_view()[k as int] == cmds@[k as int].deep_view());
            assert(expect_from(p.cmds, ve as int) == k);
            let ghost prev = cmds.deep_view();
            cmds.insert(k, Command::Send);
            assert(cmds.deep_view() =~= prev.insert(k as int, CommandV::Send));
        }
    }
    Ok((cmds, flags))
}

proof fn lemma_expect_from_bounds(cmds: Seq<CommandV>, i: int)
    requires
        0 <= i <= cmds.len(),
    ensures
        i <= expect_from(cmds, i) <= cmds.len(),
    decreases cmds.len() - i,
{
    if i < cmds.len() && !(cmds[i] is Expect) {
        lemma_expect_from_bounds(cmds, i + 1);
    }
}

/// A verb shortcut always leads to a send: when the line has no send or
/// `then` of its own, exactly one send is added.
pub proof fn law_verb_implies_send(p: Parsed)
    requires
        p.verb_end matches Some(ve) && ve <= p.cmds.len(),
    ensures
        has_send(finalize(p)),
        !has_send(p.cmds) ==> finalize(p).len() == p.cmds.len() + 1,
{
    if !has_send(p.cmds) {
        let ve = p.verb_end->0;
        lemma_expect_from_bounds(p.cmds, ve as int);
        let k = expect_from(p.cmds, ve as int);
        assert(sends(finalize(p)[k]));
    }
}

} // verus!
