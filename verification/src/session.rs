//! The rules of session files: which name a session takes, when a stored
//! session belongs to an earlier process, how a process start time is read
//! from `/proc`, and which files the cleanup removes.
use vstd::prelude::*;
use vstd::string::StringExecFns;

use crate::text::{
    chars_of, decimal, decimal_exec, is_alnum, is_alnum_exec, is_ws, is_ws_exec, parse_unsigned,
    parse_unsigned_exec, rfind, rfind_exec, same, slice_chars, string_from, string_of, tail,
};

verus! {

/// A session name given by `REEL_SESSION`: 1 to 64 characters from
/// `A-Za-z0-9._-`.
pub open spec fn valid_session_name(name: Seq<char>) -> bool {
    &&& 1 <= name.len() <= 64
    &&& forall|i: int|
        0 <= i < name.len() ==> is_alnum(#[trigger] name[i]) || name[i] == '.' || name[i] == '_'
            || name[i] == '-'
}

pub fn is_valid_session_name(name: &str) -> (r: bool)
    ensures
        r == valid_session_name(name@),
{
    let n = chars_of(name);
    if n.len() == 0 || n.len() > 64 {
        return false;
    }
    let mut i: usize = 0;
    while i < n.len()
        invariant
            i <= n@.len(),
            n@ == name@,
            forall|j: int|
                0 <= j < i ==> is_alnum(#[trigger] n@[j]) || n@[j] == '.' || n@[j] == '_' || n@[j]
                    == '-',
        decreases n@.len() - i,
    {
        let c = n[i];
        if !(is_alnum_exec(c) || c == '.' || c == '_' || c == '-') {
            return false;
        }
        i += 1;
    }
    true
}

/// The session file of a named session (`named-<name>.json`, never a
/// PID-like name) or of the parent process (`<ppid>.json`).
pub open spec fn session_file(named: Option<Seq<char>>, ppid: u32) -> Seq<char> {
    match named {
        Some(n) => "named-"@ + n + ".json"@,
        None => decimal(ppid as nat) + ".json"@,
    }
}

pub fn session_file_name(named: Option<&str>, ppid: u32) -> (r: String)
    ensures
        r@ == session_file(named.deep_view(), ppid),
{
    match named {
        Some(n) => {
            let mut s = string_from("named-");
            s.append(n);
            s.append(".json");
            s
        },
        None => {
            let mut s = string_of(decimal_exec(ppid as u128).as_slice());
            s.append(".json");
            s
        },
    }
}

/// Different sessions never share a file: each shell PID and each session
/// name has a file of its own, and no named session's file is ever a
/// shell's.
pub proof fn law_session_files_distinct(a: Option<Seq<char>>, p: u32, b: Option<Seq<char>>, q: u32)
    ensures
        session_file(a, p) == session_file(b, q) ==> match (a, b) {
            (None, None) => p == q,
            (Some(x), Some(y)) => x == y,
            _ => false,
        },
{
    reveal_strlit("named-");
    reveal_strlit(".json");
    let f1 = session_file(a, p);
    let f2 = session_file(b, q);
    if f1 == f2 {
        crate::text::lemma_decimal_digits(p as nat);
        crate::text::lemma_decimal_digits(q as nat);
        match (a, b) {
            (None, None) => {
                let dp = decimal(p as nat);
                let dq = decimal(q as nat);
                assert(f1 == dp + ".json"@);
                assert(f2 == dq + ".json"@);
                assert(".json"@.len() == 5);
                assert(dp.len() == dq.len());
                assert(f1.take(dp.len() as int) =~= dp);
                assert(f2.take(dq.len() as int) =~= dq);
                crate::text::lemma_decimal_parse(p as nat, u32::MAX as nat);
                crate::text::lemma_decimal_parse(q as nat, u32::MAX as nat);
            },
            (Some(x), Some(y)) => {
                assert(f1 == "named-"@ + x + ".json"@);
                assert(f2 == "named-"@ + y + ".json"@);
                assert("named-"@.len() == 6);
                assert(".json"@.len() == 5);
                assert(x.len() == y.len());
                assert(f1.subrange(6, 6 + x.len() as int) =~= x);
                assert(f2.subrange(6, 6 + y.len() as int) =~= y);
            },
            (Some(x), None) => {
                assert(f1[0] == 'n');
                assert(crate::text::is_digit(f2[0]));
            },
            (None, Some(y)) => {
                assert(f2[0] == 'n');
                assert(crate::text::is_digit(f1[0]));
            },
        }
    }
}

/// A stored session belongs to an earlier process with the same PID when
/// both start times are known and differ: the session then starts fresh.
pub fn owner_changed(current: Option<u64>, recorded: Option<u64>) -> (r: bool)
    ensures
        r == (current is Some && recorded is Some && current != recorded),
{
    match (current, recorded) {
        (Some(a), Some(b)) => a != b,
        _ => false,
    }
}

// ---------------------------------------------------------------------------
// /proc/<pid>/stat
// ---------------------------------------------------------------------------

/// The end of the word starting at `i` (the first whitespace at or after it).
pub open spec fn word_end(s: Seq<char>, i: int) -> int
    decreases s.len() - i,
{
    if i < 0 || i >= s.len() || is_ws(s[i]) {
        i
    } else {
        word_end(s, i + 1)
    }
}

/// The first index at or after `i` that is no whitespace.
pub open spec fn word_start(s: Seq<char>, i: int) -> int
    decreases s.len() - i,
{
    if 0 <= i < s.len() && is_ws(s[i]) {
        word_start(s, i + 1)
    } else {
        i
    }
}

pub proof fn lemma_word_bounds(s: Seq<char>, i: int)
    requires
        0 <= i <= s.len(),
    ensures
        i <= word_start(s, i) <= s.len(),
        i <= word_end(s, i) <= s.len(),
    decreases s.len() - i,
{
    if i < s.len() {
        lemma_word_bounds(s, i + 1);
    }
}

/// The `n`-th (0-based) whitespace-separated word of `s` from position `i`
/// (`str::split_whitespace().nth(n)`).
pub open spec fn nth_word(s: Seq<char>, i: int, n: nat) -> Option<Seq<char>>
    decreases s.len() - i, n,
{
    if i < 0 || i > s.len() {
        None
    } else {
        let b = word_start(s, i);
        if b >= s.len() {
            None
        } else {
            let e = word_end(s, b);
            proof {
                lemma_word_bounds(s, i);
                lemma_word_bounds(s, b);
            }
            if n == 0 {
                Some(s.subrange(b, e))
            } else if e > i {
                nth_word(s, e, (n - 1) as nat)
            } else {
                None
            }
        }
    }
}

/// The start time (field 22) of a `/proc/<pid>/stat` line: the command name
/// (field 2) may hold spaces and parentheses, so fields are counted after the
/// last `)`.
pub open spec fn stat_start_time(stat: Seq<char>) -> Option<nat> {
    match rfind(stat, ')') {
        None => None,
        Some(k) => match nth_word(stat.skip(k + 1), 0, 19) {
            None => None,
            Some(w) => parse_unsigned(w, u64::MAX as nat),
        },
    }
}

fn nth_word_exec(s: &[char], n: usize) -> (r: Option<Vec<char>>)
    ensures
        r matches Some(w) ==> nth_word(s@, 0, n as nat) == Some(w@),
        r is None ==> nth_word(s@, 0, n as nat) is None,
{
    let mut i: usize = 0;
    let mut k: usize = n;
    while i <= s.len()
        invariant
            i <= s@.len(),
            nth_word(s@, 0, n as nat) == nth_word(s@, i as int, k as nat),
            k <= n,
        decreases s@.len() - i + 1, k,
    {
        if i == s.len() {
            return None;
        }
        let mut b = i;
        while b < s.len() && is_ws_exec(s[b])
            invariant
                i <= b <= s@.len(),
                word_start(s@, i as int) == word_start(s@, b as int),
            decreases s@.len() - b,
        {
            b += 1;
        }
        if b >= s.len() {
            return None;
        }
        let mut e = b;
        while e < s.len() && !is_ws_exec(s[e])
            invariant
                b <= e <= s@.len(),
                word_end(s@, b as int) == word_end(s@, e as int),
            decreases s@.len() - e,
        {
            e += 1;
        }
        if k == 0 {
            return Some(slice_chars(s, b, e));
        }
        if e <= i {
            return None;
        }
        k = k - 1;
        i = e;
    }
    None
}

/// The start time of a process from the text of its `/proc/<pid>/stat`.
pub fn start_time_from_stat(stat: &str) -> (r: Option<u64>)
    ensures
        r matches Some(t) ==> stat_start_time(stat@) == Some(t as nat),
        r is None ==> stat_start_time(stat@) is None,
{
    let s = chars_of(stat);
    let k = match rfind_exec(s.as_slice(), ')') {
        Some(k) => k,
        None => return None,
    };
    let after = tail(s.as_slice(), k + 1);
    assert(after@ =~= stat@.skip(k + 1));
    match nth_word_exec(after.as_slice(), 19) {
        None => None,
        Some(w) => match parse_unsigned_exec(w.as_slice(), u64::MAX as u128) {
            Some(v) => Some(v as u64),
            None => None,
        },
    }
}

// ---------------------------------------------------------------------------
// Cleanup
// ---------------------------------------------------------------------------

/// What decides whether a file of the sessions directory is stale.
#[derive(Debug, Clone, Copy, PartialEq, Eq)]
pub enum CleanupRule {
    /// Not a session file: kept.
    Keep,
    /// A PID-keyed session: stale once that process is gone.
    CheckProcess(u32),
    /// A named session, the PID-0 fallback or a leftover temporary file:
    /// stale after 7 days without change.
    CheckAge,
}

pub open spec fn cleanup_rule_of(extension: Option<Seq<char>>, stem: Option<Seq<char>>) -> CleanupRule {
    match extension {
        Some(e) => if e == "json"@ {
            match stem {
                Some(st) => match parse_unsigned(st, u32::MAX as nat) {
                    Some(pid) => if pid != 0 {
                        CleanupRule::CheckProcess(pid as u32)
                    } else {
                        CleanupRule::CheckAge
                    },
                    None => CleanupRule::CheckAge,
                },
                None => CleanupRule::CheckAge,
            }
        } else if e == "tmp"@ {
            CleanupRule::CheckAge
        } else {
            CleanupRule::Keep
        },
        None => CleanupRule::Keep,
    }
}

pub fn cleanup_rule(extension: Option<&str>, stem: Option<&str>) -> (r: CleanupRule)
    ensures
        r == cleanup_rule_of(extension.deep_view(), stem.deep_view()),
{
    let e = match extension {
        Some(e) => chars_of(e),
        None => return CleanupRule::Keep,
    };
    if same(e.as_slice(), chars_of("json").as_slice()) {
        match stem {
            Some(st) => match parse_unsigned_exec(chars_of(st).as_slice(), u32::MAX as u128) {
                Some(pid) => if pid != 0 {
                    CleanupRule::CheckProcess(pid as u32)
                } else {
                    CleanupRule::CheckAge
                },
                None => CleanupRule::CheckAge,
            },
            None => CleanupRule::CheckAge,
        }
    } else if same(e.as_slice(), chars_of("tmp").as_slice()) {
        CleanupRule::CheckAge
    } else {
        CleanupRule::Keep
    }
}

/// Whether a file is removed: a PID-keyed session once its process is gone
/// (a live process keeps its session whatever its age), otherwise, or when
/// liveness cannot be told, by age.
pub open spec fn stale(rule: CleanupRule, alive: Option<bool>, older: bool) -> bool {
    match rule {
        CleanupRule::Keep => false,
        CleanupRule::CheckAge => older,
        CleanupRule::CheckProcess(_) => match alive {
            Some(a) => !a,
            None => older,
        },
    }
}

pub fn is_stale(rule: CleanupRule, alive: Option<bool>, older: bool) -> (r: bool)
    ensures
        r == stale(rule, alive, older),
{
    match rule {
        CleanupRule::Keep => false,
        CleanupRule::CheckAge => older,
        CleanupRule::CheckProcess(_) => match alive {
            Some(a) => !a,
            None => older,
        },
    }
}

/// What the cleanup removes. A file under the age rule (a named session,
/// the fallback session, a leftover temporary file) goes exactly when it is
/// older than the cutoff: a recently used one is kept, whatever is known of
/// any process. A PID-keyed session goes exactly when its process is gone: a
/// live process keeps its session however old it is, and only when liveness
/// cannot be told does age decide. Anything else is never removed.
pub proof fn law_cleanup_decision(alive: Option<bool>, older: bool, pid: u32)
    ensures
        stale(CleanupRule::CheckAge, alive, older) <==> older,
        !stale(CleanupRule::Keep, alive, older),
        !stale(CleanupRule::CheckProcess(pid), Some(true), older),
        stale(CleanupRule::CheckProcess(pid), Some(false), older),
        stale(CleanupRule::CheckProcess(pid), None, older) <==> older,
{
}

/// The cleanup keeps every session with its owner. A shell's session is
/// stored as `<ppid>.json` and a named session as `named-<name>.json`; the
/// file of a shell (ppid above 0) is removed only once that shell is gone,
/// and never for its age; a named session, the fallback session of PID 0
/// and a leftover temporary file are removed by age; a file of any other
/// kind is never removed.
pub proof fn law_cleanup_follows_ownership(ppid: u32, name: Seq<char>, stem: Option<Seq<char>>, ext: Seq<char>)
    requires
        valid_session_name(name),
    ensures
        ppid > 0 ==> cleanup_rule_of(Some("json"@), Some(decimal(ppid as nat))) == CleanupRule::CheckProcess(ppid),
        cleanup_rule_of(Some("json"@), Some(decimal(0))) == CleanupRule::CheckAge,
        cleanup_rule_of(Some("json"@), Some("named-"@ + name)) == CleanupRule::CheckAge,
        cleanup_rule_of(Some("tmp"@), stem) == CleanupRule::CheckAge,
        ext != "json"@ && ext != "tmp"@ ==> cleanup_rule_of(Some(ext), stem) == CleanupRule::Keep,
        cleanup_rule_of(None, stem) == CleanupRule::Keep,
        session_file(None, ppid) == decimal(ppid as nat) + "."@ + "json"@,
        session_file(Some(name), ppid) == ("named-"@ + name) + "."@ + "json"@,
{
    reveal_strlit(".");
    reveal_strlit(".json");
    reveal_strlit("named-");
    reveal_strlit("tmp");
    reveal_strlit("json");
    assert("tmp"@ != "json"@) by {
        assert("tmp"@[0] != "json"@[0]);
    }
    crate::text::lemma_decimal_parse(ppid as nat, u32::MAX as nat);
    crate::text::lemma_decimal_parse(0, u32::MAX as nat);
    let st = "named-"@ + name;
    assert(st[0] == 'n');
    assert(!crate::text::is_digit('n'));
    assert(!crate::text::all_digits(st)) by {
        assert(!crate::text::is_digit(st[0]));
    }
}

} // verus!
