//! The session cookie jar: cookies captured from `Set-Cookie` response headers,
//! scoped by domain and path (simplified RFC 6265: Expires/Max-Age lifetimes
//! are not tracked — a cookie lives as long as the session — but a
//! Max-Age <= 0 deletion is honoured; HttpOnly/SameSite are irrelevant for a
//! command-line client). IP-address hosts only ever match exactly.
use vstd::prelude::*;

use super::order::{
    law_lex_lt_strict, law_sort_by, lemma_insert_at, lemma_sort_step, lex_lt, lex_lt_exec, sort_by,
    strict_order,
};
use crate::bindings::{to_lowercase, unicode_lowercase};
use crate::text::{
    lemma_split_on_append, lemma_split_on_nonempty, chars_of, ends_with, eq_ci, eq_ci_exec, extend, is_digit,
    parse_signed, parse_signed_exec, rfind, rfind_exec, same, slice_chars, split_on,
    split_on_exec, split_once, split_once_exec, starts_with, starts_with_exec, string_of,
    trim, trim_exec, trim_start_char, trim_start_char_exec,
};

verus! {

/// A cookie held in the jar.
#[derive(Debug)]
pub struct Cookie {
    pub name: String,
    pub value: String,
    /// Lowercase. The request host, unless a Domain attribute widened it.
    pub domain: String,
    pub path: String,
    pub secure: bool,
    /// True when the Set-Cookie had no Domain attribute: exact-host match only.
    pub host_only: bool,
}

pub struct CookieV {
    pub name: Seq<char>,
    pub value: Seq<char>,
    pub domain: Seq<char>,
    pub path: Seq<char>,
    pub secure: bool,
    pub host_only: bool,
}

impl View for Cookie {
    type V = CookieV;

    open spec fn view(&self) -> CookieV {
        CookieV {
            name: self.name@,
            value: self.value@,
            domain: self.domain@,
            path: self.path@,
            secure: self.secure,
            host_only: self.host_only,
        }
    }
}

impl DeepView for Cookie {
    type V = CookieV;

    open spec fn deep_view(&self) -> CookieV {
        self@
    }
}

impl Cookie {
    pub fn duplicate(&self) -> (r: Cookie)
        ensures
            r@ == self@,
    {
        Cookie {
            name: self.name.clone(),
            value: self.value.clone(),
            domain: self.domain.clone(),
            path: self.path.clone(),
            secure: self.secure,
            host_only: self.host_only,
        }
    }
}

impl Clone for Cookie {
    fn clone(&self) -> (r: Self)
        ensures
            r@ == self@,
    {
        self.duplicate()
    }
}

/// Outcome of parsing one Set-Cookie header: a cookie to store, or an
/// instruction to delete an existing one (Max-Age <= 0).
#[derive(Debug)]
pub enum SetCookie {
    Store(Cookie),
    Delete { name: String, domain: String, path: String },
}

pub enum SetCookieV {
    Store(CookieV),
    Delete { name: Seq<char>, domain: Seq<char>, path: Seq<char> },
}

impl View for SetCookie {
    type V = SetCookieV;

    open spec fn view(&self) -> SetCookieV {
        match self {
            SetCookie::Store(c) => SetCookieV::Store(c@),
            SetCookie::Delete { name, domain, path } => SetCookieV::Delete {
                name: name@,
                domain: domain@,
                path: path@,
            },
        }
    }
}

// ---------------------------------------------------------------------------
// Specification
// ---------------------------------------------------------------------------

/// Hosts written as IP addresses (an IPv6 literal in brackets, or a dotted
/// number): RFC 6265 allows them exact matches only.
pub open spec fn is_ip_host(host: Seq<char>) -> bool {
    ||| (host.len() > 0 && host[0] == '[')
    ||| (host.len() > 0 && forall|i: int| 0 <= i < host.len() ==> is_digit(#[trigger] host[i]) || host[i] == '.')
}

/// `host` is `domain` or a subdomain of it (never for an IP host).
pub open spec fn domain_covers(host: Seq<char>, domain: Seq<char>) -> bool {
    ||| host == domain
    ||| (!is_ip_host(host) && domain.len() < host.len() && ends_with(host, domain) && host[host.len()
        - domain.len() - 1] == '.')
}

/// RFC 6265 default-path: the request path up to (excluding) its last '/'.
pub open spec fn default_path(request_path: Seq<char>) -> Seq<char> {
    if !starts_with(request_path, seq!['/']) {
        seq!['/']
    } else {
        match rfind(request_path, '/') {
            Some(idx) => if idx == 0 {
                seq!['/']
            } else {
                request_path.take(idx)
            },
            None => seq!['/'],
        }
    }
}

/// A cookie under construction and whether it is already expired.
pub type Draft = (CookieV, bool);

/// Name and value of one `attr=value` segment, both trimmed.
pub open spec fn attribute(seg: Seq<char>) -> (Seq<char>, Seq<char>) {
    match split_once(seg, '=') {
        Some((a, v)) => (trim(a), trim(v)),
        None => (trim(seg), Seq::empty()),
    }
}

/// Apply one attribute segment of a Set-Cookie value; None rejects the
/// whole header (a Domain that does not cover the request host).
pub open spec fn apply_attribute(d: Draft, seg: Seq<char>, host: Seq<char>) -> Option<Draft> {
    let (attr, val) = attribute(seg);
    let c = d.0;
    if eq_ci(attr, "domain"@) {
        let domain = unicode_lowercase(trim_start_char(val, '.'));
        if domain.len() == 0 {
            Some(d)
        } else if domain_covers(host, domain) {
            Some((CookieV { domain: domain, host_only: false, ..c }, d.1))
        } else {
            None
        }
    } else if eq_ci(attr, "path"@) {
        if starts_with(val, seq!['/']) {
            Some((CookieV { path: val, ..c }, d.1))
        } else {
            Some(d)
        }
    } else if eq_ci(attr, "max-age"@) {
        match parse_signed(val, 0x8000_0000_0000_0000, 0x7fff_ffff_ffff_ffff) {
            Some(age) => Some((c, age <= 0)),
            None => Some(d),
        }
    } else if eq_ci(attr, "secure"@) {
        Some((CookieV { secure: true, ..c }, d.1))
    } else {
        Some(d)
    }
}

pub open spec fn apply_attributes(d: Draft, segs: Seq<Seq<char>>, host: Seq<char>) -> Option<Draft>
    decreases segs.len(),
{
    if segs.len() == 0 {
        Some(d)
    } else {
        match apply_attribute(d, segs[0], host) {
            Some(d2) => apply_attributes(d2, segs.drop_first(), host),
            None => None,
        }
    }
}

/// What a raw Set-Cookie value means for a request to `host`/`path`.
pub open spec fn set_cookie_of(raw: Seq<char>, host: Seq<char>, path: Seq<char>) -> Option<SetCookieV> {
    let segs = split_on(raw, ';');
    match split_once(segs[0], '=') {
        None => None,
        Some((n, v)) => {
            let name = trim(n);
            if name.len() == 0 {
                None
            } else {
                let first = CookieV {
                    name: name,
                    value: trim(v),
                    domain: host,
                    path: default_path(path),
                    secure: false,
                    host_only: true,
                };
                match apply_attributes((first, false), segs.drop_first(), host) {
                    None => None,
                    Some((c, expired)) => Some(
                        if expired {
                            SetCookieV::Delete { name: c.name, domain: c.domain, path: c.path }
                        } else {
                            SetCookieV::Store(c)
                        },
                    ),
                }
            }
        },
    }
}

/// RFC 6265 path-match.
pub open spec fn path_matches(cookie_path: Seq<char>, request_path: Seq<char>) -> bool {
    ||| request_path == cookie_path
    ||| (starts_with(request_path, cookie_path) && (ends_with(cookie_path, seq!['/']) || (
    cookie_path.len() < request_path.len() && request_path[cookie_path.len() as int] == '/')))
}

pub open spec fn domain_matches(c: CookieV, host: Seq<char>) -> bool {
    if c.host_only {
        host == c.domain
    } else {
        domain_covers(host, c.domain)
    }
}

/// Whether a cookie goes with a request to `host`/`path` over https or not.
pub open spec fn cookie_matches(c: CookieV, host: Seq<char>, path: Seq<char>, https: bool) -> bool {
    domain_matches(c, host) && path_matches(c.path, path) && (https || !c.secure)
}

/// The key a Set-Cookie update replaces or deletes by.
pub open spec fn update_key(u: SetCookieV) -> (Seq<char>, Seq<char>, Seq<char>) {
    match u {
        SetCookieV::Store(c) => (c.name, c.domain, c.path),
        SetCookieV::Delete { name, domain, path } => (name, domain, path),
    }
}

/// The jar without the cookies that have the given key, in order.
pub open spec fn jar_without(jar: Seq<CookieV>, key: (Seq<char>, Seq<char>, Seq<char>)) -> Seq<CookieV>
    decreases jar.len(),
{
    if jar.len() == 0 {
        jar
    } else if (jar.last().name, jar.last().domain, jar.last().path) == key {
        jar_without(jar.drop_last(), key)
    } else {
        jar_without(jar.drop_last(), key).push(jar.last())
    }
}

/// The jar after one Set-Cookie update.
pub open spec fn jar_after(jar: Seq<CookieV>, u: SetCookieV) -> Seq<CookieV> {
    let kept = jar_without(jar, update_key(u));
    match u {
        SetCookieV::Store(c) => kept.push(c),
        SetCookieV::Delete { .. } => kept,
    }
}

/// The cookies of the jar that go with a request, in jar order.
pub open spec fn matching(jar: Seq<CookieV>, host: Seq<char>, path: Seq<char>, https: bool) -> Seq<CookieV>
    decreases jar.len(),
{
    if jar.len() == 0 {
        jar
    } else if cookie_matches(jar.last(), host, path, https) {
        matching(jar.drop_last(), host, path, https).push(jar.last())
    } else {
        matching(jar.drop_last(), host, path, https)
    }
}

/// RFC 6265 §5.4 order: longer paths (in bytes) first, name as tiebreaker.
pub open spec fn cookie_before() -> spec_fn(CookieV, CookieV) -> bool {
    |a: CookieV, b: CookieV|
        {
            let la = vstd::utf8::encode_utf8(a.path).len();
            let lb = vstd::utf8::encode_utf8(b.path).len();
            la > lb || (la == lb && lex_lt(a.name, b.name))
        }
}

/// `name=value` pairs joined by "; ".
pub open spec fn join_pairs(cs: Seq<CookieV>) -> Seq<char>
    decreases cs.len(),
{
    if cs.len() == 0 {
        Seq::empty()
    } else if cs.len() == 1 {
        cs[0].name + seq!['='] + cs[0].value
    } else {
        join_pairs(cs.drop_last()) + seq![';', ' '] + cs.last().name + seq!['='] + cs.last().value
    }
}

/// The Cookie header value for a request, or None when no cookie matches.
pub open spec fn cookie_header_of(jar: Seq<CookieV>, host: Seq<char>, path: Seq<char>, https: bool) -> Option<Seq<char>> {
    let m = matching(jar, host, path, https);
    if m.len() == 0 {
        None
    } else {
        Some(join_pairs(sort_by(m, cookie_before())))
    }
}

proof fn lemma_jar_without_excludes(jar: Seq<CookieV>, key: (Seq<char>, Seq<char>, Seq<char>))
    ensures
        forall|i: int|
            0 <= i < jar_without(jar, key).len() ==> (
            #[trigger] jar_without(jar, key)[i].name,
            jar_without(jar, key)[i].domain,
            jar_without(jar, key)[i].path,
        ) != key,
    decreases jar.len(),
{
    if jar.len() > 0 {
        lemma_jar_without_excludes(jar.drop_last(), key);
        let w = jar_without(jar.drop_last(), key);
        if (jar.last().name, jar.last().domain, jar.last().path) != key {
            assert forall|i: int| 0 <= i < w.push(jar.last()).len() implies (
                #[trigger] w.push(jar.last())[i].name,
                w.push(jar.last())[i].domain,
                w.push(jar.last())[i].path,
            ) != key by {
                if i < w.len() {
                    assert(w.push(jar.last())[i] == w[i]);
                }
            }
        }
    }
}

/// A cookie the server sets is kept, as the jar's newest entry, and is the
/// only one left with its name, domain and path.
pub proof fn law_stored_cookie_replaces(jar: Seq<CookieV>, c: CookieV)
    ensures
        jar_after(jar, SetCookieV::Store(c)).last() == c,
        forall|i: int|
            0 <= i < jar_after(jar, SetCookieV::Store(c)).len() - 1 ==> (
            #[trigger] jar_after(jar, SetCookieV::Store(c))[i].name,
            jar_after(jar, SetCookieV::Store(c))[i].domain,
            jar_after(jar, SetCookieV::Store(c))[i].path,
        ) != (c.name, c.domain, c.path),
{
    let key = (c.name, c.domain, c.path);
    lemma_jar_without_excludes(jar, key);
    let w = jar_without(jar, key);
    assert forall|i: int| 0 <= i < w.push(c).len() - 1 implies (
        #[trigger] w.push(c)[i].name,
        w.push(c)[i].domain,
        w.push(c)[i].path,
    ) != key by {
        assert(w.push(c)[i] == w[i]);
    }
}

/// A stored cookie goes out with every request it matches.
pub proof fn law_stored_cookie_is_sent(jar: Seq<CookieV>, c: CookieV, host: Seq<char>, path: Seq<char>, https: bool)
    requires
        cookie_matches(c, host, path, https),
    ensures
        cookie_header_of(jar_after(jar, SetCookieV::Store(c)), host, path, https) is Some,
{
    let j = jar_after(jar, SetCookieV::Store(c));
    assert(j.drop_last() =~= jar_without(jar, (c.name, c.domain, c.path)));
    assert(matching(j, host, path, https).len() > 0);
}

/// After a deletion (Max-Age <= 0) no cookie with that name, domain and path
/// remains in the jar.
pub proof fn law_deleted_cookie_is_gone(jar: Seq<CookieV>, name: Seq<char>, domain: Seq<char>, path: Seq<char>)
    ensures
        forall|i: int|
            0 <= i < jar_after(jar, SetCookieV::Delete { name, domain, path }).len() ==> (
            #[trigger] jar_after(jar, SetCookieV::Delete { name, domain, path })[i].name,
            jar_after(jar, SetCookieV::Delete { name, domain, path })[i].domain,
            jar_after(jar, SetCookieV::Delete { name, domain, path })[i].path,
        ) != (name, domain, path),
{
    lemma_jar_without_excludes(jar, (name, domain, path));
}

/// The cookies of the jar that do not have the given name, domain and path,
/// in order.
proof fn lemma_jar_without_keeps_others(jar: Seq<CookieV>, n: Seq<char>, d: Seq<char>, p: Seq<char>)
    ensures
        jar_without(jar, (n, d, p)) == jar.filter(|x: CookieV| !(x.name == n && x.domain == d && x.path == p)),
    decreases jar.len(),
{
    reveal(Seq::filter);
    if jar.len() > 0 {
        lemma_jar_without_keeps_others(jar.drop_last(), n, d, p);
    }
}

/// Storing a cookie replaces only the cookies with its name, domain and
/// path: every other cookie of the jar stays, in order (whatever its name),
/// and the stored cookie comes last.
pub proof fn law_store_keeps_other_cookies(jar: Seq<CookieV>, c: CookieV)
    ensures
        jar_after(jar, SetCookieV::Store(c)) == jar.filter(
            |x: CookieV| !(x.name == c.name && x.domain == c.domain && x.path == c.path),
        ).push(c),
{
    lemma_jar_without_keeps_others(jar, c.name, c.domain, c.path);
}

/// A deletion removes exactly the cookies with its name, domain and path:
/// every other cookie stays, in order.
pub proof fn law_delete_removes_only_its_key(jar: Seq<CookieV>, name: Seq<char>, domain: Seq<char>, path: Seq<char>)
    ensures
        jar_after(jar, SetCookieV::Delete { name, domain, path }) == jar.filter(
            |x: CookieV| !(x.name == name && x.domain == domain && x.path == path),
        ),
{
    lemma_jar_without_keeps_others(jar, name, domain, path);
}

/// What every cookie under construction keeps: a domain that covers the
/// request host (the host itself when host-only), and a path from the root.
pub open spec fn draft_sound(d: Draft, host: Seq<char>) -> bool {
    &&& domain_covers(host, d.0.domain)
    &&& d.0.host_only ==> d.0.domain == host
    &&& starts_with(d.0.path, seq!['/'])
}

proof fn lemma_attributes_sound(d: Draft, segs: Seq<Seq<char>>, host: Seq<char>)
    requires
        draft_sound(d, host),
    ensures
        apply_attributes(d, segs, host) matches Some(d2) ==> draft_sound(d2, host) && d2.0.name == d.0.name
            && d2.0.value == d.0.value,
    decreases segs.len(),
{
    if segs.len() > 0 {
        if let Some(d1) = apply_attribute(d, segs[0], host) {
            lemma_attributes_sound(d1, segs.drop_first(), host);
        }
    }
}

proof fn lemma_default_path_rooted(p: Seq<char>)
    ensures
        starts_with(default_path(p), seq!['/']),
{
    if starts_with(p, seq!['/']) {
        if let Some(idx) = rfind(p, '/') {
            if idx != 0 {
                crate::text::lemma_rfind_bounds(p, '/', p.len() as int);
                assert(p.take(idx).subrange(0, 1) =~= p.subrange(0, 1));
            }
        }
    }
    assert(seq!['/'].subrange(0, 1) =~= seq!['/']);
}

/// A server sets cookies for itself only: whatever a Set-Cookie value says,
/// the cookie it stores or deletes has a domain that covers the request
/// host (the host itself unless a Domain attribute widened it to a parent
/// domain), a path from the root, and the name and value of its first
/// `name=value` pair.
pub proof fn law_set_cookie_stays_with_its_host(raw: Seq<char>, host: Seq<char>, path: Seq<char>)
    ensures
        set_cookie_of(raw, host, path) matches Some(u) ==> {
            let (name, domain, cpath) = update_key(u);
            &&& domain_covers(host, domain)
            &&& starts_with(cpath, seq!['/'])
            &&& (u matches SetCookieV::Store(c) ==> (c.host_only ==> c.domain == host))
            &&& split_once(split_on(raw, ';')[0], '=') matches Some((n, v)) && name == trim(n) && (
            u matches SetCookieV::Store(c) ==> c.value == trim(v))
        },
{
    lemma_default_path_rooted(path);
    let segs = split_on(raw, ';');
    if let Some((n, v)) = split_once(segs[0], '=') {
        let first = CookieV {
            name: trim(n),
            value: trim(v),
            domain: host,
            path: default_path(path),
            secure: false,
            host_only: true,
        };
        lemma_attributes_sound((first, false), segs.drop_first(), host);
    }
}

/// Which requests a cookie goes with. A secure cookie never goes over plain
/// http. A host-only cookie goes to its exact host only. A domain cookie
/// goes to its domain and to every subdomain of it (a host ending in `.` and
/// the domain), but not to a host that merely ends with the same letters.
pub proof fn law_cookie_scope(c: CookieV, x: Seq<char>, path: Seq<char>, https: bool)
    ensures
        c.secure && !https ==> !cookie_matches(c, c.domain, path, https),
        c.host_only && x.len() > 0 ==> !domain_matches(c, x + c.domain),
        domain_matches(c, c.domain),
        !c.host_only && !is_ip_host(x + seq!['.'] + c.domain) ==> domain_matches(c, x + seq!['.'] + c.domain),
        x.len() > 0 && x.last() != '.' ==> !domain_matches(c, x + c.domain),
{
    let h1 = x + c.domain;
    assert(x.len() > 0 ==> h1 != c.domain) by {
        if x.len() > 0 {
            assert(h1.len() != c.domain.len());
        }
    }
    if x.len() > 0 && x.last() != '.' {
        assert(h1[h1.len() - c.domain.len() - 1] == x.last());
    }
    let h2 = x + seq!['.'] + c.domain;
    assert(h2.subrange(h2.len() - c.domain.len(), h2.len() as int) =~= c.domain);
    assert(h2[h2.len() - c.domain.len() - 1] == '.');
}

/// Which paths a cookie goes with: its own path and every path below it,
/// where "below" starts at a `/` (so `/docs` covers `/docs/a` but not
/// `/docsearch`).
pub proof fn law_cookie_path_scope(cp: Seq<char>, rest: Seq<char>)
    ensures
        path_matches(cp, cp),
        rest.len() > 0 && rest[0] == '/' ==> path_matches(cp, cp + rest),
        cp.len() > 0 && cp.last() == '/' ==> path_matches(cp, cp + rest),
        rest.len() > 0 && rest[0] != '/' && !(cp.len() > 0 && cp.last() == '/') ==> !path_matches(cp, cp + rest),
{
    let rp = cp + rest;
    assert(rp.subrange(0, cp.len() as int) =~= cp);
    if rest.len() > 0 {
        assert(rp[cp.len() as int] == rest[0]);
        assert(rp != cp) by {
            assert(rp.len() != cp.len());
        }
    }
    if cp.len() > 0 {
        assert(cp.subrange(cp.len() - 1, cp.len() as int) =~= seq![cp.last()]);
    }
    assert(ends_with(cp, seq!['/']) ==> cp.len() > 0 && cp.last() == '/') by {
        if ends_with(cp, seq!['/']) {
            assert(cp.subrange(cp.len() - 1, cp.len() as int)[0] == cp[cp.len() - 1]);
            assert(seq!['/'][0] == '/');
        }
    }
}

/// The cookies a request carries are exactly the jar's cookies that match
/// it, in jar order.
pub proof fn law_sent_cookies_are_the_matching_ones(jar: Seq<CookieV>, host: Seq<char>, path: Seq<char>, https: bool)
    ensures
        matching(jar, host, path, https) == jar.filter(|x: CookieV| cookie_matches(x, host, path, https)),
    decreases jar.len(),
{
    reveal(Seq::filter);
    if jar.len() > 0 {
        law_sent_cookies_are_the_matching_ones(jar.drop_last(), host, path, https);
    }
}

proof fn lemma_matching_empty(jar: Seq<CookieV>, host: Seq<char>, path: Seq<char>, https: bool)
    ensures
        matching(jar, host, path, https).len() == 0 <==> forall|i: int|
            0 <= i < jar.len() ==> !cookie_matches(#[trigger] jar[i], host, path, https),
    decreases jar.len(),
{
    if jar.len() > 0 {
        let init = jar.drop_last();
        lemma_matching_empty(init, host, path, https);
        if forall|i: int| 0 <= i < jar.len() ==> !cookie_matches(#[trigger] jar[i], host, path, https) {
            assert forall|i: int| 0 <= i < init.len() implies !cookie_matches(
                #[trigger] init[i],
                host,
                path,
                https,
            ) by {
                assert(init[i] == jar[i]);
            }
            assert(!cookie_matches(jar[jar.len() - 1], host, path, https));
        }
        if matching(jar, host, path, https).len() == 0 {
            assert forall|i: int| 0 <= i < jar.len() implies !cookie_matches(
                #[trigger] jar[i],
                host,
                path,
                https,
            ) by {
                if i < init.len() {
                    assert(init[i] == jar[i]);
                }
            }
        }
    }
}

proof fn lemma_apply_attributes_push(d: Draft, segs: Seq<Seq<char>>, seg: Seq<char>, host: Seq<char>)
    ensures
        apply_attributes(d, segs.push(seg), host) == match apply_attributes(d, segs, host) {
            Some(d2) => apply_attribute(d2, seg, host),
            None => None,
        },
    decreases segs.len(),
{
    if segs.len() > 0 {
        assert(segs.push(seg).drop_first() =~= segs.drop_first().push(seg));
        assert(segs.push(seg)[0] == segs[0]);
        match apply_attribute(d, segs[0], host) {
            Some(d2) => lemma_apply_attributes_push(d2, segs.drop_first(), seg, host),
            None => {},
        }
    } else {
        let one = segs.push(seg);
        assert(one.drop_first() =~= Seq::<Seq<char>>::empty());
        assert(one[0] == seg);
        match apply_attribute(d, seg, host) {
            Some(d2) => {
                assert(apply_attributes(d2, one.drop_first(), host) == Some(d2));
            },
            None => {},
        }
    }
}

/// A Max-Age attribute appended to a Set-Cookie header decides alone what
/// becomes of the cookie: an age of zero or less deletes exactly the cookie
/// the header names (same name, domain and path), a positive age stores the
/// cookie the header would have stored, and a header the jar refuses stays
/// refused.
pub proof fn law_max_age_decides(
    raw: Seq<char>,
    host: Seq<char>,
    path: Seq<char>,
    seg: Seq<char>,
    age: int,
)
    requires
        forall|j: int| 0 <= j < seg.len() ==> seg[j] != ';',
        eq_ci(attribute(seg).0, "max-age"@),
        parse_signed(attribute(seg).1, 0x8000_0000_0000_0000, 0x7fff_ffff_ffff_ffff) == Some(age),
    ensures
        set_cookie_of(raw, host, path) is None ==> set_cookie_of(raw + seq![';'] + seg, host, path) is None,
        set_cookie_of(raw, host, path) matches Some(u) ==> (age <= 0 ==> set_cookie_of(
            raw + seq![';'] + seg,
            host,
            path,
        ) == Some(SetCookieV::Delete { name: update_key(u).0, domain: update_key(u).1, path: update_key(u).2 })),
        set_cookie_of(raw, host, path) matches Some(SetCookieV::Store(c)) ==> (age > 0 ==> set_cookie_of(
            raw + seq![';'] + seg,
            host,
            path,
        ) == Some(SetCookieV::Store(c))),
{
    reveal_strlit("max-age");
    reveal_strlit("domain");
    reveal_strlit("path");
    let segs = split_on(raw, ';');
    let raw2 = raw + seq![';'] + seg;
    lemma_split_on_append(raw, ';', seg);
    lemma_split_on_nonempty(raw, ';');
    let segs2 = split_on(raw2, ';');
    assert(segs2 == segs.push(seg));
    assert(segs2[0] == segs[0]);
    assert(segs2.drop_first() =~= segs.drop_first().push(seg));
    let (attr, val) = attribute(seg);
    assert(!eq_ci(attr, "domain"@));
    assert(!eq_ci(attr, "path"@));
    match split_once(segs[0], '=') {
        None => {},
        Some((n, v)) => {
            let name = trim(n);
            if name.len() > 0 {
                let first = CookieV {
                    name: name,
                    value: trim(v),
                    domain: host,
                    path: default_path(path),
                    secure: false,
                    host_only: true,
                };
                lemma_apply_attributes_push((first, false), segs.drop_first(), seg, host);
            }
        },
    }
}

proof fn lemma_cookie_before_strict()
    ensures
        strict_order(cookie_before()),
{
    law_lex_lt_strict();
}

/// The Cookie header names every cookie of the jar that goes with the
/// request, each once, as `name=value` pairs joined by "; ", cookies with
/// longer paths (in bytes) first and cookies with equal paths by name; when
/// no cookie goes with the request there is no header.
pub proof fn law_cookie_header_lists_matching(jar: Seq<CookieV>, host: Seq<char>, path: Seq<char>, https: bool)
    ensures
        cookie_header_of(jar, host, path, https) is None <==> forall|i: int|
            0 <= i < jar.len() ==> !cookie_matches(#[trigger] jar[i], host, path, https),
        cookie_header_of(jar, host, path, https) matches Some(h) ==> exists|s: Seq<CookieV>|
            {
                &&& s.to_multiset() == jar.filter(|x: CookieV| cookie_matches(x, host, path, https)).to_multiset()
                &&& forall|i: int, j: int|
                    0 <= i < j < s.len() ==> {
                        let li = vstd::utf8::encode_utf8((#[trigger] s[i]).path).len();
                        let lj = vstd::utf8::encode_utf8((#[trigger] s[j]).path).len();
                        lj <= li && (lj == li ==> !lex_lt(s[j].name, s[i].name))
                    }
                &&& h == join_pairs(s)
            },
{
    lemma_matching_empty(jar, host, path, https);
    law_sent_cookies_are_the_matching_ones(jar, host, path, https);
    let m = matching(jar, host, path, https);
    if m.len() > 0 {
        lemma_cookie_before_strict();
        law_sort_by(m, cookie_before());
        let s = sort_by(m, cookie_before());
        assert forall|i: int, j: int| 0 <= i < j < s.len() implies {
            let li = vstd::utf8::encode_utf8((#[trigger] s[i]).path).len();
            let lj = vstd::utf8::encode_utf8((#[trigger] s[j]).path).len();
            lj <= li && (lj == li ==> !lex_lt(s[j].name, s[i].name))
        } by {
            assert(!(cookie_before())(s[j], s[i]));
        }
    }
}

// ---------------------------------------------------------------------------
// Implementation
// ---------------------------------------------------------------------------

fn is_ip_host_exec(host: &[char]) -> (r: bool)
    ensures
        r == is_ip_host(host@),
{
    if host.len() == 0 {
        return false;
    }
    if host[0] == '[' {
        return true;
    }
    let mut i: usize = 0;
    while i < host.len()
        invariant
            i <= host@.len(),
            host@.len() > 0,
            host@[0] != '[',
            forall|k: int| 0 <= k < i ==> is_digit(#[trigger] host@[k]) || host@[k] == '.',
        decreases host@.len() - i,
    {
        let c = host[i];
        if !(('0' <= c && c <= '9') || c == '.') {
            assert(!(is_digit(host@[i as int]) || host@[i as int] == '.'));
            assert(host@[0] != '[');
            return false;
        }
        i += 1;
    }
    true
}

fn domain_covers_exec(host: &[char], domain: &[char]) -> (r: bool)
    ensures
        r == domain_covers(host@, domain@),
{
    if same(host, domain) {
        return true;
    }
    if is_ip_host_exec(host) || domain.len() >= host.len() {
        return false;
    }
    let tail_start = host.len() - domain.len();
    let suffix = slice_chars(host, tail_start, host.len());
    same(suffix.as_slice(), domain) && host[tail_start - 1] == '.'
}

fn default_path_exec(request_path: &[char]) -> (r: Vec<char>)
    ensures
        r@ == default_path(request_path@),
{
    let slash: Vec<char> = vec!['/'];
    assert(slash@ =~= seq!['/']);
    if !starts_with_exec(request_path, slash.as_slice()) {
        return slash;
    }
    match rfind_exec(request_path, '/') {
        Some(idx) => {
            if idx == 0 {
                slash
            } else {
                slice_chars(request_path, 0, idx)
            }
        },
        None => slash,
    }
}

fn attribute_exec(seg: &[char]) -> (r: (Vec<char>, Vec<char>))
    ensures
        (r.0@, r.1@) == attribute(seg@),
{
    match split_once_exec(seg, '=') {
        Some((a, v)) => (trim_exec(a.as_slice()), trim_exec(v.as_slice())),
        None => {
            let e: Vec<char> = Vec::new();
            assert(e@ =~= Seq::<char>::empty());
            (trim_exec(seg), e)
        },
    }
}

/// A cookie and whether it has expired, while attributes are applied.
struct DraftCookie {
    cookie: Cookie,
    expired: bool,
}

fn apply_attribute_exec(d: DraftCookie, seg: &[char], host: &[char]) -> (r: Option<DraftCookie>)
    ensures
        r matches Some(d2) ==> apply_attribute((d.cookie@, d.expired), seg@, host@) == Some(
            (d2.cookie@, d2.expired),
        ),
        r is None ==> apply_attribute((d.cookie@, d.expired), seg@, host@) is None,
{
    let (attr, val) = attribute_exec(seg);
    let domain_word = chars_of("domain");
    let path_word = chars_of("path");
    let max_age_word = chars_of("max-age");
    let secure_word = chars_of("secure");
    let mut d = d;
    if eq_ci_exec(attr.as_slice(), domain_word.as_slice()) {
        let stripped = string_of(trim_start_char_exec(val.as_slice(), '.').as_slice());
        let lowered = to_lowercase(stripped.as_str());
        let domain = chars_of(lowered.as_str());
        if domain.len() == 0 {
            Some(d)
        } else if domain_covers_exec(host, domain.as_slice()) {
            d.cookie.domain = lowered;
            d.cookie.host_only = false;
            Some(d)
        } else {
            None
        }
    } else if eq_ci_exec(attr.as_slice(), path_word.as_slice()) {
        let slash: Vec<char> = vec!['/'];
        assert(slash@ =~= seq!['/']);
        if starts_with_exec(val.as_slice(), slash.as_slice()) {
            d.cookie.path = string_of(val.as_slice());
        }
        Some(d)
    } else if eq_ci_exec(attr.as_slice(), max_age_word.as_slice()) {
        match parse_signed_exec(val.as_slice(), 0x8000_0000_0000_0000, 0x7fff_ffff_ffff_ffff) {
            Some(age) => {
                d.expired = age <= 0;
                Some(d)
            },
            None => Some(d),
        }
    } else if eq_ci_exec(attr.as_slice(), secure_word.as_slice()) {
        d.cookie.secure = true;
        Some(d)
    } else {
        Some(d)
    }
}

/// Parse a raw Set-Cookie header value in the context of the request that
/// received it. Returns None for malformed values and for Domain attributes
/// that do not cover the request host. `request_host` must be lowercase.
pub fn parse_set_cookie(raw: &str, request_host: &str, request_path: &str) -> (r: Option<SetCookie>)
    ensures
        r matches Some(u) ==> set_cookie_of(raw@, request_host@, request_path@) == Some(u@),
        r is None ==> set_cookie_of(raw@, request_host@, request_path@) is None,
{
    let raw_chars = chars_of(raw);
    let host = chars_of(request_host);
    let segs = split_on_exec(raw_chars.as_slice(), ';');
    let ghost sv = split_on(raw@, ';');
    assert(segs.deep_view() == sv);
    proof {
        lemma_split_nonempty(raw@, ';');
    }
    assert(segs@[0].deep_view() =~= segs@[0]@);
    let (n, v) = match split_once_exec(segs[0].as_slice(), '=') {
        Some(p) => p,
        None => return None,
    };
    let name = trim_exec(n.as_slice());
    if name.len() == 0 {
        return None;
    }
    let path_chars = chars_of(request_path);
    let first = Cookie {
        name: string_of(name.as_slice()),
        value: string_of(trim_exec(v.as_slice()).as_slice()),
        domain: request_host.to_owned(),
        path: string_of(default_path_exec(path_chars.as_slice()).as_slice()),
        secure: false,
        host_only: true,
    };
    assert(split_once(sv[0], '=') == Some((n@, v@)));
    assert(first@ == CookieV {
        name: trim(n@),
        value: trim(v@),
        domain: request_host@,
        path: default_path(request_path@),
        secure: false,
        host_only: true,
    });
    let ghost d0 = (first@, false);
    let mut d = DraftCookie { cookie: first, expired: false };
    let mut i: usize = 1;
    assert(sv.skip(1) =~= sv.drop_first());
    #[verifier::loop_isolation(false)]
    while i < segs.len()
        invariant
            1 <= i <= segs@.len(),
            segs.deep_view() == sv,
            sv.len() >= 1,
            host@ == request_host@,
            apply_attributes(d0, sv.drop_first(), request_host@            ) == apply_attributes((d.cookie@, d.expired), sv.skip(i as int), request_host@),
        decreases segs@.len() - i,
    {
        assert(segs@[i as int].deep_view() =~= segs@[i as int]@);
        assert(sv.skip(i as int)[0] == sv[i as int]);
        assert(sv.skip(i as int).drop_first() =~= sv.skip(i + 1));
        let ghost dv = (d.cookie@, d.expired);
        match apply_attribute_exec(d, segs[i].as_slice(), host.as_slice()) {
            Some(d2) => {
                d = d2;
            },
            None => {
                assert(apply_attributes(dv, sv.skip(i as int), request_host@) is None);
                return None;
            },
        }
        i += 1;
    }
    assert(sv.skip(segs@.len() as int).len() == 0);
    assert(sv.skip(1) =~= sv.drop_first());
    if d.expired {
        Some(
            SetCookie::Delete { name: d.cookie.name, domain: d.cookie.domain, path: d.cookie.path },
        )
    } else {
        Some(SetCookie::Store(d.cookie))
    }
}

proof fn lemma_split_nonempty(s: Seq<char>, c: char)
    ensures
        split_on(s, c).len() >= 1,
    decreases s.len(),
{
    match crate::text::find(s, seq![c]) {
        Some(i) => {
            if 0 <= i < s.len() {
                lemma_split_nonempty(s.skip(i + 1), c);
            }
        },
        None => {},
    }
}

fn path_matches_exec(cookie_path: &[char], request_path: &[char]) -> (r: bool)
    ensures
        r == path_matches(cookie_path@, request_path@),
{
    if same(request_path, cookie_path) {
        return true;
    }
    if !starts_with_exec(request_path, cookie_path) {
        return false;
    }
    let slash: Vec<char> = vec!['/'];
    assert(slash@ =~= seq!['/']);
    if crate::text::ends_with_exec(cookie_path, slash.as_slice()) {
        return true;
    }
    cookie_path.len() < request_path.len() && request_path[cookie_path.len()] == '/'
}

impl Cookie {
    fn domain_matches(&self, host: &[char]) -> (r: bool)
        ensures
            r == domain_matches(self@, host@),
    {
        let domain = chars_of(self.domain.as_str());
        if self.host_only {
            same(host, domain.as_slice())
        } else {
            domain_covers_exec(host, domain.as_slice())
        }
    }

    /// Whether this cookie goes with a request to `host`/`path`.
    pub fn matches(&self, host: &str, path: &str, https: bool) -> (r: bool)
        ensures
            r == cookie_matches(self@, host@, path@, https),
    {
        let h = chars_of(host);
        let p = chars_of(path);
        let cp = chars_of(self.path.as_str());
        self.domain_matches(h.as_slice()) && path_matches_exec(cp.as_slice(), p.as_slice()) && (
        https || !self.secure)
    }
}

/// Apply one parsed Set-Cookie to the jar. A store replaces any cookie with the
/// same (name, domain, path); a delete removes it.
pub fn update_jar(jar: &mut Vec<Cookie>, update: SetCookie)
    ensures
        final(jar).deep_view() == jar_after(old(jar).deep_view(), update@),
{
    let (name, domain, path) = match &update {
        SetCookie::Store(c) => (c.name.clone(), c.domain.clone(), c.path.clone()),
        SetCookie::Delete { name, domain, path } => (name.clone(), domain.clone(), path.clone()),
    };
    let ghost key = update_key(update@);
    assert(key == (name@, domain@, path@));
    let n = chars_of(name.as_str());
    let dm = chars_of(domain.as_str());
    let p = chars_of(path.as_str());
    let mut kept: Vec<Cookie> = Vec::new();
    let mut i: usize = 0;
    while i < jar.len()
        invariant
            i <= jar@.len(),
            key == (n@, dm@, p@),
            kept.deep_view() == jar_without(jar.deep_view().take(i as int), key),
        decreases jar@.len() - i,
    {
        let c = &jar[i];
        let cn = chars_of(c.name.as_str());
        let cd = chars_of(c.domain.as_str());
        let cp = chars_of(c.path.as_str());
        assert(jar.deep_view().take(i + 1).drop_last() =~= jar.deep_view().take(i as int));
        assert(jar.deep_view().take(i + 1).last() == jar.deep_view()[i as int]);
        let hit = same(cn.as_slice(), n.as_slice()) && same(cd.as_slice(), dm.as_slice()) && same(
            cp.as_slice(),
            p.as_slice(),
        );
        if !hit {
            let ghost prev = kept.deep_view();
            kept.push(c.duplicate());
            assert(kept.deep_view() =~= prev.push(jar.deep_view()[i as int]));
        }
        i += 1;
    }
    assert(jar.deep_view().take(jar@.len() as int) =~= jar.deep_view());
    match update {
        SetCookie::Store(c) => {
            let ghost prev = kept.deep_view();
            kept.push(c);
            assert(kept.deep_view() =~= prev.push(update@->Store_0));
        },
        SetCookie::Delete { .. } => {},
    }
    *jar = kept;
}

/// `a` must come before `b` in a Cookie header.
fn cookie_before_exec(a: &Cookie, b: &Cookie) -> (r: bool)
    ensures
        r == (cookie_before())(a@, b@),
{
    let la = a.path.as_str().as_bytes().len();
    let lb = b.path.as_str().as_bytes().len();
    if la != lb {
        return la > lb;
    }
    let an = chars_of(a.name.as_str());
    let bn = chars_of(b.name.as_str());
    lex_lt_exec(an.as_slice(), bn.as_slice())
}

/// Build the Cookie header value for a request to `host`/`path`, or None when
/// no stored cookie matches. Longer paths come first (RFC 6265 §5.4), name as
/// tiebreaker for deterministic output.
pub fn cookie_header(jar: &[Cookie], host: &str, path: &str, https: bool) -> (r: Option<String>)
    ensures
        r matches Some(s) ==> cookie_header_of(jar.deep_view(), host@, path@, https) == Some(s@),
        r is None ==> cookie_header_of(jar.deep_view(), host@, path@, https) is None,
{
    let mut found: Vec<&Cookie> = Vec::new();
    let mut i: usize = 0;
    while i < jar.len()
        invariant
            i <= jar@.len(),
            found.deep_view() == matching(jar.deep_view().take(i as int), host@, path@, https),
        decreases jar@.len() - i,
    {
        assert(jar.deep_view().take(i + 1).drop_last() =~= jar.deep_view().take(i as int));
        assert(jar.deep_view().take(i + 1).last() == jar.deep_view()[i as int]);
        if jar[i].matches(host, path, https) {
            let ghost prev = found.deep_view();
            found.push(&jar[i]);
            assert(found.deep_view() =~= prev.push(jar.deep_view()[i as int]));
        }
        i += 1;
    }
    assert(jar.deep_view().take(jar@.len() as int) =~= jar.deep_view());
    let ghost m = found.deep_view();
    if found.len() == 0 {
        return None;
    }
    // Stable insertion sort by `cookie_before`.
    let mut sorted: Vec<&Cookie> = Vec::new();
    let mut k: usize = 0;
    while k < found.len()
        invariant
            k <= found@.len(),
            m == found.deep_view(),
            sorted.deep_view() == sort_by(m.take(k as int), cookie_before()),
        decreases found@.len() - k,
    {
        let x = found[k];
        let mut j: usize = 0;
        while j < sorted.len()
            invariant
                j <= sorted@.len(),
                x@ == m[k as int],
                sorted.deep_view().len() == sorted@.len(),
                forall|q: int| 0 <= q < j ==> !(cookie_before())(x@, #[trigger] sorted.deep_view()[q]),
            ensures
                j <= sorted@.len(),
                forall|q: int| 0 <= q < j ==> !(cookie_before())(x@, #[trigger] sorted.deep_view()[q]),
                j < sorted@.len() ==> (cookie_before())(x@, sorted.deep_view()[j as int]),
            decreases sorted@.len() - j,
        {
            if cookie_before_exec(x, sorted[j]) {
                break;
            }
            j += 1;
        }
        proof {
            lemma_insert_at(sorted.deep_view(), x@, cookie_before(), j as int);
            lemma_sort_step(m, k as int, cookie_before());
        }
        let ghost prev = sorted.deep_view();
        sorted.insert(j, x);
        assert(sorted.deep_view() =~= prev.insert(j as int, x@));
        k += 1;
    }
    assert(m.take(m.len() as int) =~= m);
    // Join as `name=value; name=value`.
    let mut out: Vec<char> = Vec::new();
    let mut q: usize = 0;
    while q < sorted.len()
        invariant
            q <= sorted@.len(),
            out@ == join_pairs(sorted.deep_view().take(q as int)),
        decreases sorted@.len() - q,
    {
        let c = sorted[q];
        let ghost before = out@;
        if q > 0 {
            out.push(';');
            out.push(' ');
        }
        let cn = chars_of(c.name.as_str());
        let cv = chars_of(c.value.as_str());
        extend(&mut out, cn.as_slice());
        out.push('=');
        extend(&mut out, cv.as_slice());
        proof {
            let t = sorted.deep_view().take(q + 1);
            assert(t.drop_last() =~= sorted.deep_view().take(q as int));
            if q == 0 {
                assert(out@ =~= t[0].name + seq!['='] + t[0].value);
            } else {
                assert(out@ =~= before + seq![';', ' '] + t.last().name + seq!['='] + t.last().value);
            }
        }
        q += 1;
    }
    assert(sorted.deep_view().take(sorted@.len() as int) =~= sorted.deep_view());
    Some(string_of(out.as_slice()))
}

} // verus!
