//! The data the client works on: request headers, the request being built, the
//! request/response history, session variables and the session state.
use vstd::prelude::*;

use crate::text::{chars_of, eq_ci, eq_ci_exec, same};

pub mod cookies;
pub mod order;

pub use cookies::{Cookie, CookieV, SetCookie, cookie_header, parse_set_cookie, update_jar};

verus! {

/// A list of name/value pairs as plain sequences.
pub type Pairs = Seq<(Seq<char>, Seq<char>)>;

/// Whether `name` names the same header as `key` (ASCII case-insensitive).
pub open spec fn same_header(key: Seq<char>, name: Seq<char>) -> bool {
    eq_ci(key, name)
}

/// Value of the first header whose name matches `name` case-insensitively.
pub open spec fn header_lookup(h: Pairs, name: Seq<char>) -> Option<Seq<char>>
    decreases h.len(),
{
    if h.len() == 0 {
        None
    } else if same_header(h[0].0, name) {
        Some(h[0].1)
    } else {
        header_lookup(h.drop_first(), name)
    }
}

/// The headers that do not match `name`, in order.
pub open spec fn header_without(h: Pairs, name: Seq<char>) -> Pairs
    decreases h.len(),
{
    if h.len() == 0 {
        h
    } else if same_header(h.last().0, name) {
        header_without(h.drop_last(), name)
    } else {
        header_without(h.drop_last(), name).push(h.last())
    }
}

pub open spec fn header_present(h: Pairs, name: Seq<char>) -> bool {
    exists|i: int| 0 <= i < h.len() && same_header(#[trigger] h[i].0, name)
}

/// Value of the first variable named exactly `name`.
pub open spec fn var_lookup(h: Pairs, name: Seq<char>) -> Option<Seq<char>>
    decreases h.len(),
{
    if h.len() == 0 {
        None
    } else if h[0].0 == name {
        Some(h[0].1)
    } else {
        var_lookup(h.drop_first(), name)
    }
}

/// The variables not named `name`, in order.
pub open spec fn var_without(h: Pairs, name: Seq<char>) -> Pairs
    decreases h.len(),
{
    if h.len() == 0 {
        h
    } else if h.last().0 == name {
        var_without(h.drop_last(), name)
    } else {
        var_without(h.drop_last(), name).push(h.last())
    }
}

pub proof fn lemma_header_lookup_present(h: Pairs, name: Seq<char>)
    ensures
        header_lookup(h, name) is Some <==> header_present(h, name),
    decreases h.len(),
{
    if h.len() > 0 {
        lemma_header_lookup_present(h.drop_first(), name);
        if header_present(h, name) && !same_header(h[0].0, name) {
            let i = choose|i: int| 0 <= i < h.len() && same_header(#[trigger] h[i].0, name);
            assert(h.drop_first()[i - 1] == h[i]);
        }
        if header_present(h.drop_first(), name) {
            let i = choose|i: int|
                0 <= i < h.drop_first().len() && same_header(#[trigger] h.drop_first()[i].0, name);
            assert(h[i + 1] == h.drop_first()[i]);
        }
    }
}

pub proof fn lemma_header_without_len(h: Pairs, name: Seq<char>)
    ensures
        header_without(h, name).len() <= h.len(),
        header_without(h, name).len() == h.len() <==> !header_present(h, name),
        !header_present(header_without(h, name), name),
    decreases h.len(),
{
    if h.len() > 0 {
        lemma_header_without_len(h.drop_last(), name);
        let r = header_without(h.drop_last(), name);
        if header_present(h.drop_last(), name) {
            let i = choose|i: int|
                0 <= i < h.drop_last().len() && same_header(#[trigger] h.drop_last()[i].0, name);
            assert(h[i] == h.drop_last()[i]);
        }
        if header_present(h, name) && !same_header(h.last().0, name) {
            let i = choose|i: int| 0 <= i < h.len() && same_header(#[trigger] h[i].0, name);
            assert(h.drop_last()[i] == h[i]);
        }
        if !same_header(h.last().0, name) {
            if header_present(r.push(h.last()), name) {
                let i = choose|i: int|
                    0 <= i < r.push(h.last()).len() && same_header(
                        #[trigger] r.push(h.last())[i].0,
                        name,
                    );
                assert(r[i] == r.push(h.last())[i]);
            }
        }
    }
}

proof fn lemma_eq_ci_trans(a: Seq<char>, b: Seq<char>, c: Seq<char>)
    ensures
        eq_ci(a, b) && eq_ci(b, c) ==> eq_ci(a, c),
        eq_ci(a, b) ==> eq_ci(b, a),
{
    if eq_ci(a, b) && eq_ci(b, c) {
        assert forall|i: int| 0 <= i < a.len() implies crate::text::lower(#[trigger] a[i])
            == crate::text::lower(c[i]) by {
            assert(crate::text::lower(a[i]) == crate::text::lower(b[i]));
            assert(crate::text::lower(b[i]) == crate::text::lower(c[i]));
        }
    }
    if eq_ci(a, b) {
        assert forall|i: int| 0 <= i < b.len() implies crate::text::lower(#[trigger] b[i])
            == crate::text::lower(a[i]) by {
            assert(crate::text::lower(a[i]) == crate::text::lower(b[i]));
        }
    }
}

proof fn lemma_lookup_push(s: Pairs, x: (Seq<char>, Seq<char>), m: Seq<char>)
    ensures
        header_lookup(s.push(x), m) == (if header_lookup(s, m) is Some {
            header_lookup(s, m)
        } else if same_header(x.0, m) {
            Some(x.1)
        } else {
            None
        }),
    decreases s.len(),
{
    if s.len() > 0 {
        assert(s.push(x).drop_first() =~= s.drop_first().push(x));
        assert(s.push(x)[0] == s[0]);
        lemma_lookup_push(s.drop_first(), x, m);
    } else {
        assert(s.push(x).drop_first() =~= Seq::<(Seq<char>, Seq<char>)>::empty());
        assert(s.push(x)[0] == x);
        assert(header_lookup(s.push(x).drop_first(), m) is None);
    }
}

pub(crate) proof fn lemma_lookup_without_other(h: Pairs, n: Seq<char>, m: Seq<char>)
    requires
        !eq_ci(n, m),
    ensures
        header_lookup(header_without(h, n), m) == header_lookup(h, m),
    decreases h.len(),
{
    if h.len() > 0 {
        let init = h.drop_last();
        let last = h.last();
        assert(h =~= init.push(last));
        lemma_lookup_without_other(init, n, m);
        lemma_lookup_push(init, last, m);
        if same_header(last.0, n) {
            lemma_eq_ci_trans(last.0, n, m);
            lemma_eq_ci_trans(n, last.0, m);
            lemma_eq_ci_trans(last.0, m, n);
        } else {
            lemma_lookup_push(header_without(init, n), last, m);
        }
    }
}

proof fn lemma_absent_for_equivalent(h: Pairs, n: Seq<char>, m: Seq<char>)
    requires
        eq_ci(n, m),
        !header_present(h, n),
    ensures
        !header_present(h, m),
{
    if header_present(h, m) {
        let i = choose|i: int| 0 <= i < h.len() && same_header(#[trigger] h[i].0, m);
        lemma_eq_ci_trans(n, m, m);
        lemma_eq_ci_trans(h[i].0, m, n);
        lemma_eq_ci_trans(m, n, n);
        assert(same_header(h[i].0, n));
    }
}

/// Reading a header back after writing it gives the written value, whatever
/// the casing of either name.
pub proof fn law_header_read_after_write(h: Pairs, name: Seq<char>, value: Seq<char>, other: Seq<char>)
    requires
        eq_ci(name, other),
    ensures
        header_lookup(header_without(h, name).push((name, value)), other) == Some(value),
{
    lemma_header_without_len(h, name);
    lemma_absent_for_equivalent(header_without(h, name), name, other);
    lemma_header_lookup_present(header_without(h, name), other);
    lemma_lookup_push(header_without(h, name), (name, value), other);
}

/// Writing one header leaves every header of another name as it was.
pub proof fn law_header_write_keeps_others(h: Pairs, name: Seq<char>, value: Seq<char>, other: Seq<char>)
    requires
        !eq_ci(name, other),
    ensures
        header_lookup(header_without(h, name).push((name, value)), other) == header_lookup(h, other),
{
    lemma_lookup_push(header_without(h, name), (name, value), other);
    lemma_lookup_without_other(h, name, other);
}

/// After removing a header, no casing of its name finds a value.
pub proof fn law_header_removed(h: Pairs, name: Seq<char>, other: Seq<char>)
    requires
        eq_ci(name, other),
    ensures
        header_lookup(header_without(h, name), other) is None,
{
    lemma_header_without_len(h, name);
    lemma_absent_for_equivalent(header_without(h, name), name, other);
    lemma_header_lookup_present(header_without(h, name), other);
}

/// After an insert the headers hold exactly one entry of that name (in any
/// casing): the insert replaced every earlier one.
pub proof fn law_header_insert_dedups(h: Pairs, name: Seq<char>, value: Seq<char>)
    ensures
        forall|i: int|
            0 <= i < header_without(h, name).push((name, value)).len() && same_header(
                #[trigger] header_without(h, name).push((name, value))[i].0,
                name,
            ) ==> i == header_without(h, name).len(),
{
    lemma_header_without_len(h, name);
    let w = header_without(h, name);
    assert forall|i: int|
        0 <= i < w.push((name, value)).len() && same_header(#[trigger] w.push((name, value))[i].0, name)
            implies i == w.len() by {
        if i < w.len() {
            assert(w.push((name, value))[i] == w[i]);
            assert(header_present(w, name));
        }
    }
}

proof fn lemma_var_lookup_push(s: Pairs, x: (Seq<char>, Seq<char>), m: Seq<char>)
    ensures
        var_lookup(s.push(x), m) == (if var_lookup(s, m) is Some {
            var_lookup(s, m)
        } else if x.0 == m {
            Some(x.1)
        } else {
            None
        }),
    decreases s.len(),
{
    if s.len() > 0 {
        assert(s.push(x).drop_first() =~= s.drop_first().push(x));
        assert(s.push(x)[0] == s[0]);
        lemma_var_lookup_push(s.drop_first(), x, m);
    } else {
        assert(s.push(x).drop_first() =~= Seq::<(Seq<char>, Seq<char>)>::empty());
        assert(s.push(x)[0] == x);
        assert(var_lookup(s.push(x).drop_first(), m) is None);
    }
}

proof fn lemma_var_without(h: Pairs, n: Seq<char>, m: Seq<char>)
    ensures
        var_lookup(var_without(h, n), m) == (if n == m {
            None
        } else {
            var_lookup(h, m)
        }),
    decreases h.len(),
{
    if h.len() > 0 {
        let init = h.drop_last();
        let last = h.last();
        assert(h =~= init.push(last));
        lemma_var_without(init, n, m);
        lemma_var_lookup_push(init, last, m);
        if last.0 != n {
            lemma_var_lookup_push(var_without(init, n), last, m);
        }
    }
}

/// A session variable reads back as last set; setting or removing one
/// variable leaves the others as they were.
pub proof fn law_var_read_after_write(v: Pairs, name: Seq<char>, value: Seq<char>, other: Seq<char>)
    ensures
        var_lookup(var_without(v, name).push((name, value)), name) == Some(value),
        other != name ==> var_lookup(var_without(v, name).push((name, value)), other) == var_lookup(v, other),
        var_lookup(var_without(v, name), name) is None,
        other != name ==> var_lookup(var_without(v, name), other) == var_lookup(v, other),
{
    lemma_var_without(v, name, name);
    lemma_var_without(v, name, other);
    lemma_var_lookup_push(var_without(v, name), (name, value), name);
    lemma_var_lookup_push(var_without(v, name), (name, value), other);
}

/// HTTP headers with case-insensitive name semantics. Names keep their
/// original casing, but lookup, insertion dedup, and removal all compare names
/// case-insensitively.
#[derive(Debug)]
pub struct Headers {
    entries: Vec<(String, String)>,
}

impl View for Headers {
    type V = Pairs;

    closed spec fn view(&self) -> Pairs {
        self.entries.deep_view()
    }
}

/// Copy of a list of string pairs.
fn copy_pairs(v: &Vec<(String, String)>) -> (r: Vec<(String, String)>)
    ensures
        r.deep_view() == v.deep_view(),
{
    let mut r: Vec<(String, String)> = Vec::new();
    let mut i: usize = 0;
    while i < v.len()
        invariant
            i <= v@.len(),
            r.deep_view() =~= v.deep_view().take(i as int),
        decreases v@.len() - i,
    {
        let k = v[i].0.clone();
        let x = v[i].1.clone();
        let ghost prev = r.deep_view();
        r.push((k, x));
        assert(r.deep_view() =~= prev.push(v.deep_view()[i as int]));
        assert(v.deep_view().take(i + 1) =~= v.deep_view().take(i as int).push(
            v.deep_view()[i as int],
        ));
        i += 1;
    }
    r
}

/// Pairs of `v` whose name does not match `name` (case-insensitively when
/// `ci`, exactly otherwise).
fn pairs_without(v: &Vec<(String, String)>, name: &str, ci: bool) -> (r: Vec<(String, String)>)
    ensures
        ci ==> r.deep_view() == header_without(v.deep_view(), name@),
        !ci ==> r.deep_view() == var_without(v.deep_view(), name@),
{
    let n = chars_of(name);
    let mut r: Vec<(String, String)> = Vec::new();
    let mut i: usize = 0;
    while i < v.len()
        invariant
            i <= v@.len(),
            n@ == name@,
            ci ==> r.deep_view() == header_without(v.deep_view().take(i as int), name@),
            !ci ==> r.deep_view() == var_without(v.deep_view().take(i as int), name@),
        decreases v@.len() - i,
    {
        let k = chars_of(v[i].0.as_str());
        let matched = if ci {
            eq_ci_exec(k.as_slice(), n.as_slice())
        } else {
            same(k.as_slice(), n.as_slice())
        };
        assert(v.deep_view().take(i + 1).drop_last() =~= v.deep_view().take(i as int));
        assert(v.deep_view().take(i + 1).last() == v.deep_view()[i as int]);
        if !matched {
            let a = v[i].0.clone();
            let b = v[i].1.clone();
            r.push((a, b));
            assert(r.deep_view() =~= (if ci {
                header_without(v.deep_view().take(i as int), name@)
            } else {
                var_without(v.deep_view().take(i as int), name@)
            }).push(v.deep_view()[i as int]));
        }
        i += 1;
    }
    assert(v.deep_view().take(v@.len() as int) =~= v.deep_view());
    r
}

impl Headers {
    /// No headers.
    pub fn new() -> (r: Headers)
        ensures
            r@ == Seq::<(Seq<char>, Seq<char>)>::empty(),
    {
        let r = Headers { entries: Vec::new() };
        assert(r@ =~= Seq::<(Seq<char>, Seq<char>)>::empty());
        r
    }

    /// Headers holding exactly the given pairs, in order.
    pub fn from_pairs(pairs: Vec<(String, String)>) -> (r: Headers)
        ensures
            r@ == pairs.deep_view(),
    {
        Headers { entries: pairs }
    }

    /// Value of the header named `name` (case-insensitive).
    pub fn get(&self, name: &str) -> (r: Option<&str>)
        ensures
            r matches Some(v) ==> header_lookup(self@, name@) == Some(v@),
            r is None ==> header_lookup(self@, name@) is None,
    {
        let n = chars_of(name);
        let mut i: usize = 0;
        assert(self@.skip(0) =~= self@);
        while i < self.entries.len()
            invariant
                i <= self@.len(),
                n@ == name@,
                self@ == self.entries.deep_view(),
                header_lookup(self@, name@) == header_lookup(self@.skip(i as int), name@),
            decreases self@.len() - i,
        {
            let k = chars_of(self.entries[i].0.as_str());
            assert(self@.skip(i as int)[0] == self@[i as int]);
            assert(self@.skip(i as int).drop_first() =~= self@.skip(i + 1));
            if eq_ci_exec(k.as_slice(), n.as_slice()) {
                return Some(self.entries[i].1.as_str());
            }
            i += 1;
        }
        None
    }

    /// Replaces any entry whose name matches case-insensitively; the new
    /// name's casing is kept as given.
    pub fn insert(&mut self, name: String, value: String)
        ensures
            final(self)@ == header_without(old(self)@, name@).push((name@, value@)),
    {
        let mut kept = pairs_without(&self.entries, name.as_str(), true);
        kept.push((name, value));
        self.entries = kept;
    }

    /// Removes every entry named `name` (case-insensitive); true if one was removed.
    pub fn remove(&mut self, name: &str) -> (r: bool)
        ensures
            final(self)@ == header_without(old(self)@, name@),
            r == header_present(old(self)@, name@),
    {
        let kept = pairs_without(&self.entries, name, true);
        let removed = kept.len() != self.entries.len();
        proof {
            lemma_header_without_len(self@, name@);
        }
        self.entries = kept;
        removed
    }

    /// Removes every entry.
    pub fn clear(&mut self)
        ensures
            final(self)@ == Seq::<(Seq<char>, Seq<char>)>::empty(),
    {
        self.entries = Vec::new();
        assert(self@ =~= Seq::<(Seq<char>, Seq<char>)>::empty());
    }

    pub fn is_empty(&self) -> (r: bool)
        ensures
            r == (self@.len() == 0),
    {
        self.entries.len() == 0
    }

    pub fn len(&self) -> (r: usize)
        ensures
            r == self@.len(),
    {
        self.entries.len()
    }

    /// The entries, in storage order.
    pub fn iter(&self) -> (r: std::slice::Iter<'_, (String, String)>)
        ensures
            vstd::std_specs::slice::into_iter_elts(r) == self.raw(),
            self.raw().len() == self@.len(),
            forall|i: int|
                0 <= i < self@.len() ==> (#[trigger] self.raw()[i]).0@ == self@[i].0 && self.raw()[i].1@
                    == self@[i].1,
    {
        let sl = self.entries.as_slice();
        let r = sl.iter();
        proof {
            vstd::std_specs::slice::axiom_spec_slice_iter(sl);
        }
        r
    }

    /// The stored pairs themselves.
    pub closed spec fn raw(&self) -> Seq<(String, String)> {
        self.entries@
    }

    /// Entry `i`, in storage order.
    pub fn entry(&self, i: usize) -> (r: (&String, &String))
        requires
            i < self@.len(),
        ensures
            (r.0@, r.1@) == self@[i as int],
    {
        (&self.entries[i].0, &self.entries[i].1)
    }

    /// A copy of the headers.
    pub fn duplicate(&self) -> (r: Headers)
        ensures
            r@ == self@,
    {
        Headers { entries: copy_pairs(&self.entries) }
    }

    /// Entries sorted by name — for deterministic display output.
    pub fn sorted(&self) -> (r: Vec<(&String, &String)>)
        ensures
            r.deep_view() == order::sort_by(self@, by_name()),
    {
        let mut r: Vec<(&String, &String)> = Vec::new();
        let mut i: usize = 0;
        while i < self.entries.len()
            invariant
                i <= self@.len(),
                self@ == self.entries.deep_view(),
                r.deep_view() == order::sort_by(self@.take(i as int), by_name()),
            decreases self@.len() - i,
        {
            let name = &self.entries[i].0;
            let value = &self.entries[i].1;
            let ghost x = self@[i as int];
            assert(x == (name@, value@));
            let key = chars_of(name.as_str());
            let mut j: usize = 0;
            while j < r.len()
                invariant
                    j <= r@.len(),
                    key@ == name@,
                    x == (name@, value@),
                    r.deep_view().len() == r@.len(),
                    forall|k: int| 0 <= k < j ==> !(by_name())(x, #[trigger] r.deep_view()[k]),
                ensures
                    j <= r@.len(),
                    forall|k: int| 0 <= k < j ==> !(by_name())(x, #[trigger] r.deep_view()[k]),
                    j < r@.len() ==> (by_name())(x, r.deep_view()[j as int]),
                decreases r@.len() - j,
            {
                let other = chars_of(r[j].0.as_str());
                assert(r.deep_view()[j as int].0 == r@[j as int].0@);
                if order::lex_lt_exec(key.as_slice(), other.as_slice()) {
                    break;
                }
                j += 1;
            }
            proof {
                order::lemma_insert_at(r.deep_view(), x, by_name(), j as int);
                order::lemma_sort_step(self@, i as int, by_name());
            }
            let ghost prev = r.deep_view();
            r.insert(j, (name, value));
            assert(r.deep_view() =~= prev.insert(j as int, x));
            i += 1;
        }
        assert(self@.take(self@.len() as int) =~= self@);
        r
    }
}

/// The order `Headers::sorted` uses: by name.
pub open spec fn by_name() -> spec_fn((Seq<char>, Seq<char>), (Seq<char>, Seq<char>)) -> bool {
    |a: (Seq<char>, Seq<char>), b: (Seq<char>, Seq<char>)| order::lex_lt(a.0, b.0)
}

/// Headers listed by name (as the state and curl views print them) are all
/// there, each as often as before, in lexicographic order of their names.
pub proof fn law_headers_by_name(h: Pairs)
    ensures
        order::sort_by(h, by_name()).to_multiset() == h.to_multiset(),
        forall|i: int, j: int|
            0 <= i < j < order::sort_by(h, by_name()).len() ==> !order::lex_lt(
                (#[trigger] order::sort_by(h, by_name())[j]).0,
                (#[trigger] order::sort_by(h, by_name())[i]).0,
            ),
{
    order::law_lex_lt_strict();
    order::law_sort_by(h, by_name());
    let s = order::sort_by(h, by_name());
    assert forall|i: int, j: int| 0 <= i < j < s.len() implies !order::lex_lt((#[trigger] s[j]).0, (#[trigger] s[i]).0) by {
        assert(!(by_name())(s[j], s[i]));
    }
}

impl Clone for Headers {
    fn clone(&self) -> (r: Self)
        ensures
            r@ == self@,
    {
        self.duplicate()
    }
}

impl Default for Headers {
    fn default() -> (r: Self)
        ensures
            r@ == Seq::<(Seq<char>, Seq<char>)>::empty(),
    {
        Headers::new()
    }
}

/// Named values kept with the session (`reel var`), also used for a snapshot
/// of the process environment. Names compare exactly.
#[derive(Debug)]
pub struct Vars {
    entries: Vec<(String, String)>,
}

impl View for Vars {
    type V = Pairs;

    closed spec fn view(&self) -> Pairs {
        self.entries.deep_view()
    }
}

impl Vars {
    pub fn new() -> (r: Vars)
        ensures
            r@ == Seq::<(Seq<char>, Seq<char>)>::empty(),
    {
        let r = Vars { entries: Vec::new() };
        assert(r@ =~= Seq::<(Seq<char>, Seq<char>)>::empty());
        r
    }

    /// Variables holding exactly the given pairs, in order.
    pub fn from_pairs(pairs: Vec<(String, String)>) -> (r: Vars)
        ensures
            r@ == pairs.deep_view(),
    {
        Vars { entries: pairs }
    }

    /// Value of the variable named `name`.
    pub fn get(&self, name: &str) -> (r: Option<&str>)
        ensures
            r matches Some(v) ==> var_lookup(self@, name@) == Some(v@),
            r is None ==> var_lookup(self@, name@) is None,
    {
        let n = chars_of(name);
        let mut i: usize = 0;
        assert(self@.skip(0) =~= self@);
        while i < self.entries.len()
            invariant
                i <= self@.len(),
                n@ == name@,
                self@ == self.entries.deep_view(),
                var_lookup(self@, name@) == var_lookup(self@.skip(i as int), name@),
            decreases self@.len() - i,
        {
            let k = chars_of(self.entries[i].0.as_str());
            assert(self@.skip(i as int)[0] == self@[i as int]);
            assert(self@.skip(i as int).drop_first() =~= self@.skip(i + 1));
            if same(k.as_slice(), n.as_slice()) {
                return Some(self.entries[i].1.as_str());
            }
            i += 1;
        }
        None
    }

    /// Sets `name` to `value`, replacing any earlier value.
    pub fn insert(&mut self, name: String, value: String)
        ensures
            final(self)@ == var_without(old(self)@, name@).push((name@, value@)),
    {
        let mut kept = pairs_without(&self.entries, name.as_str(), false);
        kept.push((name, value));
        self.entries = kept;
    }

    /// Removes `name`; true if it was set.
    pub fn remove(&mut self, name: &str) -> (r: bool)
        ensures
            final(self)@ == var_without(old(self)@, name@),
            r == (var_lookup(old(self)@, name@) is Some),
    {
        let present = self.get(name).is_some();
        let kept = pairs_without(&self.entries, name, false);
        self.entries = kept;
        present
    }

    pub fn is_empty(&self) -> (r: bool)
        ensures
            r == (self@.len() == 0),
    {
        self.entries.len() == 0
    }

    pub fn len(&self) -> (r: usize)
        ensures
            r == self@.len(),
    {
        self.entries.len()
    }

    /// Entry `i`, in storage order.
    pub fn entry(&self, i: usize) -> (r: (&String, &String))
        requires
            i < self@.len(),
        ensures
            (r.0@, r.1@) == self@[i as int],
    {
        (&self.entries[i].0, &self.entries[i].1)
    }

    pub fn duplicate(&self) -> (r: Vars)
        ensures
            r@ == self@,
    {
        Vars { entries: copy_pairs(&self.entries) }
    }
}

impl Clone for Vars {
    fn clone(&self) -> (r: Self)
        ensures
            r@ == self@,
    {
        self.duplicate()
    }
}

impl Default for Vars {
    fn default() -> (r: Self)
        ensures
            r@ == Seq::<(Seq<char>, Seq<char>)>::empty(),
    {
        Vars::new()
    }
}

/// Copy of an optional string.
pub fn copy_opt(o: &Option<String>) -> (r: Option<String>)
    ensures
        r.deep_view() == o.deep_view(),
{
    match o {
        Some(s) => Some(s.clone()),
        None => None,
    }
}

/// An HTTP request: the fields the user builds up before sending. The same
/// type is used for history records — each send/then stores a snapshot of
/// the request as actually sent.
#[derive(Debug)]
pub struct Request {
    pub method: Option<String>,
    pub url: Option<String>,
    pub headers: Headers,
    pub body: Option<String>,
    pub timeout_secs: Option<u64>,
}

pub struct RequestV {
    pub method: Option<Seq<char>>,
    pub url: Option<Seq<char>>,
    pub headers: Pairs,
    pub body: Option<Seq<char>>,
    pub timeout_secs: Option<u64>,
}

impl View for Request {
    type V = RequestV;

    open spec fn view(&self) -> RequestV {
        RequestV {
            method: self.method.deep_view(),
            url: self.url.deep_view(),
            headers: self.headers@,
            body: self.body.deep_view(),
            timeout_secs: self.timeout_secs,
        }
    }
}

impl DeepView for Request {
    type V = RequestV;

    open spec fn deep_view(&self) -> RequestV {
        self@
    }
}

impl Request {
    /// A request with nothing set.
    pub fn new() -> (r: Request)
        ensures
            r@ == empty_request(),
    {
        Request {
            method: None,
            url: None,
            headers: Headers::new(),
            body: None,
            timeout_secs: None,
        }
    }

    pub fn duplicate(&self) -> (r: Request)
        ensures
            r@ == self@,
    {
        Request {
            method: copy_opt(&self.method),
            url: copy_opt(&self.url),
            headers: self.headers.duplicate(),
            body: copy_opt(&self.body),
            timeout_secs: self.timeout_secs,
        }
    }
}

pub open spec fn empty_request() -> RequestV {
    RequestV {
        method: None,
        url: None,
        headers: Seq::empty(),
        body: None,
        timeout_secs: None,
    }
}

impl Clone for Request {
    fn clone(&self) -> (r: Self)
        ensures
            r@ == self@,
    {
        self.duplicate()
    }
}

impl Default for Request {
    fn default() -> (r: Self)
        ensures
            r@ == empty_request(),
    {
        Request::new()
    }
}

/// One received response, as stored in the history.
#[derive(Debug)]
pub struct ResponseRecord {
    pub source: Option<String>,
    pub status: u16,
    pub headers: Headers,
    pub body: String,
    /// Raw `Set-Cookie` values, kept apart from `headers` (they cannot be
    /// joined with ", " like other headers).
    pub set_cookies: Vec<String>,
    pub elapsed_ms: u64,
}

pub struct ResponseV {
    pub source: Option<Seq<char>>,
    pub status: u16,
    pub headers: Pairs,
    pub body: Seq<char>,
    pub set_cookies: Seq<Seq<char>>,
    pub elapsed_ms: u64,
}

impl View for ResponseRecord {
    type V = ResponseV;

    open spec fn view(&self) -> ResponseV {
        ResponseV {
            source: self.source.deep_view(),
            status: self.status,
            headers: self.headers@,
            body: self.body@,
            set_cookies: self.set_cookies.deep_view(),
            elapsed_ms: self.elapsed_ms,
        }
    }
}

impl DeepView for ResponseRecord {
    type V = ResponseV;

    open spec fn deep_view(&self) -> ResponseV {
        self@
    }
}

/// Copy of a list of strings.
pub fn copy_strings(v: &Vec<String>) -> (r: Vec<String>)
    ensures
        r.deep_view() == v.deep_view(),
{
    let mut r: Vec<String> = Vec::new();
    let mut i: usize = 0;
    while i < v.len()
        invariant
            i <= v@.len(),
            r.deep_view() =~= v.deep_view().take(i as int),
        decreases v@.len() - i,
    {
        let ghost prev = r.deep_view();
        r.push(v[i].clone());
        assert(r.deep_view() =~= prev.push(v.deep_view()[i as int]));
        assert(v.deep_view().take(i + 1) =~= v.deep_view().take(i as int).push(
            v.deep_view()[i as int],
        ));
        i += 1;
    }
    r
}

impl ResponseRecord {
    /// A record with status 0 and everything else empty.
    pub fn new() -> (r: ResponseRecord)
        ensures
            r@ == empty_response(),
    {
        let r = ResponseRecord {
            source: None,
            status: 0,
            headers: Headers::new(),
            body: String::new(),
            set_cookies: Vec::new(),
            elapsed_ms: 0,
        };
        assert(r.set_cookies.deep_view() =~= Seq::<Seq<char>>::empty());
        r
    }

    pub fn duplicate(&self) -> (r: ResponseRecord)
        ensures
            r@ == self@,
    {
        ResponseRecord {
            source: copy_opt(&self.source),
            status: self.status,
            headers: self.headers.duplicate(),
            body: self.body.clone(),
            set_cookies: copy_strings(&self.set_cookies),
            elapsed_ms: self.elapsed_ms,
        }
    }
}

pub open spec fn empty_response() -> ResponseV {
    ResponseV {
        source: None,
        status: 0,
        headers: Seq::empty(),
        body: Seq::empty(),
        set_cookies: Seq::empty(),
        elapsed_ms: 0,
    }
}

impl Clone for ResponseRecord {
    fn clone(&self) -> (r: Self)
        ensures
            r@ == self@,
    {
        self.duplicate()
    }
}

impl Default for ResponseRecord {
    fn default() -> (r: Self)
        ensures
            r@ == empty_response(),
    {
        ResponseRecord::new()
    }
}

/// A session: the request currently being built plus the request/response
/// history accumulated by send/then, the cookie jar and session variables.
#[derive(Debug)]
pub struct State {
    pub request: Request,
    pub requests: Vec<Request>,
    pub responses: Vec<ResponseRecord>,
    pub cookies: Vec<Cookie>,
    pub vars: Vars,
}

pub struct StateV {
    pub request: RequestV,
    pub requests: Seq<RequestV>,
    pub responses: Seq<ResponseV>,
    pub cookies: Seq<CookieV>,
    pub vars: Pairs,
}

impl View for State {
    type V = StateV;

    open spec fn view(&self) -> StateV {
        StateV {
            request: self.request@,
            requests: self.requests.deep_view(),
            responses: self.responses.deep_view(),
            cookies: self.cookies.deep_view(),
            vars: self.vars@,
        }
    }
}

pub open spec fn empty_state() -> StateV {
    StateV {
        request: empty_request(),
        requests: Seq::empty(),
        responses: Seq::empty(),
        cookies: Seq::empty(),
        vars: Seq::empty(),
    }
}

impl State {
    /// An empty session.
    pub fn new() -> (r: State)
        ensures
            r@ == empty_state(),
    {
        let r = State {
            request: Request::new(),
            requests: Vec::new(),
            responses: Vec::new(),
            cookies: Vec::new(),
            vars: Vars::new(),
        };
        assert(r.requests.deep_view() =~= Seq::<RequestV>::empty());
        assert(r.responses.deep_view() =~= Seq::<ResponseV>::empty());
        assert(r.cookies.deep_view() =~= Seq::<CookieV>::empty());
        r
    }
}

/// Copy of a list of requests.
pub fn copy_requests(v: &Vec<Request>) -> (r: Vec<Request>)
    ensures
        r.deep_view() == v.deep_view(),
{
    let mut r: Vec<Request> = Vec::new();
    let mut i: usize = 0;
    while i < v.len()
        invariant
            i <= v@.len(),
            r.deep_view() == v.deep_view().take(i as int),
        decreases v@.len() - i,
    {
        let ghost prev = r.deep_view();
        let x = v[i].duplicate();
        assert(v.deep_view()[i as int] == v@[i as int]@);
        r.push(x);
        assert(r.deep_view() =~= prev.push(v.deep_view()[i as int]));
        assert(r.deep_view() =~= v.deep_view().take(i + 1));
        i += 1;
    }
    assert(v.deep_view().take(v@.len() as int) =~= v.deep_view());
    r
}

/// Copy of a list of response records.
pub fn copy_responses(v: &Vec<ResponseRecord>) -> (r: Vec<ResponseRecord>)
    ensures
        r.deep_view() == v.deep_view(),
{
    let mut r: Vec<ResponseRecord> = Vec::new();
    let mut i: usize = 0;
    while i < v.len()
        invariant
            i <= v@.len(),
            r.deep_view() == v.deep_view().take(i as int),
        decreases v@.len() - i,
    {
        let ghost prev = r.deep_view();
        let x = v[i].duplicate();
        assert(v.deep_view()[i as int] == v@[i as int]@);
        r.push(x);
        assert(r.deep_view() =~= prev.push(v.deep_view()[i as int]));
        assert(r.deep_view() =~= v.deep_view().take(i + 1));
        i += 1;
    }
    assert(v.deep_view().take(v@.len() as int) =~= v.deep_view());
    r
}

/// Copy of a cookie jar.
pub fn copy_cookies(v: &Vec<Cookie>) -> (r: Vec<Cookie>)
    ensures
        r.deep_view() == v.deep_view(),
{
    let mut r: Vec<Cookie> = Vec::new();
    let mut i: usize = 0;
    while i < v.len()
        invariant
            i <= v@.len(),
            r.deep_view() == v.deep_view().take(i as int),
        decreases v@.len() - i,
    {
        let ghost prev = r.deep_view();
        let x = v[i].duplicate();
        assert(v.deep_view()[i as int] == v@[i as int]@);
        r.push(x);
        assert(r.deep_view() =~= prev.push(v.deep_view()[i as int]));
        assert(r.deep_view() =~= v.deep_view().take(i + 1));
        i += 1;
    }
    assert(v.deep_view().take(v@.len() as int) =~= v.deep_view());
    r
}

impl State {
    pub fn duplicate(&self) -> (r: State)
        ensures
            r@ == self@,
    {
        State {
            request: self.request.duplicate(),
            requests: copy_requests(&self.requests),
            responses: copy_responses(&self.responses),
            cookies: copy_cookies(&self.cookies),
            vars: self.vars.duplicate(),
        }
    }
}

impl Clone for State {
    fn clone(&self) -> (r: Self)
        ensures
            r@ == self@,
    {
        self.duplicate()
    }
}

impl Default for State {
    fn default() -> (r: Self)
        ensures
            r@ == empty_state(),
    {
        State::new()
    }
}

/// Canonical reason phrase for an HTTP status code (IANA registry).
pub open spec fn reason_of(code: u16) -> Option<Seq<char>> {
    match code {
        100 => Some("Continue"@),
        101 => Some("Switching Protocols"@),
        102 => Some("Processing"@),
        200 => Some("OK"@),
        201 => Some("Created"@),
        202 => Some("Accepted"@),
        203 => Some("Non-Authoritative Information"@),
        204 => Some("No Content"@),
        205 => Some("Reset Content"@),
        206 => Some("Partial Content"@),
        207 => Some("Multi-Status"@),
        208 => Some("Already Reported"@),
        226 => Some("IM Used"@),
        300 => Some("Multiple Choices"@),
        301 => Some("Moved Permanently"@),
        302 => Some("Found"@),
        303 => Some("See Other"@),
        304 => Some("Not Modified"@),
        305 => Some("Use Proxy"@),
        307 => Some("Temporary Redirect"@),
        308 => Some("Permanent Redirect"@),
        400 => Some("Bad Request"@),
        401 => Some("Unauthorized"@),
        402 => Some("Payment Required"@),
        403 => Some("Forbidden"@),
        404 => Some("Not Found"@),
        405 => Some("Method Not Allowed"@),
        406 => Some("Not Acceptable"@),
        407 => Some("Proxy Authentication Required"@),
        408 => Some("Request Timeout"@),
        409 => Some("Conflict"@),
        410 => Some("Gone"@),
        411 => Some("Length Required"@),
        412 => Some("Precondition Failed"@),
        413 => Some("Payload Too Large"@),
        414 => Some("URI Too Long"@),
        415 => Some("Unsupported Media Type"@),
        416 => Some("Range Not Satisfiable"@),
        417 => Some("Expectation Failed"@),
        418 => Some("I'm a teapot"@),
        421 => Some("Misdirected Request"@),
        422 => Some("Unprocessable Entity"@),
        423 => Some("Locked"@),
        424 => Some("Failed Dependency"@),
        426 => Some("Upgrade Required"@),
        428 => Some("Precondition Required"@),
        429 => Some("Too Many Requests"@),
        431 => Some("Request Header Fields Too Large"@),
        451 => Some("Unavailable For Legal Reasons"@),
        500 => Some("Internal Server Error"@),
        501 => Some("Not Implemented"@),
        502 => Some("Bad Gateway"@),
        503 => Some("Service Unavailable"@),
        504 => Some("Gateway Timeout"@),
        505 => Some("HTTP Version Not Supported"@),
        506 => Some("Variant Also Negotiates"@),
        507 => Some("Insufficient Storage"@),
        508 => Some("Loop Detected"@),
        510 => Some("Not Extended"@),
        511 => Some("Network Authentication Required"@),
        _ => None,
    }
}

/// Canonical reason phrase for an HTTP status code (e.g. 200 → "OK").
pub fn status_reason(code: u16) -> (r: Option<&'static str>)
    ensures
        r matches Some(s) ==> reason_of(code) == Some(s@),
        r is None ==> reason_of(code) is None,
{
    match code {
        100 => Some("Continue"),
        101 => Some("Switching Protocols"),
        102 => Some("Processing"),
        200 => Some("OK"),
        201 => Some("Created"),
        202 => Some("Accepted"),
        203 => Some("Non-Authoritative Information"),
        204 => Some("No Content"),
        205 => Some("Reset Content"),
        206 => Some("Partial Content"),
        207 => Some("Multi-Status"),
        208 => Some("Already Reported"),
        226 => Some("IM Used"),
        300 => Some("Multiple Choices"),
        301 => Some("Moved Permanently"),
        302 => Some("Found"),
        303 => Some("See Other"),
        304 => Some("Not Modified"),
        305 => Some("Use Proxy"),
        307 => Some("Temporary Redirect"),
        308 => Some("Permanent Redirect"),
        400 => Some("Bad Request"),
        401 => Some("Unauthorized"),
        402 => Some("Payment Required"),
        403 => Some("Forbidden"),
        404 => Some("Not Found"),
        405 => Some("Method Not Allowed"),
        406 => Some("Not Acceptable"),
        407 => Some("Proxy Authentication Required"),
        408 => Some("Request Timeout"),
        409 => Some("Conflict"),
        410 => Some("Gone"),
        411 => Some("Length Required"),
        412 => Some("Precondition Failed"),
        413 => Some("Payload Too Large"),
        414 => Some("URI Too Long"),
        415 => Some("Unsupported Media Type"),
        416 => Some("Range Not Satisfiable"),
        417 => Some("Expectation Failed"),
        418 => Some("I'm a teapot"),
        421 => Some("Misdirected Request"),
        422 => Some("Unprocessable Entity"),
        423 => Some("Locked"),
        424 => Some("Failed Dependency"),
        426 => Some("Upgrade Required"),
        428 => Some("Precondition Required"),
        429 => Some("Too Many Requests"),
        431 => Some("Request Header Fields Too Large"),
        451 => Some("Unavailable For Legal Reasons"),
        500 => Some("Internal Server Error"),
        501 => Some("Not Implemented"),
        502 => Some("Bad Gateway"),
        503 => Some("Service Unavailable"),
        504 => Some("Gateway Timeout"),
        505 => Some("HTTP Version Not Supported"),
        506 => Some("Variant Also Negotiates"),
        507 => Some("Insufficient Storage"),
        508 => Some("Loop Detected"),
        510 => Some("Not Extended"),
        511 => Some("Network Authentication Required"),
        _ => None,
    }
}

} // verus!
