//! Orderings used for deterministic output: lexicographic order of strings
//! and the stable sort that `slice::sort_by` performs.
use vstd::prelude::*;

verus! {

/// `a < b` for strings: lexicographic by character (which for UTF-8 is the
/// byte order that `str`'s `Ord` uses).
pub open spec fn lex_lt(a: Seq<char>, b: Seq<char>) -> bool
    decreases a.len(),
{
    if a.len() == 0 {
        b.len() > 0
    } else if b.len() == 0 {
        false
    } else if a[0] != b[0] {
        a[0] < b[0]
    } else {
        lex_lt(a.drop_first(), b.drop_first())
    }
}

/// `x` inserted into `s` before the first element it must precede.
pub open spec fn insert_sorted<T>(s: Seq<T>, x: T, before: spec_fn(T, T) -> bool) -> Seq<T>
    decreases s.len(),
{
    if s.len() == 0 {
        seq![x]
    } else if before(x, s[0]) {
        seq![x] + s
    } else {
        seq![s[0]] + insert_sorted(s.drop_first(), x, before)
    }
}

/// The stable sort of `s` by the strict order `before`: elements that
/// `before` does not separate keep their relative order.
pub open spec fn sort_by<T>(s: Seq<T>, before: spec_fn(T, T) -> bool) -> Seq<T>
    decreases s.len(),
{
    if s.len() == 0 {
        s
    } else {
        insert_sorted(sort_by(s.drop_last(), before), s.last(), before)
    }
}

pub proof fn lemma_insert_at<T>(s: Seq<T>, x: T, before: spec_fn(T, T) -> bool, j: int)
    requires
        0 <= j <= s.len(),
        forall|k: int| 0 <= k < j ==> !before(x, #[trigger] s[k]),
        j < s.len() ==> before(x, s[j]),
    ensures
        insert_sorted(s, x, before) == s.insert(j, x),
    decreases s.len(),
{
    if s.len() == 0 {
        assert(s.insert(j, x) =~= seq![x]);
    } else if j == 0 {
        assert(s.insert(j, x) =~= seq![x] + s);
    } else {
        let t = s.drop_first();
        assert forall|k: int| 0 <= k < j - 1 implies !before(x, #[trigger] t[k]) by {
            assert(t[k] == s[k + 1]);
        }
        lemma_insert_at(t, x, before, j - 1);
        assert(s.insert(j, x) =~= seq![s[0]] + t.insert(j - 1, x));
    }
}

pub proof fn lemma_sort_step<T>(s: Seq<T>, i: int, before: spec_fn(T, T) -> bool)
    requires
        0 <= i < s.len(),
    ensures
        sort_by(s.take(i + 1), before) == insert_sorted(sort_by(s.take(i), before), s[i], before),
{
    assert(s.take(i + 1).drop_last() =~= s.take(i));
}

/// `before` is a strict order: never both ways, and transitive.
pub open spec fn strict_order<T>(before: spec_fn(T, T) -> bool) -> bool {
    &&& forall|a: T, b: T| #[trigger] before(a, b) ==> !before(b, a)
    &&& forall|a: T, b: T, c: T| #![trigger before(a, b), before(b, c)] before(a, b) && before(b, c) ==> before(a, c)
}

/// No element of `s` must come before an earlier one.
pub open spec fn sorted_by<T>(s: Seq<T>, before: spec_fn(T, T) -> bool) -> bool {
    forall|i: int, j: int| 0 <= i < j < s.len() ==> !before(#[trigger] s[j], #[trigger] s[i])
}

proof fn lemma_insert_sorted_pos<T>(s: Seq<T>, x: T, before: spec_fn(T, T) -> bool) -> (j: int)
    ensures
        0 <= j <= s.len(),
        insert_sorted(s, x, before) == s.insert(j, x),
        forall|k: int| 0 <= k < j ==> !before(x, #[trigger] s[k]),
        j < s.len() ==> before(x, s[j]),
    decreases s.len(),
{
    if s.len() == 0 {
        assert(s.insert(0, x) =~= seq![x]);
        0
    } else if before(x, s[0]) {
        assert(s.insert(0, x) =~= seq![x] + s);
        0
    } else {
        let t = s.drop_first();
        let j1 = lemma_insert_sorted_pos(t, x, before);
        assert(s.insert(j1 + 1, x) =~= seq![s[0]] + t.insert(j1, x));
        assert forall|k: int| 0 <= k < j1 + 1 implies !before(x, #[trigger] s[k]) by {
            if k > 0 {
                assert(s[k] == t[k - 1]);
            }
        }
        if j1 < t.len() {
            assert(s[j1 + 1] == t[j1]);
        }
        j1 + 1
    }
}

proof fn lemma_insert_keeps_sorted<T>(s: Seq<T>, x: T, before: spec_fn(T, T) -> bool)
    requires
        strict_order(before),
        sorted_by(s, before),
    ensures
        sorted_by(insert_sorted(s, x, before), before),
        insert_sorted(s, x, before).to_multiset() == s.to_multiset().insert(x),
{
    let j = lemma_insert_sorted_pos(s, x, before);
    let out = s.insert(j, x);
    assert forall|p: int, q: int| 0 <= p < q < out.len() implies !before(#[trigger] out[q], #[trigger] out[p]) by {
        if q < j {
            assert(out[q] == s[q] && out[p] == s[p]);
        } else if q == j {
            assert(out[p] == s[p]);
        } else if p < j {
            assert(out[q] == s[q - 1] && out[p] == s[p]);
        } else if p == j {
            assert(out[q] == s[q - 1]);
            assert(before(x, s[j]));
            if q - 1 > j {
                assert(!before(s[q - 1], s[j]));
            }
        } else {
            assert(out[q] == s[q - 1] && out[p] == s[p - 1]);
        }
    }
    vstd::seq_lib::to_multiset_insert(s, j, x);
}

/// Sorting keeps every element exactly as often as it occurs (the result is
/// a permutation) and, for a strict order, leaves no element behind one it
/// must precede.
pub proof fn law_sort_by<T>(s: Seq<T>, before: spec_fn(T, T) -> bool)
    requires
        strict_order(before),
    ensures
        sort_by(s, before).to_multiset() == s.to_multiset(),
        sort_by(s, before).len() == s.len(),
        sorted_by(sort_by(s, before), before),
    decreases s.len(),
{
    if s.len() == 0 {
    } else {
        let init = s.drop_last();
        law_sort_by(init, before);
        lemma_insert_keeps_sorted(sort_by(init, before), s.last(), before);
        assert(s =~= init.push(s.last()));
        vstd::seq_lib::to_multiset_build(init, s.last());
        vstd::seq_lib::to_multiset_len(sort_by(s, before));
        vstd::seq_lib::to_multiset_len(s);
    }
}

proof fn lemma_lex_lt_asym(a: Seq<char>, b: Seq<char>)
    ensures
        lex_lt(a, b) ==> !lex_lt(b, a),
    decreases a.len(),
{
    if a.len() > 0 && b.len() > 0 && a[0] == b[0] {
        lemma_lex_lt_asym(a.drop_first(), b.drop_first());
    }
}

proof fn lemma_lex_lt_trans(a: Seq<char>, b: Seq<char>, c: Seq<char>)
    ensures
        lex_lt(a, b) && lex_lt(b, c) ==> lex_lt(a, c),
    decreases a.len(),
{
    if a.len() > 0 && b.len() > 0 && c.len() > 0 && a[0] == b[0] && b[0] == c[0] {
        lemma_lex_lt_trans(a.drop_first(), b.drop_first(), c.drop_first());
    }
}

/// The lexicographic order of strings is a strict order.
pub proof fn law_lex_lt_strict()
    ensures
        forall|a: Seq<char>, b: Seq<char>| #[trigger] lex_lt(a, b) ==> !lex_lt(b, a),
        forall|a: Seq<char>, b: Seq<char>, c: Seq<char>|
            #![trigger lex_lt(a, b), lex_lt(b, c)]
            lex_lt(a, b) && lex_lt(b, c) ==> lex_lt(a, c),
        forall|a: Seq<char>| !#[trigger] lex_lt(a, a),
{
    assert forall|a: Seq<char>, b: Seq<char>| #[trigger] lex_lt(a, b) implies !lex_lt(b, a) by {
        lemma_lex_lt_asym(a, b);
    }
    assert forall|a: Seq<char>, b: Seq<char>, c: Seq<char>|
        #![trigger lex_lt(a, b), lex_lt(b, c)]
        lex_lt(a, b) && lex_lt(b, c) implies lex_lt(a, c) by {
        lemma_lex_lt_trans(a, b, c);
    }
    assert forall|a: Seq<char>| !#[trigger] lex_lt(a, a) by {
        lemma_lex_lt_asym(a, a);
    }
}

/// Executable `lex_lt`.
pub fn lex_lt_exec(a: &[char], b: &[char]) -> (r: bool)
    ensures
        r == lex_lt(a@, b@),
{
    let mut i: usize = 0;
    assert(a@.skip(0) =~= a@);
    assert(b@.skip(0) =~= b@);
    while i < a.len() && i < b.len() && a[i] == b[i]
        invariant
            i <= a@.len(),
            i <= b@.len(),
            lex_lt(a@, b@) == lex_lt(a@.skip(i as int), b@.skip(i as int)),
        decreases a@.len() - i,
    {
        assert(a@.skip(i as int).drop_first() =~= a@.skip(i + 1));
        assert(b@.skip(i as int).drop_first() =~= b@.skip(i + 1));
        i += 1;
    }
    if i == a.len() {
        i < b.len()
    } else if i == b.len() {
        false
    } else {
        a[i] < b[i]
    }
}

} // verus!
