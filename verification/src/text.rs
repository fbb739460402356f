//! Character-level text primitives shared by the parsers: a model of the
//! standard string operations the library relies on (whitespace trimming,
//! prefix stripping, substring search, ASCII case folding, decimal numbers),
//! each stated over `Seq<char>` and implemented on `Vec<char>`.
use vstd::prelude::*;

verus! {

// ---------------------------------------------------------------------------
// Specifications
// ---------------------------------------------------------------------------

/// Unicode `White_Space` (what `char::is_whitespace` and `str::trim` use).
pub open spec fn is_ws(c: char) -> bool {
    ||| ('\u{9}' <= c && c <= '\u{d}')
    ||| c == ' '
    ||| c == '\u{85}'
    ||| c == '\u{a0}'
    ||| c == '\u{1680}'
    ||| ('\u{2000}' <= c && c <= '\u{200a}')
    ||| c == '\u{2028}'
    ||| c == '\u{2029}'
    ||| c == '\u{202f}'
    ||| c == '\u{205f}'
    ||| c == '\u{3000}'
}

pub open spec fn is_digit(c: char) -> bool {
    '0' <= c && c <= '9'
}

pub open spec fn is_alnum(c: char) -> bool {
    ||| is_digit(c)
    ||| ('a' <= c && c <= 'z')
    ||| ('A' <= c && c <= 'Z')
}

/// ASCII lowercase mapping of one character (non-ASCII letters unchanged).
pub open spec fn lower(c: char) -> char {
    if 'A' <= c && c <= 'Z' {
        ((c as u32) + 32) as char
    } else {
        c
    }
}

/// ASCII uppercase mapping of one character.
pub open spec fn upper(c: char) -> char {
    if 'a' <= c && c <= 'z' {
        ((c as u32) - 32) as char
    } else {
        c
    }
}

pub open spec fn lower_seq(s: Seq<char>) -> Seq<char> {
    Seq::new(s.len(), |i: int| lower(s[i]))
}

pub open spec fn upper_seq(s: Seq<char>) -> Seq<char> {
    Seq::new(s.len(), |i: int| upper(s[i]))
}

/// `str::eq_ignore_ascii_case`.
pub open spec fn eq_ci(a: Seq<char>, b: Seq<char>) -> bool {
    &&& a.len() == b.len()
    &&& forall|i: int| 0 <= i < a.len() ==> lower(#[trigger] a[i]) == lower(b[i])
}

pub open spec fn matches_at(s: Seq<char>, p: Seq<char>, i: int) -> bool {
    &&& 0 <= i
    &&& i + p.len() <= s.len()
    &&& s.subrange(i, i + p.len()) == p
}

/// Index of the first occurrence of `p` in `s` at or after `i`.
pub open spec fn find_from(s: Seq<char>, p: Seq<char>, i: int) -> Option<int>
    decreases s.len() + 1 - i,
{
    if i < 0 || i + p.len() > s.len() {
        None
    } else if s.subrange(i, i + p.len()) == p {
        Some(i)
    } else {
        find_from(s, p, i + 1)
    }
}

/// `str::find` with a string pattern.
pub open spec fn find(s: Seq<char>, p: Seq<char>) -> Option<int> {
    find_from(s, p, 0)
}

pub open spec fn starts_with(s: Seq<char>, p: Seq<char>) -> bool {
    p.len() <= s.len() && s.subrange(0, p.len() as int) == p
}

pub open spec fn ends_with(s: Seq<char>, p: Seq<char>) -> bool {
    p.len() <= s.len() && s.subrange(s.len() - p.len(), s.len() as int) == p
}

/// `str::strip_prefix`.
pub open spec fn strip_prefix(s: Seq<char>, p: Seq<char>) -> Option<Seq<char>> {
    if starts_with(s, p) {
        Some(s.subrange(p.len() as int, s.len() as int))
    } else {
        None
    }
}

/// `str::strip_suffix`.
pub open spec fn strip_suffix(s: Seq<char>, p: Seq<char>) -> Option<Seq<char>> {
    if ends_with(s, p) {
        Some(s.subrange(0, s.len() - p.len()))
    } else {
        None
    }
}

/// First index at or after `i` that is not whitespace (or `s.len()`).
pub open spec fn skip_ws(s: Seq<char>, i: int) -> int
    decreases s.len() - i,
{
    if 0 <= i < s.len() && is_ws(s[i]) {
        skip_ws(s, i + 1)
    } else {
        i
    }
}

/// End of `s.take(j)` once trailing whitespace is removed.
pub open spec fn back_ws(s: Seq<char>, j: int) -> int
    decreases j,
{
    if 0 < j <= s.len() && is_ws(s[j - 1]) {
        back_ws(s, j - 1)
    } else {
        j
    }
}

/// `str::trim_start`.
pub open spec fn trim_start(s: Seq<char>) -> Seq<char> {
    s.subrange(skip_ws(s, 0), s.len() as int)
}

/// `str::trim_end`.
pub open spec fn trim_end(s: Seq<char>) -> Seq<char> {
    s.subrange(0, back_ws(s, s.len() as int))
}

/// `str::trim`.
pub open spec fn trim(s: Seq<char>) -> Seq<char> {
    trim_end(trim_start(s))
}

pub open spec fn digit_char(d: nat) -> char {
    (('0' as nat) + d) as char
}

pub open spec fn digit_value(c: char) -> nat {
    ((c as nat) - ('0' as nat)) as nat
}

/// Decimal rendering of a natural number (`to_string` of an unsigned integer).
pub open spec fn decimal(n: nat) -> Seq<char>
    decreases n,
{
    if n < 10 {
        seq![digit_char(n)]
    } else {
        decimal(n / 10).push(digit_char(n % 10))
    }
}

/// Decimal rendering of an integer (`to_string` of a signed integer).
pub open spec fn signed_decimal(i: int) -> Seq<char> {
    if i < 0 {
        seq!['-'] + decimal((-i) as nat)
    } else {
        decimal(i as nat)
    }
}

pub open spec fn all_digits(s: Seq<char>) -> bool {
    forall|i: int| 0 <= i < s.len() ==> is_digit(#[trigger] s[i])
}

pub open spec fn digits_value(s: Seq<char>) -> nat
    decreases s.len(),
{
    if s.len() == 0 {
        0
    } else {
        digits_value(s.drop_last()) * 10 + digit_value(s.last())
    }
}

/// `str::parse` for an unsigned integer type whose largest value is `max`:
/// an optional `+`, then one or more ASCII digits, in range.
pub open spec fn parse_unsigned(s: Seq<char>, max: nat) -> Option<nat> {
    let t = if s.len() > 0 && s[0] == '+' {
        s.drop_first()
    } else {
        s
    };
    if t.len() > 0 && all_digits(t) && digits_value(t) <= max {
        Some(digits_value(t))
    } else {
        None
    }
}

/// `str::parse` for a signed integer type with range `-neg_max ..= max`.
pub open spec fn parse_signed(s: Seq<char>, neg_max: nat, max: nat) -> Option<int> {
    if s.len() > 0 && s[0] == '-' {
        let t = s.drop_first();
        if t.len() > 0 && all_digits(t) && digits_value(t) <= neg_max {
            Some(-(digits_value(t) as int))
        } else {
            None
        }
    } else {
        match parse_unsigned(s, max) {
            Some(v) => Some(v as int),
            None => None,
        }
    }
}

/// `str::split(c)`: the pieces between occurrences of `c`.
pub open spec fn split_on(s: Seq<char>, c: char) -> Seq<Seq<char>>
    decreases s.len(),
{
    match find(s, seq![c]) {
        Some(i) => if 0 <= i < s.len() {
            seq![s.take(i)] + split_on(s.skip(i + 1), c)
        } else {
            seq![s]
        },
        None => seq![s],
    }
}

/// `str::split_once(c)`.
pub open spec fn split_once(s: Seq<char>, c: char) -> Option<(Seq<char>, Seq<char>)> {
    match find(s, seq![c]) {
        Some(i) => Some((s.take(i), s.skip(i + 1))),
        None => None,
    }
}

/// Index of the last `c` before position `j`.
pub open spec fn rfind_before(s: Seq<char>, c: char, j: int) -> Option<int>
    decreases j,
{
    if j <= 0 || j > s.len() {
        None
    } else if s[j - 1] == c {
        Some(j - 1)
    } else {
        rfind_before(s, c, j - 1)
    }
}

/// `str::rfind(c)`.
pub open spec fn rfind(s: Seq<char>, c: char) -> Option<int> {
    rfind_before(s, c, s.len() as int)
}

/// Position of the first character at or after `i` that is not `c`.
pub open spec fn skip_char(s: Seq<char>, c: char, i: int) -> int
    decreases s.len() - i,
{
    if 0 <= i < s.len() && s[i] == c {
        skip_char(s, c, i + 1)
    } else {
        i
    }
}

/// `str::trim_start_matches(c)`.
pub open spec fn trim_start_char(s: Seq<char>, c: char) -> Seq<char> {
    s.skip(skip_char(s, c, 0))
}

// ---------------------------------------------------------------------------
// Lemmas
// ---------------------------------------------------------------------------

pub proof fn lemma_digits_value_monotone(s: Seq<char>, k: int)
    requires
        0 <= k <= s.len(),
        all_digits(s),
    ensures
        digits_value(s.take(k)) <= digits_value(s),
    decreases s.len() - k,
{
    if k < s.len() {
        lemma_digits_value_monotone(s, k + 1);
        assert(s.take(k + 1).drop_last() =~= s.take(k));
    } else {
        assert(s.take(k) =~= s);
    }
}

pub proof fn lemma_find_from_result(s: Seq<char>, p: Seq<char>, i: int)
    requires
        0 <= i,
    ensures
        find_from(s, p, i) matches Some(k) ==> (i <= k && matches_at(s, p, k) && forall|j: int|
            i <= j < k ==> !matches_at(s, p, j)),
        find_from(s, p, i) is None ==> forall|j: int| i <= j ==> !matches_at(s, p, j),
    decreases s.len() + 1 - i,
{
    if i + p.len() <= s.len() && s.subrange(i, i + p.len()) != p {
        lemma_find_from_result(s, p, i + 1);
    }
}

pub proof fn lemma_skip_ws_bounds(s: Seq<char>, i: int)
    requires
        0 <= i <= s.len(),
    ensures
        i <= skip_ws(s, i) <= s.len(),
    decreases s.len() - i,
{
    if i < s.len() && is_ws(s[i]) {
        lemma_skip_ws_bounds(s, i + 1);
    }
}

pub proof fn lemma_back_ws_bounds(s: Seq<char>, j: int)
    requires
        0 <= j <= s.len(),
    ensures
        0 <= back_ws(s, j) <= j,
    decreases j,
{
    if 0 < j && is_ws(s[j - 1]) {
        lemma_back_ws_bounds(s, j - 1);
    }
}

/// Trimming never lengthens a string.
pub proof fn lemma_trim_len(s: Seq<char>)
    ensures
        trim_start(s).len() <= s.len(),
        trim_end(s).len() <= s.len(),
        trim(s).len() <= s.len(),
{
    lemma_skip_ws_bounds(s, 0);
    lemma_back_ws_bounds(s, s.len() as int);
    let t = trim_start(s);
    lemma_back_ws_bounds(t, t.len() as int);
}

pub proof fn lemma_digit_roundtrip(d: nat)
    requires
        d < 10,
    ensures
        is_digit(digit_char(d)),
        digit_value(digit_char(d)) == d,
{
    assert((48 + d) as char as nat == 48 + d);
}

/// A number's decimal text is all digits, never empty, and reads back as
/// the number.
pub proof fn lemma_decimal_digits(n: nat)
    ensures
        decimal(n).len() > 0,
        all_digits(decimal(n)),
        digits_value(decimal(n)) == n,
    decreases n,
{
    if n < 10 {
        lemma_digit_roundtrip(n);
        assert(decimal(n).drop_last() =~= Seq::<char>::empty());
        assert(digits_value(decimal(n)) == digits_value(Seq::<char>::empty()) * 10 + digit_value(
            digit_char(n),
        ));
    } else {
        lemma_decimal_digits(n / 10);
        lemma_digit_roundtrip(n % 10);
        let s = decimal(n / 10);
        assert(decimal(n).drop_last() =~= s);
        assert(decimal(n).last() == digit_char(n % 10));
        assert(digits_value(decimal(n)) == digits_value(s) * 10 + digit_value(digit_char(n % 10)));
        assert(n == (n / 10) * 10 + n % 10);
        assert forall|i: int| 0 <= i < decimal(n).len() implies is_digit(#[trigger] decimal(n)[i]) by {
            if i < s.len() {
                assert(decimal(n)[i] == s[i]);
            }
        }
    }
}

/// Parsing a number's decimal text gives the number back.
pub proof fn lemma_decimal_parse(n: nat, max: nat)
    requires
        n <= max,
    ensures
        parse_unsigned(decimal(n), max) == Some(n),
{
    lemma_decimal_digits(n);
    assert(is_digit(decimal(n)[0]));
}

/// The first occurrence of a single character.
pub proof fn lemma_find_single(s: Seq<char>, c: char, k: int)
    requires
        0 <= k < s.len(),
        s[k] == c,
        forall|j: int| 0 <= j < k ==> s[j] != c,
    ensures
        find(s, seq![c]) == Some(k),
{
    lemma_find_single_from(s, c, k, 0);
}

proof fn lemma_find_single_from(s: Seq<char>, c: char, k: int, i: int)
    requires
        0 <= i <= k < s.len(),
        s[k] == c,
        forall|j: int| 0 <= j < k ==> s[j] != c,
    ensures
        find_from(s, seq![c], i) == Some(k),
    decreases k - i,
{
    if i < k {
        assert(s.subrange(i, i + 1) =~= seq![s[i]]);
        assert(s.subrange(i, i + 1) != seq![c]) by {
            if s.subrange(i, i + 1) == seq![c] {
                assert(s.subrange(i, i + 1)[0] == c);
            }
        }
        lemma_find_single_from(s, c, k, i + 1);
    } else {
        assert(s.subrange(k, k + 1) =~= seq![c]);
    }
}

/// Splitting never yields an empty list of pieces.
pub proof fn lemma_split_on_nonempty(s: Seq<char>, c: char)
    ensures
        split_on(s, c).len() >= 1,
{
    match find(s, seq![c]) {
        Some(i) => if 0 <= i < s.len() {
            assert(split_on(s, c) == seq![s.take(i)] + split_on(s.skip(i + 1), c));
        },
        None => {},
    }
}

/// Splitting a string with one more separator and a separator-free tail
/// yields one more piece, the tail.
pub proof fn lemma_split_on_append(s: Seq<char>, c: char, t: Seq<char>)
    requires
        forall|j: int| 0 <= j < t.len() ==> t[j] != c,
    ensures
        split_on(s + seq![c] + t, c) == split_on(s, c).push(t),
    decreases s.len(),
{
    let u = s + seq![c] + t;
    lemma_find_from_result(s, seq![c], 0);
    lemma_find_from_result(t, seq![c], 0);
    match find(t, seq![c]) {
        Some(k) => {
            assert(t.subrange(k, k + 1)[0] == t[k]);
        },
        None => {},
    }
    assert(split_on(t, c) == seq![t]);
    match find(s, seq![c]) {
        Some(k) => {
            assert(s.subrange(k, k + 1)[0] == s[k]);
            assert forall|j: int| 0 <= j < k implies u[j] != c by {
                assert(u[j] == s[j]);
                if s[j] == c {
                    assert(s.subrange(j, j + 1) =~= seq![c]);
                    assert(matches_at(s, seq![c], j));
                }
            }
            lemma_find_single(u, c, k);
            let rest = s.skip(k + 1);
            lemma_split_on_append(rest, c, t);
            assert(u.take(k) =~= s.take(k));
            assert(u.skip(k + 1) =~= rest + seq![c] + t);
            assert(split_on(s, c) == seq![s.take(k)] + split_on(rest, c));
            assert(split_on(u, c) == seq![u.take(k)] + split_on(u.skip(k + 1), c));
            assert(split_on(u, c) =~= split_on(s, c).push(t));
        },
        None => {
            assert forall|j: int| 0 <= j < s.len() implies u[j] != c by {
                assert(u[j] == s[j]);
                if s[j] == c {
                    assert(s.subrange(j, j + 1) =~= seq![c]);
                    assert(matches_at(s, seq![c], j));
                }
            }
            lemma_find_single(u, c, s.len() as int);
            assert(u.take(s.len() as int) =~= s);
            assert(u.skip(s.len() as int + 1) =~= t);
            assert(split_on(u, c) =~= seq![s] + seq![t]);
            assert(split_on(s, c) == seq![s]);
            assert(split_on(u, c) =~= split_on(s, c).push(t));
        },
    }
}

/// Trimming the end never removes a character that is not whitespace, nor
/// anything before it.
pub proof fn lemma_back_ws_keeps(s: Seq<char>, j: int, k: int)
    requires
        0 <= k < j <= s.len(),
        !is_ws(s[k]),
    ensures
        back_ws(s, j) > k,
    decreases j,
{
    if j - 1 > k && is_ws(s[j - 1]) {
        lemma_back_ws_keeps(s, j - 1, k);
    }
}

// ---------------------------------------------------------------------------
// Executable primitives
// ---------------------------------------------------------------------------

/// Appends one character to a string (`String::push`).
#[verifier::external_body]
pub fn push_char(s: &mut String, c: char)
    ensures
        final(s)@ == old(s)@.push(c),
{
    s.push(c);
}

/// The characters of a string slice, in order.
pub fn chars_of(s: &str) -> (v: Vec<char>)
    ensures
        v@ == s@,
{
    let mut v: Vec<char> = Vec::new();
    for c in it: s.chars()
        invariant
            v@ == it.seq().take(it.index() as int),
    {
        v.push(c);
    }
    v
}

/// A string holding the given characters.
pub fn string_of(v: &[char]) -> (s: String)
    ensures
        s@ == v@,
{
    let mut s = String::new();
    let mut i: usize = 0;
    while i < v.len()
        invariant
            i <= v@.len(),
            s@ == v@.take(i as int),
        decreases v@.len() - i,
    {
        push_char(&mut s, v[i]);
        assert(v@.take(i as int).push(v@[i as int]) =~= v@.take(i + 1));
        i += 1;
    }
    assert(v@.take(v@.len() as int) =~= v@);
    s
}

/// A string holding the characters of a literal.
pub fn string_from(s: &str) -> (r: String)
    ensures
        r@ == s@,
{
    let v = chars_of(s);
    string_of(v.as_slice())
}

/// Copy of `v[from..to]`.
pub fn slice_chars(v: &[char], from: usize, to: usize) -> (r: Vec<char>)
    requires
        from <= to <= v@.len(),
    ensures
        r@ == v@.subrange(from as int, to as int),
{
    let mut r: Vec<char> = Vec::new();
    let mut i = from;
    while i < to
        invariant
            from <= i <= to,
            to <= v@.len(),
            r@ == v@.subrange(from as int, i as int),
        decreases to - i,
    {
        r.push(v[i]);
        assert(v@.subrange(from as int, i as int).push(v@[i as int]) =~= v@.subrange(
            from as int,
            i + 1,
        ));
        i += 1;
    }
    r
}

/// Copy of `v[from..]`.
pub fn tail(v: &[char], from: usize) -> (r: Vec<char>)
    requires
        from <= v@.len(),
    ensures
        r@ == v@.subrange(from as int, v@.len() as int),
{
    slice_chars(v, from, v.len())
}

/// Appends `b` to `a`.
pub fn extend(a: &mut Vec<char>, b: &[char])
    ensures
        final(a)@ == old(a)@ + b@,
{
    let mut i: usize = 0;
    while i < b.len()
        invariant
            i <= b@.len(),
            a@ == old(a)@ + b@.take(i as int),
        decreases b@.len() - i,
    {
        a.push(b[i]);
        assert(old(a)@ + b@.take(i as int) + seq![b@[i as int]] =~= old(a)@ + b@.take(i + 1));
        i += 1;
    }
    assert(b@.take(b@.len() as int) =~= b@);
}

/// Concatenation of two character sequences.
pub fn concat(a: &[char], b: &[char]) -> (r: Vec<char>)
    ensures
        r@ == a@ + b@,
{
    let mut r = slice_chars(a, 0, a.len());
    assert(a@.subrange(0, a@.len() as int) =~= a@);
    extend(&mut r, b);
    r
}

/// Whether two character sequences are equal.
pub fn same(a: &[char], b: &[char]) -> (r: bool)
    ensures
        r == (a@ == b@),
{
    if a.len() != b.len() {
        return false;
    }
    let mut i: usize = 0;
    while i < a.len()
        invariant
            i <= a@.len(),
            a@.len() == b@.len(),
            forall|j: int| 0 <= j < i ==> a@[j] == b@[j],
        decreases a@.len() - i,
    {
        if a[i] != b[i] {
            return false;
        }
        i += 1;
    }
    assert(a@ =~= b@);
    true
}

/// Whether `p` occurs in `s` at position `i`.
pub fn matches_at_exec(s: &[char], p: &[char], i: usize) -> (r: bool)
    ensures
        r == matches_at(s@, p@, i as int),
{
    if i > s.len() || p.len() > s.len() - i {
        return false;
    }
    let mut k: usize = 0;
    while k < p.len()
        invariant
            k <= p@.len(),
            i + p@.len() <= s@.len(),
            forall|j: int| 0 <= j < k ==> s@[i + j] == p@[j],
        decreases p@.len() - k,
    {
        assert(i + k < s@.len());
        assert(s@.len() == s.len());
        if s[i + k] != p[k] {
            assert(s@.subrange(i as int, i + p@.len())[k as int] != p@[k as int]);
            return false;
        }
        k += 1;
    }
    assert(s@.subrange(i as int, i + p@.len()) =~= p@);
    true
}

/// `str::starts_with`.
pub fn starts_with_exec(s: &[char], p: &[char]) -> (r: bool)
    ensures
        r == starts_with(s@, p@),
{
    matches_at_exec(s, p, 0)
}

/// `str::ends_with`.
pub fn ends_with_exec(s: &[char], p: &[char]) -> (r: bool)
    ensures
        r == ends_with(s@, p@),
{
    if p.len() > s.len() {
        return false;
    }
    matches_at_exec(s, p, s.len() - p.len())
}

/// `str::find` starting at `from`.
pub fn find_from_exec(s: &[char], p: &[char], from: usize) -> (r: Option<usize>)
    ensures
        r matches Some(k) ==> find_from(s@, p@, from as int) == Some(k as int),
        r is None ==> find_from(s@, p@, from as int) is None,
{
    let mut i = from;
    while i <= s.len() && p.len() <= s.len() - i
        invariant
            from <= i,
            find_from(s@, p@, from as int) == find_from(s@, p@, i as int),
        decreases s@.len() + 1 - i,
    {
        if matches_at_exec(s, p, i) {
            return Some(i);
        }
        proof {
            if p@.len() == 0 {
                assert(s@.subrange(i as int, i as int) =~= p@);
            }
        }
        i += 1;
    }
    None
}

/// `str::find`.
pub fn find_exec(s: &[char], p: &[char]) -> (r: Option<usize>)
    ensures
        r matches Some(k) ==> find(s@, p@) == Some(k as int),
        r is None ==> find(s@, p@) is None,
{
    find_from_exec(s, p, 0)
}

/// Index of the first occurrence of `c`.
pub fn find_char(s: &[char], c: char) -> (r: Option<usize>)
    ensures
        r matches Some(k) ==> find(s@, seq![c]) == Some(k as int),
        r is None ==> find(s@, seq![c]) is None,
{
    let p: Vec<char> = vec![c];
    assert(p@ =~= seq![c]);
    find_exec(s, p.as_slice())
}

/// `str::strip_prefix`.
pub fn strip_prefix_exec(s: &[char], p: &[char]) -> (r: Option<Vec<char>>)
    ensures
        r matches Some(t) ==> strip_prefix(s@, p@) == Some(t@),
        r is None ==> strip_prefix(s@, p@) is None,
{
    if starts_with_exec(s, p) {
        Some(tail(s, p.len()))
    } else {
        None
    }
}

/// `str::strip_suffix`.
pub fn strip_suffix_exec(s: &[char], p: &[char]) -> (r: Option<Vec<char>>)
    ensures
        r matches Some(t) ==> strip_suffix(s@, p@) == Some(t@),
        r is None ==> strip_suffix(s@, p@) is None,
{
    if ends_with_exec(s, p) {
        Some(slice_chars(s, 0, s.len() - p.len()))
    } else {
        None
    }
}

/// Whether `c` is whitespace in the sense of `char::is_whitespace`.
pub fn is_ws_exec(c: char) -> (r: bool)
    ensures
        r == is_ws(c),
{
    ('\u{9}' <= c && c <= '\u{d}') || c == ' ' || c == '\u{85}' || c == '\u{a0}' || c
        == '\u{1680}' || ('\u{2000}' <= c && c <= '\u{200a}') || c == '\u{2028}' || c
        == '\u{2029}' || c == '\u{202f}' || c == '\u{205f}' || c == '\u{3000}'
}

pub fn is_digit_exec(c: char) -> (r: bool)
    ensures
        r == is_digit(c),
{
    '0' <= c && c <= '9'
}

pub fn is_alnum_exec(c: char) -> (r: bool)
    ensures
        r == is_alnum(c),
{
    ('0' <= c && c <= '9') || ('a' <= c && c <= 'z') || ('A' <= c && c <= 'Z')
}

/// `str::trim_start`.
pub fn trim_start_exec(s: &[char]) -> (r: Vec<char>)
    ensures
        r@ == trim_start(s@),
{
    let mut i: usize = 0;
    while i < s.len() && is_ws_exec(s[i])
        invariant
            i <= s@.len(),
            skip_ws(s@, 0) == skip_ws(s@, i as int),
        decreases s@.len() - i,
    {
        i += 1;
    }
    tail(s, i)
}

/// `str::trim_end`.
pub fn trim_end_exec(s: &[char]) -> (r: Vec<char>)
    ensures
        r@ == trim_end(s@),
{
    let mut j: usize = s.len();
    while j > 0 && is_ws_exec(s[j - 1])
        invariant
            j <= s@.len(),
            back_ws(s@, s@.len() as int) == back_ws(s@, j as int),
        decreases j,
    {
        j -= 1;
    }
    slice_chars(s, 0, j)
}

/// `str::trim`.
pub fn trim_exec(s: &[char]) -> (r: Vec<char>)
    ensures
        r@ == trim(s@),
{
    let t = trim_start_exec(s);
    trim_end_exec(t.as_slice())
}

pub fn lower_exec(c: char) -> (r: char)
    ensures
        r == lower(c),
{
    if 'A' <= c && c <= 'Z' {
        let b: u8 = c as u8;
        assert(b == c as u32);
        ((b + 32) as char)
    } else {
        c
    }
}

pub fn upper_exec(c: char) -> (r: char)
    ensures
        r == upper(c),
{
    if 'a' <= c && c <= 'z' {
        let b: u8 = c as u8;
        assert(b == c as u32);
        ((b - 32) as char)
    } else {
        c
    }
}

/// `str::to_ascii_lowercase`.
pub fn lower_all(s: &[char]) -> (r: Vec<char>)
    ensures
        r@ == lower_seq(s@),
{
    let mut r: Vec<char> = Vec::new();
    let mut i: usize = 0;
    while i < s.len()
        invariant
            i <= s@.len(),
            r@ =~= lower_seq(s@).take(i as int),
        decreases s@.len() - i,
    {
        r.push(lower_exec(s[i]));
        i += 1;
    }
    r
}

/// `str::to_ascii_uppercase`.
pub fn upper_all(s: &[char]) -> (r: Vec<char>)
    ensures
        r@ == upper_seq(s@),
{
    let mut r: Vec<char> = Vec::new();
    let mut i: usize = 0;
    while i < s.len()
        invariant
            i <= s@.len(),
            r@ =~= upper_seq(s@).take(i as int),
        decreases s@.len() - i,
    {
        r.push(upper_exec(s[i]));
        i += 1;
    }
    r
}

/// `str::eq_ignore_ascii_case`.
pub fn eq_ci_exec(a: &[char], b: &[char]) -> (r: bool)
    ensures
        r == eq_ci(a@, b@),
{
    if a.len() != b.len() {
        return false;
    }
    let mut i: usize = 0;
    while i < a.len()
        invariant
            i <= a@.len(),
            a@.len() == b@.len(),
            forall|j: int| 0 <= j < i ==> lower(#[trigger] a@[j]) == lower(b@[j]),
        decreases a@.len() - i,
    {
        if lower_exec(a[i]) != lower_exec(b[i]) {
            return false;
        }
        i += 1;
    }
    true
}

pub fn digit_char_exec(d: u8) -> (c: char)
    requires
        d < 10,
    ensures
        c == digit_char(d as nat),
        is_digit(c),
{
    (48u8 + d) as char
}

/// Decimal digits of `n`.
pub fn decimal_exec(n: u128) -> (r: Vec<char>)
    ensures
        r@ == decimal(n as nat),
{
    let mut q = n;
    let mut acc: Vec<char> = Vec::new();
    while q >= 10
        invariant
            decimal(n as nat) == decimal(q as nat) + acc@,
        decreases q,
    {
        let c = digit_char_exec((q % 10) as u8);
        let ghost prev = acc@;
        assert(decimal(q as nat) == decimal((q / 10) as nat).push(c));
        acc.insert(0, c);
        assert(decimal((q / 10) as nat) + acc@ =~= decimal((q / 10) as nat).push(c) + prev);
        q = q / 10;
    }
    let mut r: Vec<char> = Vec::new();
    r.push(digit_char_exec(q as u8));
    assert(r@ =~= decimal(q as nat));
    extend(&mut r, acc.as_slice());
    r
}

/// Decimal rendering of a signed number.
pub fn signed_decimal_exec(n: i128) -> (r: Vec<char>)
    ensures
        r@ == signed_decimal(n as int),
{
    if n < 0 {
        let m: u128 = if n == i128::MIN {
            (i128::MAX as u128) + 1
        } else {
            (-n) as u128
        };
        let d = decimal_exec(m);
        let mut r: Vec<char> = vec!['-'];
        extend(&mut r, d.as_slice());
        assert(r@ =~= seq!['-'] + decimal((-n) as nat));
        r
    } else {
        decimal_exec(n as u128)
    }
}

/// Value of a run of ASCII digits, or `None` when the run is empty, holds a
/// non-digit, or exceeds `max`.
fn digits_exec(t: &[char], max: u128) -> (r: Option<u128>)
    requires
        max >= 9,
    ensures
        r matches Some(v) ==> t@.len() > 0 && all_digits(t@) && digits_value(t@) <= max && v
            == digits_value(t@),
        r is None ==> !(t@.len() > 0 && all_digits(t@) && digits_value(t@) <= max),
{
    if t.len() == 0 {
        return None;
    }
    let mut acc: u128 = 0;
    let mut i: usize = 0;
    while i < t.len()
        invariant
            i <= t@.len(),
            all_digits(t@.take(i as int)),
            acc == digits_value(t@.take(i as int)),
            acc <= max,
            max >= 9,
        decreases t@.len() - i,
    {
        let c = t[i];
        if !is_digit_exec(c) {
            assert(!all_digits(t@));
            return None;
        }
        assert(t@.take(i + 1).drop_last() =~= t@.take(i as int));
        assert(t@.take(i + 1).last() == c);
        let d = (c as u32 - 48) as u128;
        assert(d == digit_value(c));
        assert(d <= 9);
        if acc > (max - d) / 10 {
            proof {
                assert(all_digits(t@.take(i + 1)));
                assert(digits_value(t@.take(i + 1)) == acc * 10 + d);
                assert(acc * 10 + d > max) by (nonlinear_arith)
                    requires
                        acc > (max - d) / 10,
                        d <= max,
                ;
                if all_digits(t@) {
                    lemma_digits_value_monotone(t@, i + 1);
                }
            }
            return None;
        }
        assert(acc * 10 + d <= max) by (nonlinear_arith)
            requires
                acc <= (max - d) / 10,
                d <= max,
        ;
        acc = acc * 10 + d;
        i += 1;
    }
    assert(t@.take(t@.len() as int) =~= t@);
    Some(acc)
}

/// `str::parse` for an unsigned integer whose largest value is `max`.
pub fn parse_unsigned_exec(s: &[char], max: u128) -> (r: Option<u128>)
    requires
        max >= 9,
    ensures
        r matches Some(v) ==> parse_unsigned(s@, max as nat) == Some(v as nat),
        r is None ==> parse_unsigned(s@, max as nat) is None,
{
    let t = if s.len() > 0 && s[0] == '+' {
        tail(s, 1)
    } else {
        slice_chars(s, 0, s.len())
    };
    assert(s@.len() > 0 && s@[0] == '+' ==> t@ =~= s@.drop_first());
    assert(!(s@.len() > 0 && s@[0] == '+') ==> t@ =~= s@);
    digits_exec(t.as_slice(), max)
}

/// `str::parse` for a signed integer with range `-neg_max ..= max`.
pub fn parse_signed_exec(s: &[char], neg_max: u128, max: u128) -> (r: Option<i128>)
    requires
        9 <= max,
        9 <= neg_max,
        neg_max <= i128::MAX as u128 + 1,
        max <= i128::MAX as u128,
    ensures
        r matches Some(v) ==> parse_signed(s@, neg_max as nat, max as nat) == Some(v as int),
        r is None ==> parse_signed(s@, neg_max as nat, max as nat) is None,
{
    if s.len() > 0 && s[0] == '-' {
        let t = tail(s, 1);
        assert(t@ =~= s@.drop_first());
        match digits_exec(t.as_slice(), neg_max) {
            Some(v) => {
                if v == (i128::MAX as u128) + 1 {
                    Some(i128::MIN)
                } else {
                    Some(-(v as i128))
                }
            },
            None => None,
        }
    } else {
        match parse_unsigned_exec(s, max) {
            Some(v) => Some(v as i128),
            None => None,
        }
    }
}

/// `str::split_once(c)`.
pub fn split_once_exec(s: &[char], c: char) -> (r: Option<(Vec<char>, Vec<char>)>)
    ensures
        r matches Some((a, b)) ==> split_once(s@, c) == Some((a@, b@)),
        r is None ==> split_once(s@, c) is None,
{
    match find_char(s, c) {
        Some(i) => {
            proof {
                lemma_find_from_result(s@, seq![c], 0);
                assert(matches_at(s@, seq![c], i as int));
                assert(s@.len() == s.len());
            }
            Some((slice_chars(s, 0, i), tail(s, i + 1)))
        },
        None => None,
    }
}

/// `str::split(c)`.
pub fn split_on_exec(s: &[char], c: char) -> (r: Vec<Vec<char>>)
    ensures
        r.deep_view() == split_on(s@, c),
{
    let mut out: Vec<Vec<char>> = Vec::new();
    let mut start: usize = 0;
    assert(s@.skip(0) =~= s@);
    assert(out.deep_view() + split_on(s@, c) =~= split_on(s@, c));
    loop
        invariant
            start <= s@.len(),
            out.deep_view() + split_on(s@.skip(start as int), c) == split_on(s@, c),
        decreases s@.len() - start,
    {
        let rest = tail(s, start);
        assert(rest@ =~= s@.skip(start as int));
        match find_char(rest.as_slice(), c) {
            Some(i) => {
                proof {
                    lemma_find_from_result(rest@, seq![c], 0);
                    assert(matches_at(rest@, seq![c], i as int));
                    assert(s@.len() == s.len());
                }
                let piece = slice_chars(rest.as_slice(), 0, i);
                assert(piece.deep_view() =~= piece@);
                let ghost prev = out.deep_view();
                out.push(piece);
                assert(out.deep_view() =~= prev.push(rest@.take(i as int)));
                assert(rest@.skip(i + 1) =~= s@.skip(start + i + 1));
                assert(prev + split_on(rest@, c) =~= out.deep_view() + split_on(
                    s@.skip(start + i + 1),
                    c,
                ));
                start = start + i + 1;
            },
            None => {
                let ghost prev = out.deep_view();
                assert(rest.deep_view() =~= rest@);
                out.push(rest);
                assert(out.deep_view() =~= prev + split_on(rest@, c));
                return out;
            },
        }
    }
}

pub proof fn lemma_rfind_bounds(s: Seq<char>, c: char, j: int)
    ensures
        rfind_before(s, c, j) matches Some(k) ==> 0 <= k < j && k < s.len() && s[k] == c,
    decreases j,
{
    if 0 < j <= s.len() && s[j - 1] != c {
        lemma_rfind_bounds(s, c, j - 1);
    }
}

/// `str::rfind(c)`.
pub fn rfind_exec(s: &[char], c: char) -> (r: Option<usize>)
    ensures
        r matches Some(k) ==> rfind(s@, c) == Some(k as int) && k < s@.len(),
        r is None ==> rfind(s@, c) is None,
{
    proof {
        lemma_rfind_bounds(s@, c, s@.len() as int);
    }
    let mut j = s.len();
    while j > 0
        invariant
            j <= s@.len(),
            rfind(s@, c) == rfind_before(s@, c, j as int),
        decreases j,
    {
        if s[j - 1] == c {
            return Some(j - 1);
        }
        j -= 1;
    }
    None
}

/// `str::trim_start_matches(c)`.
pub fn trim_start_char_exec(s: &[char], c: char) -> (r: Vec<char>)
    ensures
        r@ == trim_start_char(s@, c),
{
    let mut i: usize = 0;
    while i < s.len() && s[i] == c
        invariant
            i <= s@.len(),
            skip_char(s@, c, 0) == skip_char(s@, c, i as int),
        decreases s@.len() - i,
    {
        i += 1;
    }
    tail(s, i)
}

} // verus!
