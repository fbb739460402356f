//! How a received response becomes a record: repeated header names are
//! joined, and the body is decoded as UTF-8 unless another charset is
//! declared.
use vstd::prelude::*;
use vstd::string::StringExecFns;

use crate::model::Pairs;
use crate::text::{
    chars_of, lower_all, lower_seq, same, split_on, split_on_exec, string_of, strip_prefix,
    strip_prefix_exec, trim, trim_exec,
};

verus! {

/// `s` without leading and trailing `c` (`str::trim_matches(c)`).
pub open spec fn trim_char(s: Seq<char>, c: char) -> Seq<char>
    decreases s.len(),
{
    if s.len() > 0 && s[0] == c {
        trim_char(s.drop_first(), c)
    } else if s.len() > 0 && s.last() == c {
        trim_char(s.drop_last(), c)
    } else {
        s
    }
}

/// The charset a Content-Type value declares (lowercased, quotes removed):
/// the first `;`-separated part that starts with `charset=` once trimmed.
pub open spec fn charset_in(parts: Seq<Seq<char>>) -> Option<Seq<char>>
    decreases parts.len(),
{
    if parts.len() == 0 {
        None
    } else {
        match strip_prefix(trim(parts[0]), "charset="@) {
            Some(c) => Some(trim_char(c, '"')),
            None => charset_in(parts.drop_first()),
        }
    }
}

pub open spec fn declared_charset_of(content_type: Seq<char>) -> Option<Seq<char>> {
    charset_in(split_on(lower_seq(content_type), ';'))
}

fn trim_char_exec(s: &[char], c: char) -> (r: Vec<char>)
    ensures
        r@ == trim_char(s@, c),
{
    let mut i: usize = 0;
    let mut j: usize = s.len();
    assert(s@.subrange(0, s@.len() as int) =~= s@);
    while i < j && s[i] == c
        invariant
            i <= j <= s@.len(),
            j == s@.len(),
            trim_char(s@, c) == trim_char(s@.subrange(i as int, j as int), c),
        decreases j - i,
    {
        assert(s@.subrange(i as int, j as int).drop_first() =~= s@.subrange(i + 1, j as int));
        i += 1;
    }
    while i < j && s[j - 1] == c
        invariant
            i <= j <= s@.len(),
            trim_char(s@, c) == trim_char(s@.subrange(i as int, j as int), c),
            i < j ==> s@[i as int] != c,
        decreases j - i,
    {
        assert(s@.subrange(i as int, j as int).drop_last() =~= s@.subrange(i as int, j - 1));
        assert(s@.subrange(i as int, j as int)[0] == s@[i as int]);
        assert(s@.subrange(i as int, j as int).last() == s@[j - 1]);
        if i < j - 1 {
            assert(s@.subrange(i as int, j - 1)[0] == s@[i as int]);
        }
        j -= 1;
    }
    let r = crate::text::slice_chars(s, i, j);
    r
}

/// The charset declared in a Content-Type header value, if any.
pub fn declared_charset(content_type: &str) -> (r: Option<String>)
    ensures
        r matches Some(c) ==> declared_charset_of(content_type@) == Some(c@),
        r is None ==> declared_charset_of(content_type@) is None,
{
    let lowered = lower_all(chars_of(content_type).as_slice());
    let parts = split_on_exec(lowered.as_slice(), ';');
    let ghost ps = split_on(lower_seq(content_type@), ';');
    let mut i: usize = 0;
    assert(ps.skip(0) =~= ps);
    while i < parts.len()
        invariant
            i <= parts@.len(),
            ps == split_on(lower_seq(content_type@), ';'),
            parts.deep_view() == ps,
            charset_in(ps) == charset_in(ps.skip(i as int)),
        decreases parts@.len() - i,
    {
        assert(parts.deep_view()[i as int] == parts@[i as int]@);
        assert(ps.skip(i as int)[0] == ps[i as int]);
        assert(ps.skip(i as int).drop_first() =~= ps.skip(i + 1));
        let t = trim_exec(parts[i].as_slice());
        match strip_prefix_exec(t.as_slice(), chars_of("charset=").as_slice()) {
            Some(c) => {
                return Some(string_of(trim_char_exec(c.as_slice(), '"').as_slice()));
            },
            None => {},
        }
        i += 1;
    }
    None
}

/// A body is decoded as UTF-8 (invalid bytes replaced) unless a charset other
/// than UTF-8 or ASCII is declared; then it is transcoded from that charset.
pub open spec fn transcodes(charset: Option<Seq<char>>) -> bool {
    match charset {
        Some(c) => c != "utf-8"@ && c != "utf8"@ && c != "us-ascii"@ && c != "ascii"@,
        None => false,
    }
}

pub fn needs_transcoding(charset: Option<&str>) -> (r: bool)
    ensures
        r == transcodes(charset.deep_view()),
{
    match charset {
        Some(c) => {
            let v = chars_of(c);
            !(same(v.as_slice(), chars_of("utf-8").as_slice()) || same(
                v.as_slice(),
                chars_of("utf8").as_slice(),
            ) || same(v.as_slice(), chars_of("us-ascii").as_slice()) || same(
                v.as_slice(),
                chars_of("ascii").as_slice(),
            ))
        },
        None => false,
    }
}

/// The headers after one more received header: a repeated name has its
/// values joined with ", " (RFC 9110), a new name is appended.
pub open spec fn header_added(h: Pairs, name: Seq<char>, value: Seq<char>) -> Pairs {
    if exists|i: int| 0 <= i < h.len() && (#[trigger] h[i]).0 == name {
        let i = choose|i: int| 0 <= i < h.len() && (#[trigger] h[i]).0 == name;
        h.update(i, (name, h[i].1 + ", "@ + value))
    } else {
        h.push((name, value))
    }
}

/// No name occurs twice.
pub open spec fn distinct_names(h: Pairs) -> bool {
    forall|i: int, j: int| 0 <= i < j < h.len() ==> h[i].0 != h[j].0
}

/// Adds one received header to the list, joining a repeated name's values.
pub fn add_response_header(headers: &mut Vec<(String, String)>, name: String, value: String)
    requires
        distinct_names(old(headers).deep_view()),
    ensures
        final(headers).deep_view() == header_added(old(headers).deep_view(), name@, value@),
        distinct_names(final(headers).deep_view()),
{
    let ghost h = headers.deep_view();
    let n = chars_of(name.as_str());
    let mut i: usize = 0;
    while i < headers.len()
        invariant
            i <= headers@.len(),
            distinct_names(h),
            h == old(headers).deep_view(),
            headers.deep_view() == h,
            n@ == name@,
            forall|k: int| 0 <= k < i ==> h[k].0 != name@,
        decreases headers@.len() - i,
    {
        assert(h[i as int] == (headers@[i as int].0@, headers@[i as int].1@));
        if same(chars_of(headers[i].0.as_str()).as_slice(), n.as_slice()) {
            proof {
                assert(h[i as int].0 == name@);
                assert(exists|k: int| 0 <= k < h.len() && (#[trigger] h[k]).0 == name@);
                let c = choose|k: int| 0 <= k < h.len() && (#[trigger] h[k]).0 == name@;
                assert(c == i) by {
                    if c != i as int {
                        if c < i {
                        } else {
                            assert(h[i as int].0 != h[c].0);
                        }
                    }
                }
            }
            let mut joined = headers[i].1.clone();
            joined.append(", ");
            joined.append(value.as_str());
            let ghost jv = joined@;
            headers.set(i, (name, joined));
            assert(headers.deep_view() =~= h.update(i as int, (name@, jv)));
            assert(jv == h[i as int].1 + ", "@ + value@);
            assert(header_added(h, name@, value@) == h.update(i as int, (name@, h[i as int].1 + ", "@ + value@)));
            assert forall|a: int, b: int| 0 <= a < b < headers@.len() implies headers.deep_view()[a].0
                != headers.deep_view()[b].0 by {
                assert(h[a].0 != h[b].0);
            }
            return;
        }
        i += 1;
    }
    let ghost nv = name@;
    let ghost vv = value@;
    headers.push((name, value));
    assert(headers.deep_view() =~= h.push((nv, vv)));
}

} // verus!
