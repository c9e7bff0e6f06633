//! Building a URL from parts, with the trailing slashes that make
//! `Url::join` append rather than replace.

use vstd::prelude::*;
use crate::pattern::opt_view;
use crate::text::{
    chars_of, ends_with_char, ends_with_chars, string_from_chars, trim_both, trim_both_chars, trim_end,
    trim_end_chars, trim_start,
};

verus! {

/// The serialization of what `url::Url::parse` makes of `input`, or `None`
/// where it fails.
pub uninterp spec fn parsed_url(input: Seq<char>) -> Option<Seq<char>>;

/// The serialization of what `url::Url::join` makes of `input` relative to
/// the URL that `base` serializes, or `None` where parsing or joining fails.
pub uninterp spec fn joined_url(base: Seq<char>, input: Seq<char>) -> Option<Seq<char>>;

/// `reqwest::Url::parse` (the `url` crate's `Url::parse`), returning the
/// serialization (`Url::as_str`). The contract claims only that the outcome is
/// the named function of the input.
#[verifier::external_body]
fn parse_url(input: &str) -> (r: Option<String>)
    ensures
        opt_view(r) == parsed_url(input@),
{
    match reqwest::Url::parse(input) {
        Ok(u) => Some(u.as_str().to_string()),
        Err(_) => None,
    }
}

/// `reqwest::Url::join` of `input` onto the URL serialized as `base` (read
/// back with `Url::parse`, of which a serialization is a fixed point),
/// returning the serialization. The contract claims only that the outcome is
/// the named function of the two strings.
#[verifier::external_body]
fn join_url(base: &str, input: &str) -> (r: Option<String>)
    ensures
        opt_view(r) == joined_url(base@, input@),
{
    match reqwest::Url::parse(base) {
        Err(_) => None,
        Ok(b) => match b.join(input) {
            Ok(u) => Some(u.as_str().to_string()),
            Err(_) => None,
        },
    }
}

/// The base of the URL: the first part without its trailing slashes, and one
/// slash after it.
pub open spec fn url_base(first: Seq<char>) -> Seq<char> {
    trim_end(first, '/').push('/')
}

/// What is joined for a later part: the part without leading or trailing
/// slashes, followed by one slash unless it is the last part and had no
/// trailing slash.
pub open spec fn url_segment(part: Seq<char>, is_last: bool) -> Seq<char> {
    if is_last && !ends_with_char(part, '/') {
        trim_both(part, '/')
    } else {
        trim_both(part, '/').push('/')
    }
}

/// The URL after the parts up to index `k` are in.
pub open spec fn url_through(parts: Seq<Seq<char>>, k: nat) -> Option<Seq<char>>
    decreases k,
{
    if k == 0 {
        parsed_url(url_base(parts[0]))
    } else {
        match url_through(parts, (k - 1) as nat) {
            Some(u) => joined_url(u, url_segment(parts[k as int], k == parts.len() - 1)),
            None => None,
        }
    }
}

/// The URL built from all parts.
pub open spec fn built_url(parts: Seq<Seq<char>>) -> Option<Seq<char>> {
    url_through(parts, (parts.len() - 1) as nat)
}

/// The views of a sequence of string slices.
pub open spec fn str_views(v: Seq<&str>) -> Seq<Seq<char>> {
    Seq::new(v.len(), |i: int| v[i]@)
}

/// Builds a URL from parts: the first part, with one trailing slash, is
/// parsed; every later part, without its surrounding slashes, is joined onto
/// it, with a trailing slash added to all but the last part (which keeps a
/// trailing slash only if it had one). `None` where parsing or joining fails.
pub fn create_url(parts: &[&str]) -> (r: Option<String>)
    requires
        parts@.len() >= 1,
    ensures
        opt_view(r) == built_url(str_views(parts@)),
{
    let ghost ps = str_views(parts@);
    let mut base = trim_end_chars(&chars_of(parts[0]), '/');
    base.push('/');
    let mut url = match parse_url(string_from_chars(&base).as_str()) {
        Some(u) => u,
        None => {
            proof {
                lemma_url_through_none(ps, 0, (ps.len() - 1) as nat);
            }
            return None;
        },
    };
    let n: usize = parts.len();
    let mut i: usize = 1;
    while i < n
        invariant
            1 <= i <= n,
            n == parts@.len(),
            ps == str_views(parts@),
            url_through(ps, (i - 1) as nat) == Some(url@),
        decreases n - i,
    {
        let part = chars_of(parts[i]);
        let mut segment = trim_both_chars(&part, '/');
        if !(i == n - 1 && !ends_with_chars(&part, '/')) {
            segment.push('/');
        }
        assert(segment@ == url_segment(ps[i as int], i == ps.len() - 1));
        url = match join_url(url.as_str(), string_from_chars(&segment).as_str()) {
            Some(u) => u,
            None => {
                proof {
                    lemma_url_through_none(ps, i as nat, (ps.len() - 1) as nat);
                }
                return None;
            },
        };
        i += 1;
    }
    Some(url)
}

/// Once building fails at one part, it fails for good.
proof fn lemma_url_through_none(parts: Seq<Seq<char>>, k: nat, n: nat)
    requires
        k <= n,
        url_through(parts, k) is None,
    ensures
        url_through(parts, n) is None,
    decreases n - k,
{
    if n > k {
        lemma_url_through_none(parts, k, (n - 1) as nat);
    }
}

/// `trim_start` removes a prefix of `c`s and leaves a suffix that is empty
/// or starts with another character.
pub proof fn lemma_trim_start(s: Seq<char>, c: char)
    ensures
        trim_start(s, c).len() <= s.len(),
        trim_start(s, c) == s.subrange(s.len() - trim_start(s, c).len(), s.len() as int),
        trim_start(s, c).len() > 0 ==> trim_start(s, c)[0] != c,
        (exists|i: int| 0 <= i < s.len() && s[i] != c) ==> trim_start(s, c).len() > 0,
        forall|k: int| 0 <= k < s.len() - trim_start(s, c).len() ==> s[k] == c,
    decreases s.len(),
{
    if s.len() > 0 && s[0] == c {
        lemma_trim_start(s.drop_first(), c);
        if exists|i: int| 0 <= i < s.len() && s[i] != c {
            let i = choose|i: int| 0 <= i < s.len() && s[i] != c;
            assert(s.drop_first()[i - 1] != c);
        }
        assert forall|k: int| 0 <= k < s.len() - trim_start(s, c).len() implies s[k] == c by {
            if k > 0 {
                assert(s.drop_first()[k - 1] == s[k]);
            }
        }
    } else {
        assert(s.subrange(0, s.len() as int) == s);
    }
}

/// `trim_end` removes a suffix of `c`s and leaves a prefix that is empty or
/// ends with another character.
pub proof fn lemma_trim_end(s: Seq<char>, c: char)
    ensures
        trim_end(s, c).len() <= s.len(),
        trim_end(s, c) == s.subrange(0, trim_end(s, c).len() as int),
        trim_end(s, c).len() > 0 ==> trim_end(s, c).last() != c,
        (exists|i: int| 0 <= i < s.len() && s[i] != c) ==> trim_end(s, c).len() > 0,
        forall|k: int| trim_end(s, c).len() <= k < s.len() ==> s[k] == c,
    decreases s.len(),
{
    if s.len() > 0 && s.last() == c {
        lemma_trim_end(s.drop_last(), c);
        if exists|i: int| 0 <= i < s.len() && s[i] != c {
            let i = choose|i: int| 0 <= i < s.len() && s[i] != c;
            assert(s.drop_last()[i] != c);
        }
        assert forall|k: int| trim_end(s, c).len() <= k < s.len() implies s[k] == c by {
            if k < s.len() - 1 {
                assert(s.drop_last()[k] == s[k]);
            }
        }
    } else {
        assert(s.subrange(0, s.len() as int) == s);
    }
}

/// The slash rule of [`create_url`]: a part that holds something besides
/// slashes is joined as a segment that does not start with a slash (so it is
/// appended to the path, not put at its root), and that ends with a slash
/// exactly when more parts follow or the part itself ended with one.
pub proof fn lemma_url_segment_slashes(part: Seq<char>, is_last: bool)
    requires
        exists|i: int| 0 <= i < part.len() && part[i] != '/',
    ensures
        url_segment(part, is_last).len() > 0,
        url_segment(part, is_last)[0] != '/',
        ends_with_char(url_segment(part, is_last), '/') <==> (!is_last || ends_with_char(part, '/')),
{
    lemma_trim_start(part, '/');
    let t = trim_start(part, '/');
    assert(t[0] != '/');
    lemma_trim_end(t, '/');
    assert(t.len() > 0 && t[0] != '/');
    let b = trim_both(part, '/');
    assert(b == trim_end(t, '/'));
    assert(b[0] == t[0]);
}

/// The base of every URL ends with exactly one slash: the character before
/// it, if any, is not a slash.
pub proof fn lemma_url_base_single_slash(first: Seq<char>)
    ensures
        ends_with_char(url_base(first), '/'),
        url_base(first).len() >= 2 ==> url_base(first)[url_base(first).len() - 2] != '/',
{
    lemma_trim_end(first, '/');
}

/// `trim_both` keeps a part's inner characters: it is the stretch of `s`
/// between a run of leading `c`s and a run of trailing `c`s, and (unless it
/// is empty) starts and ends with another character.
pub proof fn lemma_trim_both_keeps_inner(s: Seq<char>, c: char)
    ensures
        exists|a: int, b: int|
            {
                &&& 0 <= a <= b <= s.len()
                &&& trim_both(s, c) == s.subrange(a, b)
                &&& forall|k: int| 0 <= k < a ==> s[k] == c
                &&& forall|k: int| b <= k < s.len() ==> s[k] == c
                &&& a < b ==> s[a] != c && s[b - 1] != c
            },
{
    lemma_trim_start(s, c);
    let t = trim_start(s, c);
    let a = s.len() - t.len();
    lemma_trim_end(t, c);
    let e = trim_end(t, c).len();
    let b = a + e;
    assert(t.subrange(0, e as int) == s.subrange(a, b));
    assert forall|k: int| b <= k < s.len() implies s[k] == c by {
        assert(t[k - a] == s[k]);
    }
    if a < b {
        assert(t[0] == s[a]);
        assert(trim_end(t, c)[0] == t[0]);
        assert(trim_end(t, c).last() == s[b - 1]);
    }
}

/// The URL built from all parts is the one reached after the last part.
pub proof fn lemma_create_url_uses_every_part(parts: Seq<Seq<char>>)
    requires
        parts.len() >= 1,
    ensures
        built_url(parts) == url_through(parts, (parts.len() - 1) as nat),
{
}

/// The base is the first part with only its trailing slashes replaced by
/// one slash: everything before them, inner slashes included, is kept.
pub proof fn lemma_create_url_base(parts: Seq<Seq<char>>)
    requires
        parts.len() >= 1,
    ensures
        exists|b: int|
            {
                &&& 0 <= b <= parts[0].len()
                &&& forall|k: int| b <= k < parts[0].len() ==> parts[0][k] == '/'
                &&& b > 0 ==> parts[0][b - 1] != '/'
                &&& url_through(parts, 0) == parsed_url(parts[0].subrange(0, b).push('/'))
            },
{
    lemma_trim_end(parts[0], '/');
    let b = trim_end(parts[0], '/').len() as int;
    if b > 0 {
        assert(trim_end(parts[0], '/').last() == parts[0][b - 1]);
    }
}

/// Each later part is joined onto the URL so far as the part with only its
/// leading and trailing slashes removed (its inner characters, slashes
/// included, kept), followed by one slash unless it is the last part and
/// had no trailing slash.
pub proof fn lemma_create_url_segment(parts: Seq<Seq<char>>, k: nat)
    requires
        1 <= k < parts.len(),
    ensures
        exists|a: int, b: int|
            #![trigger parts[k as int].subrange(a, b)]
            {
                &&& 0 <= a <= b <= parts[k as int].len()
                &&& forall|j: int| 0 <= j < a ==> parts[k as int][j] == '/'
                &&& forall|j: int| b <= j < parts[k as int].len() ==> parts[k as int][j] == '/'
                &&& a < b ==> parts[k as int][a] != '/' && parts[k as int][b - 1] != '/'
                &&& url_through(parts, k) == match url_through(parts, (k - 1) as nat) {
                    Some(u) => joined_url(
                        u,
                        if k == parts.len() - 1 && !ends_with_char(parts[k as int], '/') {
                            parts[k as int].subrange(a, b)
                        } else {
                            parts[k as int].subrange(a, b).push('/')
                        },
                    ),
                    None => None,
                }
            },
{
    let p = parts[k as int];
    lemma_trim_both_keeps_inner(p, '/');
    let (a, b) = choose|a: int, b: int|
        {
            &&& 0 <= a <= b <= p.len()
            &&& trim_both(p, '/') == p.subrange(a, b)
            &&& forall|j: int| 0 <= j < a ==> p[j] == '/'
            &&& forall|j: int| b <= j < p.len() ==> p[j] == '/'
            &&& a < b ==> p[a] != '/' && p[b - 1] != '/'
        };
    assert(url_segment(p, k == parts.len() - 1) == if k == parts.len() - 1 && !ends_with_char(p, '/') {
        p.subrange(a, b)
    } else {
        p.subrange(a, b).push('/')
    });
}

} // verus!
