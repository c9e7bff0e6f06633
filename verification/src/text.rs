//! Character-sequence helpers shared by the command builders: trimming,
//! searching, quoting and joining, each with an exact specification.

use vstd::prelude::*;

verus! {

/// `s` with every leading `c` removed.
pub open spec fn trim_start(s: Seq<char>, c: char) -> Seq<char>
    decreases s.len(),
{
    if s.len() > 0 && s[0] == c {
        trim_start(s.drop_first(), c)
    } else {
        s
    }
}

/// `s` with every trailing `c` removed.
pub open spec fn trim_end(s: Seq<char>, c: char) -> Seq<char>
    decreases s.len(),
{
    if s.len() > 0 && s.last() == c {
        trim_end(s.drop_last(), c)
    } else {
        s
    }
}

/// `s` with every leading and every trailing `c` removed.
pub open spec fn trim_both(s: Seq<char>, c: char) -> Seq<char> {
    trim_end(trim_start(s, c), c)
}

/// Whether the last character of `s` is `c`.
pub open spec fn ends_with_char(s: Seq<char>, c: char) -> bool {
    s.len() > 0 && s.last() == c
}

/// Whether `needle` occurs in `hay` starting at position `i`.
pub open spec fn occurs_at(hay: Seq<char>, needle: Seq<char>, i: int) -> bool {
    0 <= i && i + needle.len() <= hay.len() && hay.subrange(i, i + needle.len()) == needle
}

/// The first position at or after `k` where `needle` occurs in `hay`.
pub open spec fn find_from(hay: Seq<char>, needle: Seq<char>, k: int) -> Option<int>
    decreases hay.len() + 1 - k,
{
    if k < 0 || k + needle.len() > hay.len() {
        None
    } else if occurs_at(hay, needle, k) {
        Some(k)
    } else {
        find_from(hay, needle, k + 1)
    }
}

/// The first position where `needle` occurs in `hay`.
pub open spec fn find_first(hay: Seq<char>, needle: Seq<char>) -> Option<int> {
    find_from(hay, needle, 0)
}

/// Whether `needle` occurs somewhere in `hay`.
pub open spec fn contains_seq(hay: Seq<char>, needle: Seq<char>) -> bool {
    exists|i: int| occurs_at(hay, needle, i)
}

/// `s` between double quotes.
pub open spec fn quoted(s: Seq<char>) -> Seq<char> {
    seq!['"'] + s + seq!['"']
}

/// The words of `args`, separated by single spaces.
pub open spec fn join_spaces(args: Seq<Seq<char>>) -> Seq<char>
    decreases args.len(),
{
    if args.len() == 0 {
        Seq::empty()
    } else if args.len() == 1 {
        args[0]
    } else {
        join_spaces(args.drop_last()) + seq![' '] + args.last()
    }
}

/// Joining `a` followed by more words starts with the joining of `a`.
pub proof fn lemma_join_prefix(a: Seq<Seq<char>>, b: Seq<Seq<char>>)
    requires
        a.len() > 0,
    ensures
        join_spaces(a).len() <= join_spaces(a + b).len(),
        join_spaces(a + b).subrange(0, join_spaces(a).len() as int) == join_spaces(a),
    decreases b.len(),
{
    if b.len() == 0 {
        assert(a + b == a);
        assert(join_spaces(a).subrange(0, join_spaces(a).len() as int) == join_spaces(a));
    } else {
        lemma_join_prefix(a, b.drop_last());
        assert((a + b).drop_last() == a + b.drop_last());
        let j = join_spaces(a + b.drop_last());
        assert(join_spaces(a + b) == j + seq![' '] + b.last());
        assert((j + seq![' '] + b.last()).subrange(0, join_spaces(a).len() as int) == j.subrange(
            0,
            join_spaces(a).len() as int,
        ));
    }
}

/// The views of a sequence of character vectors.
pub open spec fn views(v: Seq<Vec<char>>) -> Seq<Seq<char>> {
    Seq::new(v.len(), |i: int| v[i]@)
}

/// What `find_from` finds is an occurrence, and nothing between `k` and it is one.
pub proof fn lemma_find_from(hay: Seq<char>, needle: Seq<char>, k: int)
    requires
        0 <= k,
    ensures
        find_from(hay, needle, k) matches Some(i) ==> k <= i && occurs_at(hay, needle, i) && (
        forall|j: int| k <= j < i ==> !occurs_at(hay, needle, j)),
        find_from(hay, needle, k) is None ==> forall|j: int| k <= j ==> !occurs_at(hay, needle, j),
    decreases hay.len() + 1 - k,
{
    if k + needle.len() > hay.len() {
    } else if occurs_at(hay, needle, k) {
    } else {
        lemma_find_from(hay, needle, k + 1);
    }
}

/// `needle` occurs in `hay` exactly when `find_first` finds it.
pub proof fn lemma_find_first_contains(hay: Seq<char>, needle: Seq<char>)
    ensures
        find_first(hay, needle) is Some <==> contains_seq(hay, needle),
{
    lemma_find_from(hay, needle, 0);
    if let Some(i) = find_first(hay, needle) {
        assert(occurs_at(hay, needle, i));
    }
}

/// The characters of `s`, in order.
pub fn chars_of(s: &str) -> (r: Vec<char>)
    ensures
        r@ == s@,
{
    let mut r: Vec<char> = Vec::new();
    for c in it: s.chars()
        invariant
            r@ == it.seq().take(it.index() as int),
            it.seq() == s@,
    {
        r.push(c);
    }
    r
}

/// Collects characters into a `String` (std's `FromIterator<char>` for `String`).
#[verifier::external_body]
pub(crate) fn string_from_chars(v: &Vec<char>) -> (r: String)
    ensures
        r@ == v@,
{
    v.iter().collect()
}

/// The elements of `s` from position `from` up to `to`.
pub fn sub_vec<T: Copy>(s: &Vec<T>, from: usize, to: usize) -> (r: Vec<T>)
    requires
        from <= to <= s.len(),
    ensures
        r@ == s@.subrange(from as int, to as int),
{
    let mut r: Vec<T> = Vec::new();
    let mut i: usize = from;
    while i < to
        invariant
            from <= i <= to <= s.len(),
            r@ == s@.subrange(from as int, i as int),
        decreases to - i,
    {
        r.push(s[i]);
        assert(s@.subrange(from as int, i + 1) == s@.subrange(from as int, i as int).push(s@[i as int]));
        i += 1;
    }
    r
}

/// A copy of `s`.
pub fn copy_chars(s: &Vec<char>) -> (r: Vec<char>)
    ensures
        r@ == s@,
{
    let r = sub_vec(s, 0, s.len());
    assert(s@.subrange(0, s@.len() as int) == s@);
    r
}

/// Appends the characters of `s` to `v`.
pub fn push_all(v: &mut Vec<char>, s: &Vec<char>)
    ensures
        final(v)@ == old(v)@ + s@,
{
    let ghost start = v@;
    let mut i: usize = 0;
    while i < s.len()
        invariant
            i <= s.len(),
            v@ == start + s@.subrange(0, i as int),
        decreases s.len() - i,
    {
        v.push(s[i]);
        assert(s@.subrange(0, i + 1) == s@.subrange(0, i as int).push(s@[i as int]));
        i += 1;
    }
    assert(s@.subrange(0, s@.len() as int) == s@);
}

/// Appends the word `w` to `words`.
pub fn push_word(words: &mut Vec<Vec<char>>, w: Vec<char>)
    ensures
        views(final(words)@) == views(old(words)@).push(w@),
{
    let ghost before = views(words@);
    words.push(w);
    assert(views(words@) =~= before.push(w@));
}

/// Appends copies of the words of `w` to `words`.
pub fn push_words(words: &mut Vec<Vec<char>>, w: &Vec<Vec<char>>)
    ensures
        views(final(words)@) == views(old(words)@) + views(w@),
{
    let ghost before = views(words@);
    let mut k: usize = 0;
    while k < w.len()
        invariant
            k <= w.len(),
            views(words@) == before + views(w@).take(k as int),
        decreases w.len() - k,
    {
        push_word(words, copy_chars(&w[k]));
        assert(views(w@).take(k + 1) =~= views(w@).take(k as int).push(w@[k as int]@));
        assert(before + views(w@).take(k + 1) =~= (before + views(w@).take(k as int)).push(w@[k as int]@));
        k += 1;
    }
    assert(views(w@).take(w.len() as int) == views(w@));
}

/// `s` with every leading `c` removed.
pub fn trim_start_chars(s: &Vec<char>, c: char) -> (r: Vec<char>)
    ensures
        r@ == trim_start(s@, c),
{
    let mut i: usize = 0;
    assert(s@.subrange(0, s@.len() as int) == s@);
    while i < s.len() && s[i] == c
        invariant
            i <= s.len(),
            trim_start(s@, c) == trim_start(s@.subrange(i as int, s@.len() as int), c),
        decreases s.len() - i,
    {
        assert(s@.subrange(i as int, s@.len() as int).drop_first() == s@.subrange(
            i + 1,
            s@.len() as int,
        ));
        i += 1;
    }
    sub_vec(s, i, s.len())
}

/// `s` with every trailing `c` removed.
pub fn trim_end_chars(s: &Vec<char>, c: char) -> (r: Vec<char>)
    ensures
        r@ == trim_end(s@, c),
{
    let mut j: usize = s.len();
    assert(s@.subrange(0, j as int) == s@);
    while j > 0 && s[j - 1] == c
        invariant
            j <= s.len(),
            trim_end(s@, c) == trim_end(s@.subrange(0, j as int), c),
        decreases j,
    {
        assert(s@.subrange(0, j as int).drop_last() == s@.subrange(0, j - 1));
        j -= 1;
    }
    sub_vec(s, 0, j)
}

/// `s` with every leading and every trailing `c` removed.
pub fn trim_both_chars(s: &Vec<char>, c: char) -> (r: Vec<char>)
    ensures
        r@ == trim_both(s@, c),
{
    let t = trim_start_chars(s, c);
    trim_end_chars(&t, c)
}

/// Whether the last character of `s` is `c`.
pub fn ends_with_chars(s: &Vec<char>, c: char) -> (r: bool)
    ensures
        r == ends_with_char(s@, c),
{
    s.len() > 0 && s[s.len() - 1] == c
}

/// Whether `needle` occurs in `hay` at position `k`.
pub fn occurs_at_chars(hay: &Vec<char>, needle: &Vec<char>, k: usize) -> (r: bool)
    ensures
        r == occurs_at(hay@, needle@, k as int),
{
    if needle.len() > hay.len() || k > hay.len() - needle.len() {
        return false;
    }
    let mut m: usize = 0;
    while m < needle.len()
        invariant
            k + needle.len() <= hay.len(),
            m <= needle.len(),
            forall|j: int| 0 <= j < m ==> hay@[k + j] == needle@[j],
        decreases needle.len() - m,
    {
        if hay[k + m] != needle[m] {
            assert(hay@.subrange(k as int, k + needle.len())[m as int] != needle@[m as int]);
            return false;
        }
        m += 1;
    }
    assert(hay@.subrange(k as int, k + needle.len()) =~= needle@);
    true
}

/// The first position where `needle` occurs in `hay`.
pub fn find_chars(hay: &Vec<char>, needle: &Vec<char>) -> (r: Option<usize>)
    ensures
        r matches Some(i) ==> find_first(hay@, needle@) == Some(i as int),
        r is None ==> find_first(hay@, needle@) is None,
{
    if needle.len() > hay.len() {
        return None;
    }
    let last: usize = hay.len() - needle.len();
    let mut k: usize = 0;
    loop
        invariant
            last + needle.len() == hay.len(),
            k <= last,
            find_first(hay@, needle@) == find_from(hay@, needle@, k as int),
        decreases last - k,
    {
        if occurs_at_chars(hay, needle, k) {
            return Some(k);
        }
        if k == last {
            assert(find_from(hay@, needle@, k + 1) is None);
            return None;
        }
        k += 1;
    }
}

/// Whether `needle` occurs somewhere in `hay`.
pub fn contains_chars(hay: &Vec<char>, needle: &Vec<char>) -> (r: bool)
    ensures
        r == contains_seq(hay@, needle@),
{
    proof {
        lemma_find_first_contains(hay@, needle@);
    }
    find_chars(hay, needle).is_some()
}

/// `s` between double quotes.
pub fn quote_chars(s: &Vec<char>) -> (r: Vec<char>)
    ensures
        r@ == quoted(s@),
{
    let mut r: Vec<char> = Vec::new();
    r.push('"');
    push_all(&mut r, s);
    r.push('"');
    r
}

/// The words of `args`, separated by single spaces.
pub fn join_chars(args: &Vec<Vec<char>>) -> (r: Vec<char>)
    ensures
        r@ == join_spaces(views(args@)),
{
    let mut r: Vec<char> = Vec::new();
    let mut i: usize = 0;
    while i < args.len()
        invariant
            i <= args.len(),
            r@ == join_spaces(views(args@).take(i as int)),
        decreases args.len() - i,
    {
        let ghost prev = views(args@).take(i as int);
        if i > 0 {
            r.push(' ');
        }
        push_all(&mut r, &args[i]);
        assert(views(args@).take(i + 1).drop_last() == prev);
        i += 1;
    }
    assert(views(args@).take(args.len() as int) == views(args@));
    r
}

} // verus!
