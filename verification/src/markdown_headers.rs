//! The headers of a markdown document, and how they are laid out when listed.

use vstd::prelude::*;
use crate::pattern::{group_pairs, pair_views, regex_group_pairs};
use crate::text::chars_of;

verus! {

/// A header of a markdown document: its level (1 for `#`) and its text.
pub struct Header {
    pub level: u8,
    pub text: String,
}

impl Header {
    /// A header of the given level and text.
    pub fn new(level: u8, text: &str) -> (h: Header)
        ensures
            h.level == level,
            h.text@ == text@,
    {
        Header { level, text: text.to_owned() }
    }
}

/// The views of a sequence of headers.
pub open spec fn header_list(v: Seq<Header>) -> Seq<(u8, Seq<char>)> {
    Seq::new(v.len(), |i: int| (v[i].level, v[i].text@))
}

/// The HTML that `markdown::to_html` makes of a markdown text.
pub uninterp spec fn markdown_html(markdown: Seq<char>) -> Seq<char>;

/// `markdown::to_html` (CommonMark with default options). The contract claims
/// only that the HTML is the named function of the text.
#[verifier::external_body]
fn to_html(markdown: &str) -> (r: String)
    ensures
        r@ == markdown_html(markdown@),
{
    markdown::to_html(markdown)
}

/// Finds the headers in HTML: the level digit and the text of each `<hN>` element.
pub const HEADER_PATTERN: &'static str = r"<h([1-9])>(.*)</h[1-9]>";

/// Whether `c` is a decimal digit.
pub open spec fn is_digit(c: char) -> bool {
    '0' <= c && c <= '9'
}

/// The number that a string of decimal digits spells.
pub open spec fn decimal_value(d: Seq<char>) -> int
    decreases d.len(),
{
    if d.len() == 0 {
        0
    } else {
        decimal_value(d.drop_last()) * 10 + (d.last() as int - '0' as int)
    }
}

/// `s` without a leading `+`.
pub open spec fn without_plus(s: Seq<char>) -> Seq<char> {
    if s.len() > 0 && s[0] == '+' {
        s.drop_first()
    } else {
        s
    }
}

/// Whether every character of `d` is a decimal digit.
pub open spec fn all_digits(d: Seq<char>) -> bool {
    forall|i: int| 0 <= i < d.len() ==> is_digit(d[i])
}

/// What `str::parse::<u8>` accepts: an optional `+`, then one or more
/// decimal digits spelling at most 255.
pub open spec fn parsed_u8(s: Seq<char>) -> Option<u8> {
    let d = without_plus(s);
    if d.len() > 0 && all_digits(d) && decimal_value(d) <= 255 {
        Some(decimal_value(d) as u8)
    } else {
        None
    }
}

/// Parses a header level as `str::parse::<u8>` does.
pub fn parse_u8(s: &str) -> (r: Option<u8>)
    ensures
        r == parsed_u8(s@),
{
    let all = chars_of(s);
    let start: usize = if all.len() > 0 && all[0] == '+' {
        1
    } else {
        0
    };
    let ghost d = without_plus(s@);
    assert(d == all@.subrange(start as int, all@.len() as int));
    if start == all.len() {
        return None;
    }
    let mut value: u32 = 0;
    let mut too_big = false;
    let mut i: usize = start;
    while i < all.len()
        invariant
            start <= i <= all.len(),
            all@ == s@,
            d == without_plus(s@),
            d == all@.subrange(start as int, all@.len() as int),
            forall|j: int| start <= j < i ==> is_digit(all@[j]),
            !too_big ==> value == decimal_value(all@.subrange(start as int, i as int)) && value <= 255,
            too_big ==> decimal_value(all@.subrange(start as int, i as int)) > 255,
        decreases all.len() - i,
    {
        let c = all[i];
        if !('0' <= c && c <= '9') {
            assert(!is_digit(d[i - start]));
            return None;
        }
        assert(all@.subrange(start as int, i + 1).drop_last() == all@.subrange(start as int, i as int));
        if !too_big {
            let next: u32 = value * 10 + (c as u32 - '0' as u32);
            if next > 255 {
                too_big = true;
            } else {
                value = next;
            }
        }
        i += 1;
    }
    assert(all@.subrange(start as int, all@.len() as int) == d);
    if too_big {
        None
    } else {
        Some(value as u8)
    }
}

/// The header made of one pair of groups: the level parsed from the first,
/// the text from the second.
pub open spec fn header_of_groups(g: (Option<Seq<char>>, Option<Seq<char>>)) -> Option<(u8, Seq<char>)> {
    match g {
        (Some(level), Some(text)) => match parsed_u8(level) {
            Some(n) => Some((n, text)),
            None => None,
        },
        _ => None,
    }
}

/// The headers made of all pairs of groups, in order; `None` if one pair
/// does not make a header.
pub open spec fn headers_of_groups(gs: Seq<(Option<Seq<char>>, Option<Seq<char>>)>) -> Option<
    Seq<(u8, Seq<char>)>,
>
    decreases gs.len(),
{
    if gs.len() == 0 {
        Some(Seq::empty())
    } else {
        match (headers_of_groups(gs.drop_last()), header_of_groups(gs.last())) {
            (Some(hs), Some(h)) => Some(hs.push(h)),
            _ => None,
        }
    }
}

/// The headers of a markdown text: the `<hN>` elements of its HTML, in
/// document order.
pub open spec fn markdown_headers(markdown: Seq<char>) -> Option<Seq<(u8, Seq<char>)>> {
    match regex_group_pairs(HEADER_PATTERN@, markdown_html(markdown)) {
        Some(gs) => headers_of_groups(gs),
        None => None,
    }
}

/// Once a pair fails to make a header, the whole list fails.
proof fn lemma_headers_of_groups_none(gs: Seq<(Option<Seq<char>>, Option<Seq<char>>)>, k: int, n: int)
    requires
        0 <= k <= n <= gs.len(),
        headers_of_groups(gs.take(k)) is None,
    ensures
        headers_of_groups(gs.take(n)) is None,
    decreases n - k,
{
    if n > k {
        lemma_headers_of_groups_none(gs, k, n - 1);
        assert(gs.take(n).drop_last() == gs.take(n - 1));
    }
}

/// Reads the headers of a markdown text: the text is turned into HTML and
/// every `<hN>…</hN>` element, in order, gives a header of level N with the
/// element's content as its text. `None` where a match lacks a group or its
/// level is not a number.
pub fn headers_from_markdown(markdown: &str) -> (r: Option<Vec<Header>>)
    ensures
        match r {
            Some(v) => markdown_headers(markdown@) == Some(header_list(v@)),
            None => markdown_headers(markdown@) is None,
        },
{
    let html = to_html(markdown);
    let groups = match group_pairs(HEADER_PATTERN, html.as_str()) {
        Ok(g) => g,
        Err(_) => return None,
    };
    let ghost gs = pair_views(groups@);
    let mut headers: Vec<Header> = Vec::new();
    let mut i: usize = 0;
    while i < groups.len()
        invariant
            i <= groups.len(),
            gs == pair_views(groups@),
            regex_group_pairs(HEADER_PATTERN@, markdown_html(markdown@)) == Some(gs),
            headers_of_groups(gs.take(i as int)) == Some(header_list(headers@)),
        decreases groups.len() - i,
    {
        assert(gs.take(i + 1).drop_last() == gs.take(i as int));
        let made = match &groups[i] {
            (Some(level), Some(text)) => match parse_u8(level.as_str()) {
                Some(n) => Some(Header::new(n, text.as_str())),
                None => None,
            },
            _ => None,
        };
        match made {
            Some(h) => {
                let ghost before = header_list(headers@);
                headers.push(h);
                assert(header_list(headers@) =~= before.push((h.level, h.text@)));
            },
            None => {
                proof {
                    assert(gs.take(i + 1).last() == gs[i as int]);
                    assert(header_of_groups(gs[i as int]) is None);
                    lemma_headers_of_groups_none(gs, i + 1, gs.len() as int);
                    assert(gs.take(gs.len() as int) == gs);
                }
                return None;
            },
        }
        i += 1;
    }
    assert(gs.take(gs.len() as int) == gs);
    Some(headers)
}

/// The colour in which a header of some level is listed.
#[derive(Debug, Clone, Copy, PartialEq, Eq, Structural)]
pub enum HeaderColor {
    Yellow,
    Red,
    Blue,
    Green,
    Magenta,
    Cyan,
    White,
    BrightBlue,
    BrightMagenta,
    Black,
}

/// Each header level (1 to 9) has a colour of its own: 1 yellow, 2 red,
/// 3 blue, 4 green, 5 magenta, 6 cyan, 7 white, 8 bright blue, 9 bright
/// magenta; any other level is black.
pub open spec fn level_color(level: u8) -> HeaderColor {
    if level == 1 {
        HeaderColor::Yellow
    } else if level == 2 {
        HeaderColor::Red
    } else if level == 3 {
        HeaderColor::Blue
    } else if level == 4 {
        HeaderColor::Green
    } else if level == 5 {
        HeaderColor::Magenta
    } else if level == 6 {
        HeaderColor::Cyan
    } else if level == 7 {
        HeaderColor::White
    } else if level == 8 {
        HeaderColor::BrightBlue
    } else if level == 9 {
        HeaderColor::BrightMagenta
    } else {
        HeaderColor::Black
    }
}

/// Level 1 stands at the margin and each deeper level is indented two more
/// spaces.
pub open spec fn level_indent(level: u8) -> int {
    (level - 1) * 2
}

/// The colour in which a header of `level` is listed.
pub fn header_color(level: u8) -> (c: HeaderColor)
    ensures
        c == level_color(level),
{
    match level {
        1 => HeaderColor::Yellow,
        2 => HeaderColor::Red,
        3 => HeaderColor::Blue,
        4 => HeaderColor::Green,
        5 => HeaderColor::Magenta,
        6 => HeaderColor::Cyan,
        7 => HeaderColor::White,
        8 => HeaderColor::BrightBlue,
        9 => HeaderColor::BrightMagenta,
        _ => HeaderColor::Black,
    }
}

/// The number of spaces before a header of `level` when listed.
pub fn header_indent(level: u8) -> (n: usize)
    requires
        level >= 1,
    ensures
        n == level_indent(level),
{
    ((level as usize) - 1) * 2
}

/// How each header is listed: its indentation, its colour and its text.
pub fn header_layout(headers: &Vec<Header>) -> (r: Vec<(usize, HeaderColor, String)>)
    requires
        forall|i: int| 0 <= i < headers@.len() ==> headers@[i].level >= 1,
    ensures
        r@.len() == headers@.len(),
        forall|i: int|
            0 <= i < headers@.len() ==> r@[i].0 == level_indent(#[trigger] headers@[i].level) && r@[i].1
                == level_color(headers@[i].level) && r@[i].2@ == headers@[i].text@,
{
    let mut r: Vec<(usize, HeaderColor, String)> = Vec::new();
    let mut i: usize = 0;
    while i < headers.len()
        invariant
            i <= headers.len(),
            forall|j: int| 0 <= j < headers@.len() ==> headers@[j].level >= 1,
            r@.len() == i,
            forall|j: int|
                0 <= j < i ==> r@[j].0 == level_indent(#[trigger] headers@[j].level) && r@[j].1
                    == level_color(headers@[j].level) && r@[j].2@ == headers@[j].text@,
        decreases headers.len() - i,
    {
        let h = &headers[i];
        r.push((header_indent(h.level), header_color(h.level), h.text.clone()));
        i += 1;
    }
    r
}

/// Each level is indented: a deeper header is indented strictly more than a
/// shallower one, two spaces per level.
pub proof fn lemma_indent_each_level(a: u8, b: u8)
    requires
        1 <= a < b,
    ensures
        level_indent(a) < level_indent(b),
        level_indent(b) - level_indent(a) == 2 * (b - a),
{
}

/// Each header level from 1 to 9 (the levels that a document's headers
/// have) is listed in a colour of its own.
pub proof fn lemma_color_each_level(a: u8, b: u8)
    requires
        1 <= a < b <= 9,
    ensures
        level_color(a) != level_color(b),
{
}

/// One header per pair of groups, in order: the headers exist exactly when
/// every pair has both groups and a level that parses, and then the i-th
/// header has the i-th pair's parsed level and its text.
pub proof fn lemma_headers_of_groups_one_per_match(gs: Seq<(Option<Seq<char>>, Option<Seq<char>>)>)
    ensures
        headers_of_groups(gs) is Some <==> forall|i: int|
            0 <= i < gs.len() ==> (#[trigger] gs[i]).0 is Some && gs[i].1 is Some && parsed_u8(gs[i].0->Some_0)
                is Some,
        headers_of_groups(gs) is Some ==> headers_of_groups(gs)->Some_0.len() == gs.len(),
        headers_of_groups(gs) is Some ==> forall|i: int|
            0 <= i < gs.len() ==> headers_of_groups(gs)->Some_0[i] == (
                parsed_u8((#[trigger] gs[i]).0->Some_0)->Some_0,
                gs[i].1->Some_0,
            ),
    decreases gs.len(),
{
    if gs.len() > 0 {
        let prev = gs.drop_last();
        lemma_headers_of_groups_one_per_match(prev);
        assert(forall|i: int| 0 <= i < prev.len() ==> #[trigger] prev[i] == gs[i]);
        assert(gs[gs.len() - 1] == gs.last());
        if forall|i: int|
            0 <= i < gs.len() ==> (#[trigger] gs[i]).0 is Some && gs[i].1 is Some && parsed_u8(gs[i].0->Some_0)
                is Some {
            assert(forall|i: int|
                0 <= i < prev.len() ==> (#[trigger] prev[i]).0 is Some && prev[i].1 is Some && parsed_u8(
                    prev[i].0->Some_0,
                ) is Some);
            let l = gs[gs.len() - 1];
            assert(l.0 is Some && l.1 is Some && parsed_u8(l.0->Some_0) is Some);
            assert(header_of_groups(gs.last()) is Some);
        }
        if headers_of_groups(gs) is Some {
            assert(header_of_groups(gs.last()) is Some);
            assert forall|i: int| 0 <= i < gs.len() implies (#[trigger] gs[i]).0 is Some && gs[i].1 is Some
                && parsed_u8(gs[i].0->Some_0) is Some by {
                if i < prev.len() {
                    assert(prev[i] == gs[i]);
                }
            }
            let hs = headers_of_groups(gs)->Some_0;
            assert forall|i: int| 0 <= i < gs.len() implies hs[i] == (
                parsed_u8((#[trigger] gs[i]).0->Some_0)->Some_0,
                gs[i].1->Some_0,
            ) by {
                if i < prev.len() {
                    assert(prev[i] == gs[i]);
                }
            }
        }
    }
}

/// The headers of a markdown text are one per `<hN>` match in its HTML, in
/// order: the i-th header has the i-th match's level and text.
pub proof fn lemma_markdown_headers_one_per_match(markdown: Seq<char>)
    ensures
        markdown_headers(markdown) is Some ==> {
            &&& regex_group_pairs(HEADER_PATTERN@, markdown_html(markdown)) is Some
            &&& markdown_headers(markdown)->Some_0.len() == regex_group_pairs(
                HEADER_PATTERN@,
                markdown_html(markdown),
            )->Some_0.len()
            &&& forall|i: int|
                0 <= i < markdown_headers(markdown)->Some_0.len() ==> #[trigger] markdown_headers(markdown)->Some_0[i] == (
                    parsed_u8(regex_group_pairs(HEADER_PATTERN@, markdown_html(markdown))->Some_0[i].0->Some_0)->Some_0,
                    regex_group_pairs(HEADER_PATTERN@, markdown_html(markdown))->Some_0[i].1->Some_0,
                )
        },
{
    if let Some(gs) = regex_group_pairs(HEADER_PATTERN@, markdown_html(markdown)) {
        lemma_headers_of_groups_one_per_match(gs);
        if markdown_headers(markdown) is Some {
            let hs = markdown_headers(markdown)->Some_0;
            assert forall|i: int| 0 <= i < hs.len() implies #[trigger] hs[i] == (
                parsed_u8(gs[i].0->Some_0)->Some_0,
                gs[i].1->Some_0,
            ) by {
                assert(gs[i] == gs[i]);
            }
        }
    }
}

} // verus!
