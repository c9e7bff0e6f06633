//! Choosing the entries of a directory listing by kind and by name.

use vstd::prelude::*;
use crate::curl_from_reqwest::opt_str_view;
use crate::pattern::string_views;
use crate::text::{chars_of, contains_chars, contains_seq, occurs_at};

verus! {

/// One entry of a directory: its file name and whether it is a directory or
/// a regular file.
pub struct DirEntryInfo {
    pub name: String,
    pub is_dir: bool,
    pub is_file: bool,
}

/// The views of a sequence of directory entries.
pub open spec fn entry_views(v: Seq<DirEntryInfo>) -> Seq<(Seq<char>, bool, bool)> {
    Seq::new(v.len(), |i: int| (v[i].name@, v[i].is_dir, v[i].is_file))
}

/// Whether an entry is kept: `dir_filter` `Some(true)` keeps directories
/// only, `Some(false)` regular files only, `None` both; a `text` keeps only
/// names that contain it.
pub open spec fn entry_kept(e: (Seq<char>, bool, bool), text: Option<Seq<char>>, dir_filter: Option<bool>) -> bool {
    &&& (dir_filter == Some(true) ==> e.1)
    &&& (dir_filter == Some(false) ==> e.2)
    &&& (text matches Some(t) ==> contains_seq(e.0, t))
}

/// The names of the kept entries, in the order of the listing.
pub open spec fn kept_names(
    es: Seq<(Seq<char>, bool, bool)>,
    text: Option<Seq<char>>,
    dir_filter: Option<bool>,
) -> Seq<Seq<char>>
    decreases es.len(),
{
    if es.len() == 0 {
        Seq::empty()
    } else if entry_kept(es.last(), text, dir_filter) {
        kept_names(es.drop_last(), text, dir_filter).push(es.last().0)
    } else {
        kept_names(es.drop_last(), text, dir_filter)
    }
}

/// The names of the entries that pass the filters, in the order of the
/// listing: with `dir_filter` `Some(true)` directories only, with
/// `Some(false)` regular files only, with `None` all; with a `text`, only
/// names that contain it.
pub fn select_entries(entries: &Vec<DirEntryInfo>, text: Option<&str>, dir_filter: Option<bool>) -> (r: Vec<String>)
    ensures
        string_views(r@) == kept_names(entry_views(entries@), opt_str_view(text), dir_filter),
{
    let ghost es = entry_views(entries@);
    let needle = match text {
        Some(t) => Some(chars_of(t)),
        None => None,
    };
    let mut r: Vec<String> = Vec::new();
    let mut i: usize = 0;
    while i < entries.len()
        invariant
            i <= entries.len(),
            es == entry_views(entries@),
            match needle {
                Some(n) => opt_str_view(text) == Some(n@),
                None => text is None,
            },
            string_views(r@) == kept_names(es.take(i as int), opt_str_view(text), dir_filter),
        decreases entries.len() - i,
    {
        let e = &entries[i];
        assert(es.take(i + 1).drop_last() == es.take(i as int));
        assert(es.take(i + 1).last() == es[i as int]);
        let mut keep = true;
        if dir_filter == Some(true) && !e.is_dir {
            keep = false;
        }
        if dir_filter == Some(false) && !e.is_file {
            keep = false;
        }
        if keep {
            match &needle {
                Some(n) => {
                    if !contains_chars(&chars_of(e.name.as_str()), n) {
                        keep = false;
                    }
                },
                None => {},
            }
        }
        assert(keep == entry_kept(es[i as int], opt_str_view(text), dir_filter));
        if keep {
            let ghost before = string_views(r@);
            r.push(e.name.clone());
            assert(string_views(r@) =~= before.push(e.name@));
        }
        i += 1;
    }
    assert(es.take(entries.len() as int) == es);
    r
}

/// Every name kept under a `text` filter contains that text.
pub proof fn lemma_kept_names_contain_text(
    es: Seq<(Seq<char>, bool, bool)>,
    t: Seq<char>,
    dir_filter: Option<bool>,
)
    ensures
        forall|i: int|
            0 <= i < kept_names(es, Some(t), dir_filter).len() ==> contains_seq(
                #[trigger] kept_names(es, Some(t), dir_filter)[i],
                t,
            ),
    decreases es.len(),
{
    if es.len() > 0 {
        lemma_kept_names_contain_text(es.drop_last(), t, dir_filter);
        let prev = kept_names(es.drop_last(), Some(t), dir_filter);
        let all = kept_names(es, Some(t), dir_filter);
        assert forall|i: int| 0 <= i < all.len() implies contains_seq(#[trigger] all[i], t) by {
            if i < prev.len() {
                assert(all[i] == prev[i]);
            }
        }
    }
}

/// Without filters every name is kept, in order.
pub proof fn lemma_no_filter_keeps_all(es: Seq<(Seq<char>, bool, bool)>)
    ensures
        kept_names(es, None, None) == Seq::new(es.len(), |i: int| es[i].0),
    decreases es.len(),
{
    if es.len() > 0 {
        lemma_no_filter_keeps_all(es.drop_last());
        assert(kept_names(es, None, None) =~= Seq::new(es.len(), |i: int| es[i].0));
    }
}

/// Where each entry is either a directory or a regular file, the directories
/// and the regular files kept together are all the entries kept without a
/// kind filter.
pub proof fn lemma_kinds_partition(es: Seq<(Seq<char>, bool, bool)>, text: Option<Seq<char>>)
    requires
        forall|i: int| 0 <= i < es.len() ==> es[i].1 != es[i].2,
    ensures
        kept_names(es, text, None).len() == kept_names(es, text, Some(true)).len() + kept_names(
            es,
            text,
            Some(false),
        ).len(),
    decreases es.len(),
{
    if es.len() > 0 {
        lemma_kinds_partition(es.drop_last(), text);
    }
}

/// A name is kept exactly when some entry with that name passes the filters.
pub proof fn lemma_kept_names_contains(
    es: Seq<(Seq<char>, bool, bool)>,
    text: Option<Seq<char>>,
    dir_filter: Option<bool>,
    n: Seq<char>,
)
    ensures
        kept_names(es, text, dir_filter).contains(n) <==> exists|i: int|
            0 <= i < es.len() && es[i].0 == n && entry_kept(es[i], text, dir_filter),
    decreases es.len(),
{
    if es.len() > 0 {
        let prev = es.drop_last();
        lemma_kept_names_contains(prev, text, dir_filter, n);
        let k = kept_names(prev, text, dir_filter);
        let all = kept_names(es, text, dir_filter);
        if all.contains(n) {
            let j = choose|j: int| 0 <= j < all.len() && all[j] == n;
            if j < k.len() {
                assert(k[j] == n);
                assert(k.contains(n));
                let i = choose|i: int| 0 <= i < prev.len() && prev[i].0 == n && entry_kept(prev[i], text, dir_filter);
                assert(es[i] == prev[i]);
            } else {
                assert(es[es.len() - 1].0 == n);
            }
        }
        if exists|i: int| 0 <= i < es.len() && es[i].0 == n && entry_kept(es[i], text, dir_filter) {
            let i = choose|i: int| 0 <= i < es.len() && es[i].0 == n && entry_kept(es[i], text, dir_filter);
            if i < es.len() - 1 {
                assert(prev[i] == es[i]);
                assert(k.contains(n));
                let j = choose|j: int| 0 <= j < k.len() && k[j] == n;
                if entry_kept(es.last(), text, dir_filter) {
                    assert(all[j] == n);
                } else {
                    assert(all[j] == n);
                }
            } else {
                assert(all[all.len() - 1] == n);
            }
        }
    }
}

/// Listing by kind: directories kept and regular files kept are both among
/// the entries kept without a kind filter; where names are distinct and no
/// entry is both, they have no name in common; where every entry is a
/// directory or a regular file, together they are all the entries kept.
pub proof fn lemma_kinds_as_sets(es: Seq<(Seq<char>, bool, bool)>, text: Option<Seq<char>>, n: Seq<char>)
    ensures
        kept_names(es, text, Some(true)).contains(n) ==> kept_names(es, text, None).contains(n),
        kept_names(es, text, Some(false)).contains(n) ==> kept_names(es, text, None).contains(n),
        (forall|i: int, j: int| 0 <= i < j < es.len() ==> es[i].0 != es[j].0) && (forall|i: int|
            0 <= i < es.len() ==> !(es[i].1 && es[i].2)) ==> !(kept_names(es, text, Some(true)).contains(n)
            && kept_names(es, text, Some(false)).contains(n)),
        (forall|i: int| 0 <= i < es.len() ==> es[i].1 || es[i].2) ==> (kept_names(es, text, None).contains(n)
            ==> kept_names(es, text, Some(true)).contains(n) || kept_names(es, text, Some(false)).contains(n)),
{
    lemma_kept_names_contains(es, text, Some(true), n);
    lemma_kept_names_contains(es, text, Some(false), n);
    lemma_kept_names_contains(es, text, None, n);
    if kept_names(es, text, Some(true)).contains(n) && kept_names(es, text, Some(false)).contains(n) && (forall|
        i: int,
        j: int,
    | 0 <= i < j < es.len() ==> es[i].0 != es[j].0) {
        let i = choose|i: int| 0 <= i < es.len() && es[i].0 == n && entry_kept(es[i], text, Some(true));
        let j = choose|j: int| 0 <= j < es.len() && es[j].0 == n && entry_kept(es[j], text, Some(false));
        if i < j {
            assert(es[i].0 != es[j].0);
        } else if j < i {
            assert(es[j].0 != es[i].0);
        }
    }
}

/// The names of `ns` that contain `t`, in order.
pub open spec fn names_containing(ns: Seq<Seq<char>>, t: Seq<char>) -> Seq<Seq<char>>
    decreases ns.len(),
{
    if ns.len() == 0 {
        Seq::empty()
    } else if contains_seq(ns.last(), t) {
        names_containing(ns.drop_last(), t).push(ns.last())
    } else {
        names_containing(ns.drop_last(), t)
    }
}

/// Filtering by a text is filtering the unfiltered list by that text; in
/// particular the empty text keeps every name.
pub proof fn lemma_text_filter(es: Seq<(Seq<char>, bool, bool)>, t: Seq<char>, dir_filter: Option<bool>)
    ensures
        kept_names(es, Some(t), dir_filter) == names_containing(kept_names(es, None, dir_filter), t),
        kept_names(es, Some(Seq::<char>::empty()), dir_filter) == kept_names(es, None, dir_filter),
    decreases es.len(),
{
    if es.len() > 0 {
        lemma_text_filter(es.drop_last(), t, dir_filter);
        let ks = kept_names(es.drop_last(), None, dir_filter);
        if entry_kept(es.last(), None, dir_filter) {
            assert(kept_names(es, None, dir_filter).drop_last() == ks);
        }
        assert(es.last().0.subrange(0, 0) =~= Seq::<char>::empty());
        assert(occurs_at(es.last().0, Seq::<char>::empty(), 0));
    }
}

/// The kind filter looks at the kind alone, never at the name: with
/// `Some(true)` an entry is kept exactly when it is a directory and passes the
/// text filter, with `Some(false)` exactly when it is a regular file and
/// passes it; without filters every entry is kept, and a text keeps exactly
/// the names that contain it.
pub proof fn lemma_entry_filters(e: (Seq<char>, bool, bool), text: Option<Seq<char>>, t: Seq<char>)
    ensures
        entry_kept(e, None, None),
        entry_kept(e, Some(t), None) == contains_seq(e.0, t),
        entry_kept(e, text, Some(true)) == (e.1 && entry_kept(e, text, None)),
        entry_kept(e, text, Some(false)) == (e.2 && entry_kept(e, text, None)),
{
}

/// The kept names are the names of exactly the entries that pass the
/// filters, each once and in the order of the listing: `idx` lists their
/// positions, increasing.
pub proof fn lemma_kept_names_in_listing_order(
    es: Seq<(Seq<char>, bool, bool)>,
    text: Option<Seq<char>>,
    dir_filter: Option<bool>,
) -> (idx: Seq<int>)
    ensures
        idx.len() == kept_names(es, text, dir_filter).len(),
        forall|j: int|
            0 <= j < idx.len() ==> 0 <= #[trigger] idx[j] < es.len() && kept_names(es, text, dir_filter)[j]
                == es[idx[j]].0 && entry_kept(es[idx[j]], text, dir_filter),
        forall|j: int, k: int| 0 <= j < k < idx.len() ==> #[trigger] idx[j] < #[trigger] idx[k],
        forall|i: int|
            0 <= i < es.len() && entry_kept(#[trigger] es[i], text, dir_filter) ==> idx.contains(i),
    decreases es.len(),
{
    if es.len() == 0 {
        Seq::empty()
    } else {
        let prev = es.drop_last();
        let p = lemma_kept_names_in_listing_order(prev, text, dir_filter);
        assert(forall|i: int| 0 <= i < prev.len() ==> #[trigger] prev[i] == es[i]);
        let n = (es.len() - 1) as int;
        if entry_kept(es.last(), text, dir_filter) {
            let idx = p.push(n);
            assert forall|i: int| 0 <= i < es.len() && entry_kept(#[trigger] es[i], text, dir_filter) implies idx.contains(i) by {
                if i < n {
                    assert(prev[i] == es[i]);
                    assert(p.contains(i));
                    let j = choose|j: int| 0 <= j < p.len() && p[j] == i;
                    assert(idx[j] == i);
                } else {
                    assert(idx[idx.len() - 1] == i);
                }
            }
            idx
        } else {
            assert forall|i: int| 0 <= i < es.len() && entry_kept(#[trigger] es[i], text, dir_filter) implies p.contains(i) by {
                if i < n {
                    assert(prev[i] == es[i]);
                }
            }
            p
        }
    }
}

} // verus!
