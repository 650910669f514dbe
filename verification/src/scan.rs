//! The extension filter and the directory scanner's ordering.
//!
//! Reading the directory is the caller's part. What is decided here is which
//! of the entry names pass the filter, and in which order they come out.

use crate::chars::{all_ascii, ascii_lower, chars_of, lowered, lowered_of, string_of};
use crate::scan_laws::{
    lemma_lex_le_total, lemma_lex_le_transitive, lemma_normalized_is_dotted,
    lemma_selection_is_subset,
};
use crate::text::{ends_with, has_prefix, has_suffix, starts_with, texts, trim, trimmed, views};
use vstd::prelude::*;

verus! {

/// The canonical form of one filter entry: trimmed, lower-cased, with a dot
/// in front. An entry of white space alone has none.
pub open spec fn normalized_extension(entry: Seq<char>) -> Option<Seq<char>> {
    let core = trimmed(entry);
    if core.len() == 0 {
        None
    } else {
        let low = lowered(core);
        if starts_with(low, seq!['.']) {
            Some(low)
        } else {
            Some(seq!['.'] + low)
        }
    }
}

/// The canonical forms of the filter's entries, in their order.
pub open spec fn normalized_extensions(filter: Seq<Seq<char>>) -> Seq<Seq<char>>
    decreases filter.len(),
{
    if filter.len() == 0 {
        filter
    } else {
        match normalized_extension(filter.last()) {
            Some(e) => normalized_extensions(filter.drop_last()).push(e),
            None => normalized_extensions(filter.drop_last()),
        }
    }
}

/// The lower-cased name ends with one of the extensions.
pub open spec fn matches_extension(name: Seq<char>, extensions: Seq<Seq<char>>) -> bool {
    exists|i: int| 0 <= i < extensions.len() && ends_with(lowered(name), #[trigger] extensions[i])
}

/// A name passes where there is no extension to ask for, or one matches.
pub open spec fn passes(name: Seq<char>, extensions: Seq<Seq<char>>) -> bool {
    extensions.len() == 0 || matches_extension(name, extensions)
}

/// The names that pass, in their order.
pub open spec fn passing(entries: Seq<Seq<char>>, extensions: Seq<Seq<char>>) -> Seq<Seq<char>>
    decreases entries.len(),
{
    if entries.len() == 0 {
        entries
    } else if passes(entries.last(), extensions) {
        passing(entries.drop_last(), extensions).push(entries.last())
    } else {
        passing(entries.drop_last(), extensions)
    }
}

/// `a` comes before `b`, or is `b`, in the order of a dictionary whose
/// alphabet is the code points.
pub open spec fn lex_le(a: Seq<char>, b: Seq<char>) -> bool
    decreases a.len(),
{
    if a.len() == 0 {
        true
    } else if b.len() == 0 {
        false
    } else if a[0] != b[0] {
        a[0] < b[0]
    } else {
        lex_le(a.skip(1), b.skip(1))
    }
}

/// Each text comes before those behind it.
pub open spec fn sorted(s: Seq<Seq<char>>) -> bool {
    forall|i: int, j: int| 0 <= i <= j < s.len() ==> lex_le(#[trigger] s[i], #[trigger] s[j])
}

/// Two ASCII texts that differ in the case of their letters at most.
pub open spec fn same_letters(a: Seq<char>, b: Seq<char>) -> bool {
    &&& all_ascii(a)
    &&& all_ascii(b)
    &&& a.len() == b.len()
    &&& forall|i: int| 0 <= i < a.len() ==> ascii_lower(#[trigger] a[i]) == ascii_lower(b[i])
}

/// Two filters whose entries have the same letters, one by one.
pub open spec fn same_letters_each(a: Seq<Seq<char>>, b: Seq<Seq<char>>) -> bool {
    &&& a.len() == b.len()
    &&& forall|i: int| 0 <= i < a.len() ==> same_letters(#[trigger] a[i], b[i])
}

/// Brings one filter entry to its canonical form, which begins with a dot.
pub fn normalize_extension(entry: &str) -> (r: Option<String>)
    ensures
        match r {
            Some(e) => normalized_extension(entry@) == Some(e@),
            None => normalized_extension(entry@) is None,
        },
        r matches Some(e) ==> e@.len() >= 1 && e@[0] == '.',
{
    proof {
        lemma_normalized_is_dotted(entry@);
    }
    let raw = chars_of(entry);
    let core = trim(raw.as_slice());
    if core.len() == 0 {
        return None;
    }
    let low = lowered_of(core.as_slice());
    let mut dot: Vec<char> = Vec::new();
    dot.push('.');
    assert(dot@ =~= seq!['.']);
    if has_prefix(low.as_slice(), dot.as_slice()) {
        Some(string_of(low.as_slice()))
    } else {
        dot.extend_from_slice(low.as_slice());
        Some(string_of(dot.as_slice()))
    }
}

/// Brings the filter to its canonical form, dropping the entries that are
/// empty once trimmed.
pub fn normalize_extensions(ext_filter: &[String]) -> (r: Vec<String>)
    ensures
        texts(r@) == normalized_extensions(texts(ext_filter@)),
{
    let ghost f = texts(ext_filter@);
    let mut r: Vec<String> = Vec::new();
    let mut i: usize = 0;
    assert(texts(r@) =~= normalized_extensions(f.take(0)));
    while i < ext_filter.len()
        invariant
            i <= ext_filter.len(),
            f == texts(ext_filter@),
            texts(r@) == normalized_extensions(f.take(i as int)),
        decreases ext_filter.len() - i,
    {
        let ghost before = texts(r@);
        assert(f.take(i + 1).drop_last() =~= f.take(i as int));
        assert(f.take(i + 1).last() == ext_filter@[i as int]@);
        match normalize_extension(ext_filter[i].as_str()) {
            Some(e) => {
                let ghost ev = e@;
                r.push(e);
                assert(texts(r@) =~= before.push(ev));
            },
            None => {},
        }
        i += 1;
    }
    assert(f.take(i as int) =~= f);
    r
}

/// Whether the lower-cased `name` ends with one of `extensions`, which are
/// taken as they stand.
pub fn has_matching_extension(name: &str, extensions: &[String]) -> (r: bool)
    ensures
        r == matches_extension(name@, texts(extensions@)),
{
    let ghost e = texts(extensions@);
    let low = lowered_of(chars_of(name).as_slice());
    let mut i: usize = 0;
    while i < extensions.len()
        invariant
            i <= extensions.len(),
            e == texts(extensions@),
            low@ == lowered(name@),
            forall|j: int| 0 <= j < i ==> !ends_with(low@, #[trigger] e[j]),
        decreases extensions.len() - i,
    {
        let ext = chars_of(extensions[i].as_str());
        assert(ext@ == e[i as int]);
        if has_suffix(low.as_slice(), ext.as_slice()) {
            return true;
        }
        i += 1;
    }
    false
}

/// Whether `a` comes before `b` or is `b`.
pub fn comes_first(a: &[char], b: &[char]) -> (r: bool)
    ensures
        r == lex_le(a@, b@),
{
    let mut i: usize = 0;
    assert(a@.skip(0) =~= a@ && b@.skip(0) =~= b@);
    while i < a.len() && i < b.len() && a[i] == b[i]
        invariant
            i <= a.len(),
            i <= b.len(),
            lex_le(a@.skip(i as int), b@.skip(i as int)) == lex_le(a@, b@),
        decreases a.len() - i,
    {
        assert(a@.skip(i as int).skip(1) =~= a@.skip(i + 1));
        assert(b@.skip(i as int).skip(1) =~= b@.skip(i + 1));
        i += 1;
    }
    if i >= a.len() {
        true
    } else if i >= b.len() {
        false
    } else {
        a[i] < b[i]
    }
}

/// Sorts the texts into the order of `lex_le`.
pub fn sort_texts(items: &Vec<Vec<char>>) -> (r: Vec<Vec<char>>)
    ensures
        sorted(views(r@)),
        views(r@).to_multiset() == views(items@).to_multiset(),
{
    broadcast use vstd::seq_lib::group_to_multiset_ensures;

    let ghost all = views(items@);
    let mut r: Vec<Vec<char>> = Vec::new();
    let mut i: usize = 0;
    assert(views(r@) =~= all.take(0));
    while i < items.len()
        invariant
            i <= items.len(),
            all == views(items@),
            sorted(views(r@)),
            views(r@).to_multiset() == all.take(i as int).to_multiset(),
        decreases items.len() - i,
    {
        let ghost before = views(r@);
        let item = items[i].clone();
        assert(item@ == all[i as int]);
        let mut pos: usize = 0;
        while pos < r.len() && comes_first(r[pos].as_slice(), item.as_slice())
            invariant
                pos <= r.len(),
                before == views(r@),
                forall|k: int| 0 <= k < pos ==> lex_le(#[trigger] before[k], item@),
            decreases r.len() - pos,
        {
            assert(before[pos as int] == r@[pos as int]@);
            pos += 1;
        }
        proof {
            assert forall|k: int| pos <= k < before.len() implies lex_le(item@, #[trigger] before[k]) by {
                assert(before[pos as int] == r@[pos as int]@);
                lemma_lex_le_total(before[pos as int], item@);
                lemma_lex_le_transitive(item@, before[pos as int], before[k]);
            }
        }
        r.insert(pos, item);
        proof {
            let after = views(r@);
            assert(after =~= before.insert(pos as int, item@));
            assert forall|a: int, b: int| 0 <= a <= b < after.len() implies lex_le(
                #[trigger] after[a],
                #[trigger] after[b],
            ) by {
                let x = if a < pos { before[a] } else if a == pos { item@ } else { before[a - 1] };
                let y = if b < pos { before[b] } else if b == pos { item@ } else { before[b - 1] };
                assert(after[a] == x);
                assert(after[b] == y);
                if a == pos && b == pos {
                    lemma_lex_le_total(item@, item@);
                }
            }
            assert(all.take(i + 1) =~= all.take(i as int).push(item@));
            vstd::seq_lib::to_multiset_insert(before, pos as int, item@);
            vstd::seq_lib::to_multiset_build(all.take(i as int), item@);
        }
        i += 1;
    }
    assert(all.take(i as int) =~= all);
    r
}

/// Picks the entries that pass the filter and sorts them. With an empty
/// filter every entry passes.
///
/// What comes out is sorted and holds the entries that pass, each as often
/// as it was given: so each name in it is an entry, and passes.
pub fn select_entries(entries: &Vec<String>, ext_filter: &[String]) -> (r: Vec<String>)
    ensures
        sorted(texts(r@)),
        texts(r@).to_multiset() == passing(
            texts(entries@),
            normalized_extensions(texts(ext_filter@)),
        ).to_multiset(),
        forall|i: int|
            0 <= i < r@.len() ==> texts(entries@).contains(#[trigger] texts(r@)[i]) && passes(
                texts(r@)[i],
                normalized_extensions(texts(ext_filter@)),
            ),
{
    let extensions = normalize_extensions(ext_filter);
    let ghost all = texts(entries@);
    let ghost exts = texts(extensions@);
    let mut kept: Vec<Vec<char>> = Vec::new();
    let mut i: usize = 0;
    assert(views(kept@) =~= passing(all.take(0), exts));
    while i < entries.len()
        invariant
            i <= entries.len(),
            all == texts(entries@),
            exts == texts(extensions@),
            views(kept@) == passing(all.take(i as int), exts),
        decreases entries.len() - i,
    {
        let ghost before = views(kept@);
        assert(all.take(i + 1).drop_last() =~= all.take(i as int));
        assert(all.take(i + 1).last() == entries@[i as int]@);
        if extensions.len() == 0 || has_matching_extension(
            entries[i].as_str(),
            extensions.as_slice(),
        ) {
            let name = chars_of(entries[i].as_str());
            kept.push(name);
            assert(views(kept@) =~= before.push(entries@[i as int]@));
        }
        i += 1;
    }
    assert(all.take(i as int) =~= all);
    let ordered = sort_texts(&kept);
    let mut r: Vec<String> = Vec::new();
    let mut k: usize = 0;
    while k < ordered.len()
        invariant
            k <= ordered.len(),
            r@.len() == k,
            forall|j: int| 0 <= j < k ==> r@[j]@ == ordered@[j]@,
        decreases ordered.len() - k,
    {
        r.push(string_of(ordered[k].as_slice()));
        k += 1;
    }
    assert(texts(r@) =~= views(ordered@));
    proof {
        lemma_selection_is_subset(texts(r@), all, exts);
    }
    r
}

} // verus!
