//! What holds of the scanner: the order it sorts by, and what the letter
//! case and a leading dot do not change.

use crate::chars::{all_ascii, ascii_lower, is_ascii_char, is_space, lowered};
use crate::scan::{
    lex_le, normalized_extension, normalized_extensions, passes, passing, same_letters,
    same_letters_each, sorted,
};
use crate::text::{starts_with, trimmed};
use crate::text_laws::{
    lemma_trim_end, lemma_trim_end_bound, lemma_trim_start, lemma_trim_start_bound,
};
use vstd::prelude::*;

verus! {

/// Of two texts one comes before the other.
pub proof fn lemma_lex_le_total(a: Seq<char>, b: Seq<char>)
    ensures
        lex_le(a, b) || lex_le(b, a),
    decreases a.len(),
{
    if a.len() > 0 && b.len() > 0 && a[0] == b[0] {
        lemma_lex_le_total(a.skip(1), b.skip(1));
    }
}

/// What comes before a text comes before all that the text comes before.
pub proof fn lemma_lex_le_transitive(a: Seq<char>, b: Seq<char>, c: Seq<char>)
    requires
        lex_le(a, b),
        lex_le(b, c),
    ensures
        lex_le(a, c),
    decreases a.len(),
{
    if a.len() > 0 && b.len() > 0 && c.len() > 0 && a[0] == b[0] && b[0] == c[0] {
        lemma_lex_le_transitive(a.skip(1), b.skip(1), c.skip(1));
    }
}

/// Two texts that come before each other are one text.
pub proof fn lemma_lex_le_antisymmetric(a: Seq<char>, b: Seq<char>)
    requires
        lex_le(a, b),
        lex_le(b, a),
    ensures
        a == b,
    decreases a.len(),
{
    if a.len() > 0 && b.len() > 0 {
        lemma_lex_le_antisymmetric(a.skip(1), b.skip(1));
        assert(a =~= seq![a[0]] + a.skip(1));
        assert(b =~= seq![b[0]] + b.skip(1));
    } else {
        assert(a =~= b);
    }
}

/// There is one way to sort: two sorted sequences that hold the same texts,
/// each as often as the other, are one sequence.
pub proof fn lemma_sorted_is_unique(a: Seq<Seq<char>>, b: Seq<Seq<char>>)
    requires
        sorted(a),
        sorted(b),
        a.to_multiset() == b.to_multiset(),
    ensures
        a == b,
    decreases a.len(),
{
    broadcast use vstd::seq_lib::group_to_multiset_ensures;

    assert(a.len() == b.len()) by {
        vstd::seq_lib::to_multiset_len(a);
        vstd::seq_lib::to_multiset_len(b);
    }
    if a.len() > 0 {
        assert(a.contains(a[0]));
        assert(b.to_multiset().count(a[0]) > 0);
        assert(b.contains(a[0]));
        let k = choose|k: int| 0 <= k < b.len() && b[k] == a[0];
        assert(lex_le(b[0], b[k]));
        assert(b.contains(b[0]));
        assert(a.to_multiset().count(b[0]) > 0);
        assert(a.contains(b[0]));
        let l = choose|l: int| 0 <= l < a.len() && a[l] == b[0];
        assert(lex_le(a[0], a[l]));
        lemma_lex_le_antisymmetric(a[0], b[0]);
        let ra = a.remove(0);
        let rb = b.remove(0);
        vstd::seq_lib::to_multiset_remove(a, 0);
        vstd::seq_lib::to_multiset_remove(b, 0);
        assert forall|i: int, j: int| 0 <= i <= j < ra.len() implies lex_le(
            #[trigger] ra[i],
            #[trigger] ra[j],
        ) by {
            assert(ra[i] == a[i + 1] && ra[j] == a[j + 1]);
        }
        assert forall|i: int, j: int| 0 <= i <= j < rb.len() implies lex_le(
            #[trigger] rb[i],
            #[trigger] rb[j],
        ) by {
            assert(rb[i] == b[i + 1] && rb[j] == b[j + 1]);
        }
        lemma_sorted_is_unique(ra, rb);
        assert(a =~= seq![a[0]] + ra);
        assert(b =~= seq![b[0]] + rb);
    } else {
        assert(a =~= b);
    }
}

/// White space stands at the same places in two texts with the same
/// letters.
pub proof fn lemma_same_letters_same_spaces(a: Seq<char>, b: Seq<char>)
    requires
        same_letters(a, b),
    ensures
        forall|i: int| 0 <= i < a.len() ==> is_space(#[trigger] a[i]) == is_space(b[i]),
{
    assert forall|i: int| 0 <= i < a.len() implies is_space(#[trigger] a[i]) == is_space(b[i]) by {
        assert(ascii_lower(a[i]) == ascii_lower(b[i]));
        assert(is_ascii_char(a[i]) && is_ascii_char(b[i]));
    }
}

/// The canonical form of a filter entry begins with a dot.
pub proof fn lemma_normalized_is_dotted(entry: Seq<char>)
    ensures
        normalized_extension(entry) matches Some(e) ==> e.len() >= 1 && e[0] == '.',
{
    let low = lowered(trimmed(entry));
    if trimmed(entry).len() > 0 && starts_with(low, seq!['.']) {
        assert(low.subrange(0, 1)[0] == low[0]);
    }
}

/// The letter case of a filter entry does not tell in its canonical form.
pub proof fn lemma_letter_case_is_ignored(a: Seq<char>, b: Seq<char>)
    requires
        same_letters(a, b),
    ensures
        normalized_extension(a) == normalized_extension(b),
{
    lemma_same_letters_same_spaces(a, b);
    let from = lemma_trim_start_bound(a);
    assert forall|k: int| 0 <= k < from implies is_space(b[k]) by {
        assert(is_space(a[k]) == is_space(b[k]));
    }
    if from < a.len() {
        assert(is_space(a[from]) == is_space(b[from]));
    }
    lemma_trim_start(b, from);
    let ra = a.skip(from);
    let rb = b.skip(from);
    let to = lemma_trim_end_bound(ra);
    assert forall|k: int| to <= k < rb.len() implies is_space(rb[k]) by {
        assert(ra[k] == a[k + from]);
        assert(rb[k] == b[k + from]);
        assert(is_space(a[k + from]) == is_space(b[k + from]));
    }
    if to > 0 {
        assert(ra[to - 1] == a[to - 1 + from]);
        assert(rb[to - 1] == b[to - 1 + from]);
        assert(is_space(a[to - 1 + from]) == is_space(b[to - 1 + from]));
    }
    lemma_trim_end(rb, to);
    let ta = trimmed(a);
    let tb = trimmed(b);
    assert(ta == ra.take(to));
    assert(tb == rb.take(to));
    assert forall|i: int| 0 <= i < ta.len() implies is_ascii_char(#[trigger] ta[i])
        && is_ascii_char(tb[i]) && ascii_lower(ta[i]) == ascii_lower(tb[i]) by {
        assert(ta[i] == a[i + from]);
        assert(tb[i] == b[i + from]);
    }
    assert(all_ascii(ta));
    assert(all_ascii(tb));
    assert(lowered(ta) =~= lowered(tb));
}

/// The canonical form of an entry is told by its trimmed text in lower
/// case: entries that agree there, and are not blank, have one form.
pub proof fn lemma_form_follows_lowered(a: Seq<char>, b: Seq<char>)
    requires
        trimmed(a).len() > 0,
        trimmed(b).len() > 0,
        lowered(trimmed(a)) == lowered(trimmed(b)),
    ensures
        normalized_extension(a) == normalized_extension(b),
{
}

/// Whether a name passes is told by the name in lower case.
pub proof fn lemma_matching_follows_lowered(
    name_a: Seq<char>,
    name_b: Seq<char>,
    extensions: Seq<Seq<char>>,
)
    requires
        lowered(name_a) == lowered(name_b),
    ensures
        passes(name_a, extensions) == passes(name_b, extensions),
{
}

/// An ASCII entry has one canonical form with and without a dot in front.
pub proof fn lemma_leading_dot_is_optional(core: Seq<char>)
    requires
        all_ascii(core),
        core.len() > 0,
        !is_space(core[0]),
        !is_space(core.last()),
        core[0] != '.',
    ensures
        normalized_extension(seq!['.'] + core) == normalized_extension(core),
        normalized_extension(core) == Some(seq!['.'] + lowered(core)),
{
    let dotted = seq!['.'] + core;
    lemma_trim_start(core, 0);
    lemma_trim_end(core, core.len() as int);
    assert(core.skip(0) =~= core);
    assert(core.take(core.len() as int) =~= core);
    assert(trimmed(core) == core);
    assert(dotted[0] == '.');
    assert(dotted.last() == core.last());
    lemma_trim_start(dotted, 0);
    lemma_trim_end(dotted, dotted.len() as int);
    assert(dotted.skip(0) =~= dotted);
    assert(dotted.take(dotted.len() as int) =~= dotted);
    assert(trimmed(dotted) == dotted);
    assert forall|i: int| 0 <= i < dotted.len() implies is_ascii_char(#[trigger] dotted[i]) by {
        if i > 0 {
            assert(dotted[i] == core[i - 1]);
        }
    }
    assert(lowered(dotted) =~= seq!['.'] + lowered(core));
    assert(lowered(dotted).subrange(0, 1) =~= seq!['.']);
    assert(lowered(core)[0] == ascii_lower(core[0]));
    assert(lowered(core).subrange(0, 1)[0] == lowered(core)[0]);
    assert(!starts_with(lowered(core), seq!['.']));
}

/// Filters with the same letters have the same canonical form.
pub proof fn lemma_filters_agree(a: Seq<Seq<char>>, b: Seq<Seq<char>>)
    requires
        same_letters_each(a, b),
    ensures
        normalized_extensions(a) == normalized_extensions(b),
    decreases a.len(),
{
    if a.len() > 0 {
        let ha = a.drop_last();
        let hb = b.drop_last();
        assert forall|i: int| 0 <= i < ha.len() implies same_letters(#[trigger] ha[i], hb[i]) by {
            assert(same_letters(a[i], b[i]));
        }
        lemma_filters_agree(ha, hb);
        assert(same_letters(a[a.len() - 1], b[a.len() - 1]));
        lemma_letter_case_is_ignored(a.last(), b.last());
    } else {
        assert(a =~= b);
    }
}

/// Matching does not tell the letter case, neither of the name nor of the
/// filter.
pub proof fn lemma_matching_ignores_case(
    name_a: Seq<char>,
    name_b: Seq<char>,
    filter_a: Seq<Seq<char>>,
    filter_b: Seq<Seq<char>>,
)
    requires
        same_letters(name_a, name_b),
        same_letters_each(filter_a, filter_b),
    ensures
        passes(name_a, normalized_extensions(filter_a)) == passes(
            name_b,
            normalized_extensions(filter_b),
        ),
{
    lemma_filters_agree(filter_a, filter_b);
    assert(lowered(name_a) =~= lowered(name_b));
}

/// The names that pass are the entries that pass: none is made up, none is
/// left out.
pub proof fn lemma_passing_are_entries(entries: Seq<Seq<char>>, extensions: Seq<Seq<char>>)
    ensures
        forall|x: Seq<char>|
            passing(entries, extensions).contains(x) <==> entries.contains(x) && passes(
                x,
                extensions,
            ),
    decreases entries.len(),
{
    let kept = passing(entries, extensions);
    if entries.len() > 0 {
        let head = entries.drop_last();
        let last = entries.last();
        lemma_passing_are_entries(head, extensions);
        assert forall|x: Seq<char>| kept.contains(x) <==> entries.contains(x) && passes(
            x,
            extensions,
        ) by {
            if kept.contains(x) {
                let k = choose|k: int| 0 <= k < kept.len() && kept[k] == x;
                if passes(last, extensions) && k == kept.len() - 1 {
                    assert(entries[entries.len() - 1] == x);
                } else {
                    assert(passing(head, extensions)[k] == x);
                    assert(head.contains(x));
                    let j = choose|j: int| 0 <= j < head.len() && head[j] == x;
                    assert(entries[j] == x);
                }
            }
            if entries.contains(x) && passes(x, extensions) {
                let j = choose|j: int| 0 <= j < entries.len() && entries[j] == x;
                if j == entries.len() - 1 {
                    assert(kept[kept.len() - 1] == x);
                } else {
                    assert(head[j] == x);
                    assert(passing(head, extensions).contains(x));
                    let k = choose|k: int|
                        0 <= k < passing(head, extensions).len() && passing(head, extensions)[k]
                            == x;
                    assert(kept[k] == x);
                }
            }
        }
    }
}

/// What a scan hands out is a part of the entries, and each name in it
/// passes the filter.
pub proof fn lemma_selection_is_subset(
    selected: Seq<Seq<char>>,
    entries: Seq<Seq<char>>,
    extensions: Seq<Seq<char>>,
)
    requires
        selected.to_multiset() == passing(entries, extensions).to_multiset(),
    ensures
        forall|i: int|
            0 <= i < selected.len() ==> entries.contains(#[trigger] selected[i]) && passes(
                selected[i],
                extensions,
            ),
{
    broadcast use vstd::seq_lib::group_to_multiset_ensures;

    lemma_passing_are_entries(entries, extensions);
    assert forall|i: int| 0 <= i < selected.len() implies entries.contains(
        #[trigger] selected[i],
    ) && passes(selected[i], extensions) by {
        assert(selected.contains(selected[i]));
        assert(selected.to_multiset().count(selected[i]) > 0);
        assert(passing(entries, extensions).contains(selected[i]));
    }
}

} // verus!
