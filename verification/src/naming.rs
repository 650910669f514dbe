//! Component names: a file's stem, split at hyphens, each piece capitalised.

use crate::chars::{all_ascii, ascii_upper, capital, capital_of, chars_of, is_ascii_char, string_of};
use crate::text::{
    copy_range, first_index, index_of_char, index_of_char_from, remove_char, split_on, without,
};
use crate::text_laws::{
    lemma_first_index_range, lemma_split_nothing, lemma_without_holds, lemma_without_keeps,
    lemma_without_nothing,
};
use vstd::prelude::*;

verus! {

/// A piece with its first character upper-cased; an empty piece stays empty.
pub open spec fn capitalized(piece: Seq<char>) -> Seq<char> {
    if piece.len() == 0 {
        piece
    } else {
        capital(piece[0]) + piece.skip(1)
    }
}

/// The pieces capitalised and set one behind the other.
pub open spec fn camel(pieces: Seq<Seq<char>>) -> Seq<char>
    decreases pieces.len(),
{
    if pieces.len() == 0 {
        Seq::empty()
    } else {
        capitalized(pieces[0]) + camel(pieces.skip(1))
    }
}

/// The component name of a stem: blanks dropped, split at `-`, each piece
/// capitalised, nothing in between.
pub open spec fn component_name(stem: Seq<char>) -> Seq<char> {
    camel(split_on(without(stem, ' '), '-'))
}

/// A file name up to its first dot.
pub open spec fn stem(file: Seq<char>) -> Seq<char> {
    file.take(first_index(file, '.'))
}

/// Upper-cases the first character of `piece`.
pub fn capitalize(piece: &[char]) -> (r: Vec<char>)
    ensures
        r@ == capitalized(piece@),
        piece@.len() > 0 ==> r@.len() > 0,
{
    if piece.len() == 0 {
        Vec::new()
    } else {
        let mut r = capital_of(piece[0]);
        let rest = copy_range(piece, 1, piece.len());
        assert(piece@.subrange(1, piece@.len() as int) =~= piece@.skip(1));
        r.extend_from_slice(rest.as_slice());
        r
    }
}

/// A character that is neither a blank nor a hyphen.
pub open spec fn is_plain(c: char) -> bool {
    c != ' ' && c != '-'
}

/// Derives the component name of a file's stem. A stem that holds anything
/// but blanks and hyphens has a name that is not empty.
pub fn make_component_name(filename: &str) -> (name: String)
    ensures
        name@ == component_name(filename@),
        (exists|i: int| 0 <= i < filename@.len() && is_plain(filename@[i])) ==> name@.len() > 0,
{
    let raw = chars_of(filename);
    let clean = remove_char(raw.as_slice(), ' ');
    let ghost whole = clean@;
    let mut out: Vec<char> = Vec::new();
    let mut start: usize = 0;
    let mut done = false;
    assert(whole.skip(0) =~= whole);
    while !done
        invariant
            start <= clean.len(),
            whole == clean@,
            !done ==> out@ + camel(split_on(whole.skip(start as int), '-')) == camel(
                split_on(whole, '-'),
            ),
            done ==> out@ == camel(split_on(whole, '-')),
            forall|k: int|
                0 <= k < (if done { whole.len() as int } else { start as int }) && whole[k] != '-'
                    ==> out@.len() > 0,
        decreases clean.len() - start + (if done { 0int } else { 1int }),
    {
        let ghost rest = whole.skip(start as int);
        let end = index_of_char_from(clean.as_slice(), '-', start);
        let piece = copy_range(clean.as_slice(), start, end);
        let cap = capitalize(piece.as_slice());
        proof {
            assert(rest.take(end - start) =~= piece@);
            lemma_first_index_range(rest, '-');
            if end < clean.len() {
                assert(rest[end - start] == whole[end as int]);
                let tail = split_on(rest.skip(end - start + 1), '-');
                assert(split_on(rest, '-') == seq![piece@] + tail);
                assert((seq![piece@] + tail).skip(1) =~= tail);
                assert(rest.skip(end - start + 1) =~= whole.skip(end + 1));
                assert(out@ + cap@ + camel(tail) =~= out@ + camel(split_on(rest, '-')));
            } else {
                assert(rest.take(end - start) =~= rest);
                assert(split_on(rest, '-') == seq![rest]);
                assert(seq![rest].skip(1) =~= Seq::<Seq<char>>::empty());
                assert(camel(seq![rest].skip(1)) =~= Seq::<char>::empty());
                assert(out@ + cap@ =~= out@ + camel(split_on(rest, '-')));
            }
        }
        out.extend_from_slice(cap.as_slice());
        if end < clean.len() {
            start = end + 1;
        } else {
            done = true;
        }
    }
    proof {
        if exists|i: int| 0 <= i < filename@.len() && is_plain(filename@[i]) {
            let i = choose|i: int| 0 <= i < filename@.len() && is_plain(filename@[i]);
            lemma_without_keeps(filename@, ' ', i);
            let k = choose|k: int| 0 <= k < whole.len() && whole[k] == filename@[i];
            assert(whole[k] != '-');
        }
    }
    string_of(out.as_slice())
}

/// Deriving a name from a derived name changes nothing, for a stem without
/// a hyphen whose first character, blanks apart, is ASCII.
pub proof fn lemma_name_is_stable(stem: Seq<char>)
    requires
        forall|k: int| 0 <= k < stem.len() ==> stem[k] != '-',
        without(stem, ' ').len() > 0 ==> is_ascii_char(without(stem, ' ')[0]),
    ensures
        component_name(component_name(stem)) == component_name(stem),
{
    let clean = without(stem, ' ');
    lemma_without_holds(stem, ' ');
    assert forall|k: int| 0 <= k < clean.len() implies clean[k] != '-' by {
        assert(stem.contains(clean[k]));
    }
    lemma_split_nothing(clean, '-');
    assert(seq![clean].skip(1) =~= Seq::<Seq<char>>::empty());
    let name = component_name(stem);
    assert(camel(seq![clean].skip(1)) =~= Seq::<char>::empty());
    assert(camel(seq![clean]) =~= capitalized(clean));
    assert(name =~= capitalized(clean));
    if clean.len() == 0 {
        assert(without(name, ' ') =~= name);
        lemma_split_nothing(name, '-');
        assert(seq![name].skip(1) =~= Seq::<Seq<char>>::empty());
        assert(camel(seq![name].skip(1)) =~= Seq::<char>::empty());
        assert(component_name(name) =~= name);
    } else {
        let first = ascii_upper(clean[0]);
        assert(name =~= seq![first] + clean.skip(1));
        assert(first != ' ' && first != '-');
        assert forall|k: int| 0 <= k < name.len() implies name[k] != ' ' && name[k] != '-' by {
            if k > 0 {
                assert(name[k] == clean[k]);
            }
        }
        lemma_without_nothing(name, ' ');
        lemma_split_nothing(name, '-');
        assert(seq![name].skip(1) =~= Seq::<Seq<char>>::empty());
        assert(ascii_upper(first) == first);
        assert(is_ascii_char(first));
        assert(name.skip(1) =~= clean.skip(1));
        assert(capitalized(name) =~= name);
        assert(camel(seq![name].skip(1)) =~= Seq::<char>::empty());
        assert(camel(seq![name]) =~= capitalized(name));
        assert(component_name(name) =~= name);
    }
}

/// A piece of plain ASCII characters is capitalised into plain ASCII
/// characters.
proof fn lemma_capitalized_is_plain(piece: Seq<char>)
    requires
        forall|k: int| 0 <= k < piece.len() ==> is_plain(piece[k]) && is_ascii_char(piece[k]),
    ensures
        forall|k: int|
            0 <= k < capitalized(piece).len() ==> is_plain(capitalized(piece)[k]) && is_ascii_char(
                capitalized(piece)[k],
            ),
        capitalized(piece).len() == piece.len(),
{
    if piece.len() > 0 {
        let first = ascii_upper(piece[0]);
        assert(is_plain(piece[0]) && is_ascii_char(piece[0]));
        assert(capitalized(piece) =~= seq![first] + piece.skip(1));
        assert forall|k: int| 0 <= k < capitalized(piece).len() implies is_plain(
            capitalized(piece)[k],
        ) && is_ascii_char(capitalized(piece)[k]) by {
            if k > 0 {
                assert(capitalized(piece)[k] == piece[k]);
            }
        }
    }
}

/// The pieces of a text of ASCII characters without blanks make a name of
/// plain ASCII characters.
proof fn lemma_camel_is_plain(s: Seq<char>)
    requires
        forall|k: int| 0 <= k < s.len() ==> s[k] != ' ' && is_ascii_char(s[k]),
    ensures
        forall|k: int|
            0 <= k < camel(split_on(s, '-')).len() ==> is_plain(camel(split_on(s, '-'))[k]),
    decreases s.len(),
{
    lemma_first_index_range(s, '-');
    let at = first_index(s, '-');
    let piece = s.take(at);
    assert forall|k: int| 0 <= k < piece.len() implies is_plain(piece[k]) && is_ascii_char(
        piece[k],
    ) by {
        assert(piece[k] == s[k]);
    }
    lemma_capitalized_is_plain(piece);
    if at < s.len() {
        let rest = s.skip(at + 1);
        assert forall|k: int| 0 <= k < rest.len() implies rest[k] != ' ' && is_ascii_char(
            rest[k],
        ) by {
            assert(rest[k] == s[k + at + 1]);
        }
        lemma_camel_is_plain(rest);
        let tail = split_on(rest, '-');
        assert(split_on(s, '-') == seq![piece] + tail);
        assert((seq![piece] + tail).skip(1) =~= tail);
        assert(camel(split_on(s, '-')) == capitalized(piece) + camel(tail));
    } else {
        assert(piece =~= s);
        assert(split_on(s, '-') == seq![s]);
        assert(seq![s].skip(1) =~= Seq::<Seq<char>>::empty());
        assert(camel(seq![s].skip(1)) =~= Seq::<char>::empty());
        assert(camel(split_on(s, '-')) =~= capitalized(piece));
    }
}

/// The name of an ASCII stem holds neither a blank nor a hyphen.
pub proof fn lemma_name_is_plain(stem: Seq<char>)
    requires
        all_ascii(stem),
    ensures
        forall|k: int|
            0 <= k < component_name(stem).len() ==> is_plain(#[trigger] component_name(stem)[k]),
{
    let clean = without(stem, ' ');
    lemma_without_holds(stem, ' ');
    assert forall|k: int| 0 <= k < clean.len() implies clean[k] != ' ' && is_ascii_char(
        clean[k],
    ) by {
        assert(stem.contains(clean[k]));
        let j = choose|j: int| 0 <= j < stem.len() && stem[j] == clean[k];
        assert(is_ascii_char(stem[j]));
    }
    lemma_camel_is_plain(clean);
}

/// A name begins with the upper-case form of the first character of the
/// stem that is neither a blank nor a hyphen, where that one is ASCII and
/// no hyphen stands before it.
pub proof fn lemma_name_is_capitalized(stem: Seq<char>)
    requires
        without(stem, ' ').len() > 0,
        is_plain(without(stem, ' ')[0]),
        is_ascii_char(without(stem, ' ')[0]),
    ensures
        component_name(stem).len() > 0,
        component_name(stem)[0] == ascii_upper(without(stem, ' ')[0]),
{
    let clean = without(stem, ' ');
    lemma_first_index_range(clean, '-');
    let at = first_index(clean, '-');
    let piece = clean.take(at);
    assert(at > 0);
    assert(piece[0] == clean[0]);
    if at < clean.len() {
        let tail = split_on(clean.skip(at + 1), '-');
        assert(split_on(clean, '-') == seq![piece] + tail);
    } else {
        assert(split_on(clean, '-') == seq![clean]);
        assert(piece =~= clean);
    }
    assert(split_on(clean, '-')[0] == piece);
    assert(camel(split_on(clean, '-')) == capitalized(piece) + camel(
        split_on(clean, '-').skip(1),
    ));
    assert(capitalized(piece)[0] == ascii_upper(clean[0]));
}

/// Cuts a file name at its first dot.
pub fn stem_of(file: &str) -> (r: String)
    ensures
        r@ == stem(file@),
{
    let raw = chars_of(file);
    let i = index_of_char(raw.as_slice(), '.');
    let head = copy_range(raw.as_slice(), 0, i);
    assert(raw@.subrange(0, i as int) =~= raw@.take(i as int));
    string_of(head.as_slice())
}

} // verus!
