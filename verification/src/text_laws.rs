//! What holds of texts: the laws of searching, replacing, splitting into
//! lines, trimming and joining that the rest of the library rests on.

use crate::chars::is_space;
use crate::text::{
    first_index, joined, lines, occurs_at, replaced, split_on, trim_end, trim_start, trimmed,
    without, without_cr,
};
use vstd::prelude::*;

verus! {

/// The first `c` is where no earlier character is `c`.
pub proof fn lemma_first_index(s: Seq<char>, c: char, i: int)
    requires
        0 <= i <= s.len(),
        forall|j: int| 0 <= j < i ==> s[j] != c,
        i == s.len() || s[i] == c,
    ensures
        first_index(s, c) == i,
    decreases i,
{
    if i > 0 {
        let rest = s.skip(1);
        assert forall|j: int| 0 <= j < i - 1 implies rest[j] != c by {
            assert(rest[j] == s[j + 1]);
        }
        lemma_first_index(rest, c, i - 1);
    }
}

/// The first `c` lies within the text or at its end.
pub proof fn lemma_first_index_range(s: Seq<char>, c: char)
    ensures
        0 <= first_index(s, c) <= s.len(),
        first_index(s, c) < s.len() ==> s[first_index(s, c)] == c,
        forall|j: int| 0 <= j < first_index(s, c) ==> s[j] != c,
    decreases s.len(),
{
    if s.len() == 0 || s[0] == c {
    } else {
        let rest = s.skip(1);
        lemma_first_index_range(rest, c);
        assert forall|j: int| 0 <= j < first_index(s, c) implies s[j] != c by {
            if j > 0 {
                assert(rest[j - 1] == s[j]);
            }
        }
    }
}

/// Trimming at the start drops exactly a run of white space that a
/// character other than white space, or the end, follows.
pub proof fn lemma_trim_start(s: Seq<char>, a: int)
    requires
        0 <= a <= s.len(),
        forall|k: int| 0 <= k < a ==> is_space(s[k]),
        a == s.len() || !is_space(s[a]),
    ensures
        trim_start(s) == s.skip(a),
    decreases a,
{
    if a > 0 {
        let rest = s.skip(1);
        assert forall|k: int| 0 <= k < a - 1 implies is_space(rest[k]) by {
            assert(rest[k] == s[k + 1]);
        }
        lemma_trim_start(rest, a - 1);
        assert(rest.skip(a - 1) =~= s.skip(a));
    } else {
        assert(s.skip(0) =~= s);
    }
}

/// Trimming at the end keeps exactly what stands before the last run of
/// white space.
pub proof fn lemma_trim_end(s: Seq<char>, b: int)
    requires
        0 <= b <= s.len(),
        forall|k: int| b <= k < s.len() ==> is_space(s[k]),
        b == 0 || !is_space(s[b - 1]),
    ensures
        trim_end(s) == s.take(b),
    decreases s.len() - b,
{
    if b < s.len() {
        let rest = s.drop_last();
        lemma_trim_end(rest, b);
        assert(rest.take(b) =~= s.take(b));
    } else {
        assert(s.take(b) =~= s);
    }
}

/// What `without` returns holds no `c`, and holds no character that `s`
/// does not hold.
pub proof fn lemma_without_holds(s: Seq<char>, c: char)
    ensures
        forall|k: int| 0 <= k < without(s, c).len() ==> without(s, c)[k] != c,
        forall|k: int| 0 <= k < without(s, c).len() ==> s.contains(#[trigger] without(s, c)[k]),
        without(s, c).len() <= s.len(),
    decreases s.len(),
{
    if s.len() > 0 {
        let head = s.drop_last();
        lemma_without_holds(head, c);
        assert forall|k: int| 0 <= k < without(s, c).len() implies s.contains(
            #[trigger] without(s, c)[k],
        ) by {
            if k < without(head, c).len() {
                let x = without(head, c)[k];
                assert(head.contains(x));
                let j = choose|j: int| 0 <= j < head.len() && head[j] == x;
                assert(s[j] == x);
            } else {
                assert(s[s.len() - 1] == s.last());
            }
        }
    }
}

/// A character of `s` other than `c` is still there once `c` is dropped.
pub proof fn lemma_without_keeps(s: Seq<char>, c: char, i: int)
    requires
        0 <= i < s.len(),
        s[i] != c,
    ensures
        without(s, c).contains(s[i]),
    decreases s.len(),
{
    let head = s.drop_last();
    if i < s.len() - 1 {
        lemma_without_keeps(head, c, i);
        let k = choose|k: int| 0 <= k < without(head, c).len() && without(head, c)[k] == head[i];
        assert(without(s, c)[k] == s[i]);
    } else {
        assert(without(s, c) == without(head, c).push(s.last()));
        assert(without(s, c)[without(head, c).len() as int] == s[i]);
    }
}

/// Dropping a character that is not there changes nothing.
pub proof fn lemma_without_nothing(s: Seq<char>, c: char)
    requires
        forall|k: int| 0 <= k < s.len() ==> s[k] != c,
    ensures
        without(s, c) == s,
    decreases s.len(),
{
    if s.len() > 0 {
        lemma_without_nothing(s.drop_last(), c);
        assert(s.drop_last().push(s.last()) =~= s);
    }
}

/// A text without `c` is one piece.
pub proof fn lemma_split_nothing(s: Seq<char>, c: char)
    requires
        forall|k: int| 0 <= k < s.len() ==> s[k] != c,
    ensures
        split_on(s, c) == seq![s],
{
    lemma_first_index(s, c, s.len() as int);
}

/// Where the white space at the start of `s` ends.
pub proof fn lemma_trim_start_bound(s: Seq<char>) -> (a: int)
    ensures
        0 <= a <= s.len(),
        trim_start(s) == s.skip(a),
        forall|k: int| 0 <= k < a ==> is_space(s[k]),
        a < s.len() ==> !is_space(s[a]),
    decreases s.len(),
{
    if s.len() > 0 && is_space(s[0]) {
        let rest = s.skip(1);
        let inner = lemma_trim_start_bound(rest);
        assert(rest.skip(inner) =~= s.skip(inner + 1));
        assert forall|k: int| 0 <= k < inner + 1 implies is_space(s[k]) by {
            if k > 0 {
                assert(rest[k - 1] == s[k]);
            }
        }
        if inner + 1 < s.len() {
            assert(rest[inner] == s[inner + 1]);
        }
        inner + 1
    } else {
        assert(s.skip(0) =~= s);
        0
    }
}

/// Where the white space at the end of `s` begins.
pub proof fn lemma_trim_end_bound(s: Seq<char>) -> (b: int)
    ensures
        0 <= b <= s.len(),
        trim_end(s) == s.take(b),
        forall|k: int| b <= k < s.len() ==> is_space(s[k]),
        b > 0 ==> !is_space(s[b - 1]),
    decreases s.len(),
{
    if s.len() > 0 && is_space(s.last()) {
        let head = s.drop_last();
        let inner = lemma_trim_end_bound(head);
        assert(head.take(inner) =~= s.take(inner));
        assert forall|k: int| inner <= k < s.len() implies is_space(s[k]) by {
            if k < s.len() - 1 {
                assert(head[k] == s[k]);
            }
        }
        if inner > 0 {
            assert(head[inner - 1] == s[inner - 1]);
        }
        inner
    } else {
        assert(s.take(s.len() as int) =~= s);
        s.len() as int
    }
}

/// A trimmed text that is not empty begins and ends with a character other
/// than white space.
pub proof fn lemma_trimmed_ends(s: Seq<char>)
    ensures
        trimmed(s).len() > 0 ==> !is_space(trimmed(s)[0]) && !is_space(trimmed(s).last()),
        trimmed(s).len() <= s.len(),
{
    let a = lemma_trim_start_bound(s);
    let rest = s.skip(a);
    let b = lemma_trim_end_bound(rest);
    if b > 0 {
        assert(rest.take(b)[0] == s[a]);
        assert(rest.take(b).last() == rest[b - 1]);
    }
}

/// Trimming a trimmed text changes nothing.
pub proof fn lemma_trimmed_is_stable(s: Seq<char>)
    ensures
        trimmed(trimmed(s)) == trimmed(s),
{
    let t = trimmed(s);
    lemma_trimmed_ends(s);
    lemma_trim_start(t, 0);
    assert(t.skip(0) =~= t);
    lemma_trim_end(t, t.len() as int);
    assert(t.take(t.len() as int) =~= t);
}

/// Joining from the front: the first part, the separator, and the rest
/// joined.
pub proof fn lemma_joined_front(parts: Seq<Seq<char>>, sep: Seq<char>)
    requires
        parts.len() >= 2,
    ensures
        joined(parts, sep) == parts[0] + sep + joined(parts.skip(1), sep),
    decreases parts.len(),
{
    let head = parts.drop_last();
    let rest = parts.skip(1);
    assert(rest.last() == parts.last());
    if parts.len() == 2 {
        assert(head =~= seq![parts[0]]);
        assert(rest =~= seq![parts[1]]);
        assert(joined(head, sep) == parts[0]);
        assert(joined(rest, sep) == parts[1]);
    } else {
        lemma_joined_front(head, sep);
        assert(head.skip(1) =~= rest.drop_last());
        assert(head[0] == parts[0]);
        assert(joined(parts, sep) =~= parts[0] + sep + joined(rest, sep));
    }
}

/// Joining two runs of parts joins each and sets the separator between.
pub proof fn lemma_joined_concat(u: Seq<Seq<char>>, v: Seq<Seq<char>>, sep: Seq<char>)
    requires
        u.len() > 0,
        v.len() > 0,
    ensures
        joined(u + v, sep) == joined(u, sep) + sep + joined(v, sep),
    decreases v.len(),
{
    let all = u + v;
    assert(all.last() == v.last());
    if v.len() == 1 {
        assert(all.drop_last() =~= u);
        assert(joined(v, sep) == v[0]);
    } else {
        assert(all.drop_last() =~= u + v.drop_last());
        lemma_joined_concat(u, v.drop_last(), sep);
        assert(joined(all, sep) =~= joined(u, sep) + sep + joined(v, sep));
    }
}

/// A text joined from white space is white space.
pub proof fn lemma_joined_of_spaces(parts: Seq<Seq<char>>, sep: Seq<char>)
    requires
        forall|i: int, k: int|
            0 <= i < parts.len() && 0 <= k < parts[i].len() ==> is_space(#[trigger] parts[i][k]),
        forall|k: int| 0 <= k < sep.len() ==> is_space(sep[k]),
    ensures
        forall|k: int| 0 <= k < joined(parts, sep).len() ==> is_space(joined(parts, sep)[k]),
    decreases parts.len(),
{
    if parts.len() == 1 {
        assert forall|k: int| 0 <= k < parts[0].len() implies is_space(parts[0][k]) by {
            assert(is_space(parts[0][k]));
        }
    } else if parts.len() >= 2 {
        let head = parts.drop_last();
        assert forall|i: int, k: int| 0 <= i < head.len() && 0 <= k < head[i].len() implies is_space(
            #[trigger] head[i][k],
        ) by {
            assert(head[i] == parts[i]);
            assert(is_space(parts[i][k]));
        }
        lemma_joined_of_spaces(head, sep);
        let a = joined(head, sep);
        let last = parts.last();
        assert forall|k: int| 0 <= k < joined(parts, sep).len() implies is_space(
            joined(parts, sep)[k],
        ) by {
            if k < a.len() {
                assert(joined(parts, sep)[k] == a[k]);
            } else if k < a.len() + sep.len() {
                assert(joined(parts, sep)[k] == sep[k - a.len()]);
            } else {
                assert(joined(parts, sep)[k] == last[k - a.len() - sep.len()]);
                assert(last == parts[parts.len() - 1]);
                assert(is_space(parts[parts.len() - 1][k - a.len() - sep.len()]));
            }
        }
    }
}

/// What stands before part `a` in the joined text: the parts before it,
/// joined, and one separator.
pub open spec fn lead(parts: Seq<Seq<char>>, a: int, sep: Seq<char>) -> Seq<char> {
    if a <= 0 {
        Seq::empty()
    } else {
        joined(parts.take(a), sep) + sep
    }
}

/// What stands behind part `b` in the joined text: one separator and the
/// parts behind it, joined.
pub open spec fn trail(parts: Seq<Seq<char>>, b: int, sep: Seq<char>) -> Seq<char> {
    if b >= parts.len() - 1 {
        Seq::empty()
    } else {
        sep + joined(parts.skip(b + 1), sep)
    }
}

/// A joined text is what leads up to a run of its parts, that run joined,
/// and what trails it.
pub proof fn lemma_joined_around(parts: Seq<Seq<char>>, a: int, b: int, sep: Seq<char>)
    requires
        0 <= a <= b < parts.len(),
    ensures
        joined(parts, sep) == lead(parts, a, sep) + joined(parts.subrange(a, b + 1), sep) + trail(
            parts,
            b,
            sep,
        ),
{
    let before = parts.take(a);
    let run = parts.subrange(a, b + 1);
    let after = parts.skip(b + 1);
    let whole = joined(parts, sep);
    let middle = joined(run, sep);
    if a == 0 && b == parts.len() - 1 {
        assert(parts =~= run);
        assert(whole =~= lead(parts, a, sep) + middle + trail(parts, b, sep));
    } else if a == 0 {
        assert(parts =~= run + after);
        lemma_joined_concat(run, after, sep);
        assert(whole =~= lead(parts, a, sep) + middle + trail(parts, b, sep));
    } else if b == parts.len() - 1 {
        assert(parts =~= before + run);
        lemma_joined_concat(before, run, sep);
        assert(whole =~= lead(parts, a, sep) + middle + trail(parts, b, sep));
    } else {
        assert(parts =~= before + (run + after));
        lemma_joined_concat(before, run + after, sep);
        lemma_joined_concat(run, after, sep);
        assert(whole =~= lead(parts, a, sep) + middle + trail(parts, b, sep));
    }
}

/// Around parts of white space, with a separator of white space, what
/// leads up and what trails is white space.
pub proof fn lemma_lead_and_trail_of_spaces(parts: Seq<Seq<char>>, a: int, b: int, sep: Seq<char>)
    requires
        0 <= a <= b < parts.len(),
        forall|i: int, k: int|
            0 <= i < parts.len() && (i < a || b < i) && 0 <= k < parts[i].len() ==> is_space(
                #[trigger] parts[i][k],
            ),
        forall|k: int| 0 <= k < sep.len() ==> is_space(sep[k]),
    ensures
        forall|k: int| 0 <= k < lead(parts, a, sep).len() ==> is_space(lead(parts, a, sep)[k]),
        forall|k: int| 0 <= k < trail(parts, b, sep).len() ==> is_space(trail(parts, b, sep)[k]),
{
    let before = parts.take(a);
    let after = parts.skip(b + 1);
    if a > 0 {
        assert forall|i: int, k: int| 0 <= i < before.len() && 0 <= k < before[i].len() implies is_space(
            #[trigger] before[i][k],
        ) by {
            assert(before[i] == parts[i]);
            assert(is_space(parts[i][k]));
        }
        lemma_joined_of_spaces(before, sep);
        let j = joined(before, sep);
        assert forall|k: int| 0 <= k < lead(parts, a, sep).len() implies is_space(
            lead(parts, a, sep)[k],
        ) by {
            if k < j.len() {
                assert(lead(parts, a, sep)[k] == j[k]);
            } else {
                assert(lead(parts, a, sep)[k] == sep[k - j.len()]);
            }
        }
    }
    if b < parts.len() - 1 {
        assert forall|i: int, k: int| 0 <= i < after.len() && 0 <= k < after[i].len() implies is_space(
            #[trigger] after[i][k],
        ) by {
            assert(after[i] == parts[b + 1 + i]);
            assert(is_space(parts[b + 1 + i][k]));
        }
        lemma_joined_of_spaces(after, sep);
        let j = joined(after, sep);
        assert forall|k: int| 0 <= k < trail(parts, b, sep).len() implies is_space(
            trail(parts, b, sep)[k],
        ) by {
            if k < sep.len() {
                assert(trail(parts, b, sep)[k] == sep[k]);
            } else {
                assert(trail(parts, b, sep)[k] == j[k - sep.len()]);
            }
        }
    }
}

/// A joined text begins as its first part begins and ends as its last part
/// ends, where these two are not empty.
pub proof fn lemma_joined_ends(parts: Seq<Seq<char>>, sep: Seq<char>)
    requires
        parts.len() >= 1,
        parts[0].len() > 0,
        parts.last().len() > 0,
    ensures
        joined(parts, sep).len() > 0,
        joined(parts, sep)[0] == parts[0][0],
        joined(parts, sep).last() == parts.last().last(),
{
    if parts.len() >= 2 {
        lemma_joined_front(parts, sep);
        let whole = joined(parts, sep);
        assert(whole[0] == parts[0][0]);
        let head = joined(parts.drop_last(), sep);
        assert(whole == head + sep + parts.last());
        assert(whole.last() == parts.last().last());
    }
}

/// A text of white space trims to nothing.
pub proof fn lemma_trim_of_spaces(s: Seq<char>)
    requires
        forall|k: int| 0 <= k < s.len() ==> is_space(s[k]),
    ensures
        trimmed(s) == Seq::<char>::empty(),
{
    lemma_trim_start(s, s.len() as int);
    assert(s.skip(s.len() as int) =~= Seq::<char>::empty());
}

/// White space around a text that begins and ends with something else is
/// what trimming takes away.
pub proof fn lemma_trim_sandwich(before: Seq<char>, middle: Seq<char>, after: Seq<char>)
    requires
        forall|k: int| 0 <= k < before.len() ==> is_space(before[k]),
        forall|k: int| 0 <= k < after.len() ==> is_space(after[k]),
        middle.len() > 0,
        !is_space(middle[0]),
        !is_space(middle.last()),
    ensures
        trimmed(before + middle + after) == middle,
{
    let x = before + middle + after;
    assert forall|k: int| 0 <= k < before.len() implies is_space(x[k]) by {
        assert(x[k] == before[k]);
    }
    assert(x[before.len() as int] == middle[0]);
    lemma_trim_start(x, before.len() as int);
    let rest = x.skip(before.len() as int);
    assert(rest =~= middle + after);
    assert forall|k: int| middle.len() <= k < rest.len() implies is_space(rest[k]) by {
        assert(rest[k] == after[k - middle.len()]);
    }
    assert(rest[middle.len() - 1] == middle.last());
    lemma_trim_end(rest, middle.len() as int);
    assert(rest.take(middle.len() as int) =~= middle);
}

/// No line holds a line feed.
pub proof fn lemma_lines_hold_no_feed(s: Seq<char>)
    ensures
        forall|i: int, k: int|
            0 <= i < lines(s).len() && 0 <= k < lines(s)[i].len() ==> #[trigger] lines(s)[i][k]
                != '\n',
    decreases s.len(),
{
    if s.len() > 0 {
        lemma_first_index_range(s, '\n');
        let at = first_index(s, '\n');
        if at < s.len() {
            let rest = lines(s.skip(at + 1));
            lemma_lines_hold_no_feed(s.skip(at + 1));
            let first = without_cr(s.take(at));
            assert(lines(s) == seq![first] + rest);
            assert forall|i: int, k: int|
                0 <= i < lines(s).len() && 0 <= k < lines(s)[i].len() implies #[trigger] lines(
                s,
            )[i][k] != '\n' by {
                if i == 0 {
                    assert(lines(s)[0] == first);
                    assert(first[k] == s[k]);
                } else {
                    assert(lines(s)[i] == rest[i - 1]);
                    assert(rest[i - 1][k] != '\n');
                }
            }
        } else {
            assert(lines(s) == seq![s]);
        }
    }
}

/// Lines that hold no line feed and end with no carriage return come back
/// from the text that joins them and closes the last.
pub proof fn lemma_lines_of_joined(ls: Seq<Seq<char>>)
    requires
        ls.len() >= 1,
        forall|i: int, k: int| 0 <= i < ls.len() && 0 <= k < ls[i].len() ==> #[trigger] ls[i][k] != '\n',
        forall|i: int| 0 <= i < ls.len() && ls[i].len() > 0 ==> (#[trigger] ls[i]).last() != '\r',
    ensures
        lines(joined(ls, seq!['\n']) + seq!['\n']) == ls,
    decreases ls.len(),
{
    let feed = seq!['\n'];
    let text = joined(ls, feed) + feed;
    let first = ls[0];
    assert forall|j: int| 0 <= j < first.len() implies first[j] != '\n' by {
        assert(ls[0][j] != '\n');
    }
    if first.len() > 0 {
        assert(ls[0].last() != '\r');
    }
    assert(without_cr(first) == first);
    if ls.len() == 1 {
        assert(text =~= first + feed);
        assert forall|j: int| 0 <= j < first.len() implies text[j] != '\n' by {
            assert(text[j] == first[j]);
        }
        assert(text[first.len() as int] == '\n');
        lemma_first_index(text, '\n', first.len() as int);
        assert(text.take(first.len() as int) =~= first);
        assert(text.skip(first.len() as int + 1) =~= Seq::<char>::empty());
        assert(lines(text.skip(first.len() as int + 1)) =~= Seq::<Seq<char>>::empty());
        assert(lines(text) =~= seq![first]);
        assert(ls =~= seq![first]);
    } else {
        let rest = ls.skip(1);
        lemma_joined_front(ls, feed);
        assert(text =~= first + feed + (joined(rest, feed) + feed));
        assert forall|j: int| 0 <= j < first.len() implies text[j] != '\n' by {
            assert(text[j] == first[j]);
        }
        assert(text[first.len() as int] == '\n');
        lemma_first_index(text, '\n', first.len() as int);
        assert(text.take(first.len() as int) =~= first);
        assert(text.skip(first.len() as int + 1) =~= joined(rest, feed) + feed);
        assert forall|i: int, k: int| 0 <= i < rest.len() && 0 <= k < rest[i].len() implies #[trigger] rest[i][k] != '\n' by {
            assert(rest[i] == ls[i + 1]);
            assert(ls[i + 1][k] != '\n');
        }
        assert forall|i: int| 0 <= i < rest.len() && rest[i].len() > 0 implies (#[trigger] rest[i]).last() != '\r' by {
            assert(rest[i] == ls[i + 1]);
            assert(ls[i + 1].last() != '\r');
        }
        lemma_lines_of_joined(rest);
        assert(lines(text) =~= seq![first] + rest);
        assert(seq![first] + rest =~= ls);
    }
}

/// A trimmed text is a part of the text it comes from.
pub proof fn lemma_trimmed_is_part(s: Seq<char>)
    ensures
        forall|k: int| 0 <= k < trimmed(s).len() ==> s.contains(#[trigger] trimmed(s)[k]),
{
    let a = lemma_trim_start_bound(s);
    let rest = s.skip(a);
    let b = lemma_trim_end_bound(rest);
    assert forall|k: int| 0 <= k < trimmed(s).len() implies s.contains(#[trigger] trimmed(s)[k]) by {
        assert(trimmed(s)[k] == s[a + k]);
    }
}

/// A text in which `from` stands nowhere is left as it is.
pub proof fn lemma_replaced_nowhere(s: Seq<char>, from: Seq<char>, to: Seq<char>)
    requires
        forall|i: int| !occurs_at(s, from, i),
    ensures
        replaced(s, from, to) == s,
    decreases s.len(),
{
    if from.len() > 0 && s.len() >= from.len() {
        let rest = s.skip(1);
        assert(!occurs_at(s, from, 0));
        assert forall|i: int| !occurs_at(rest, from, i) by {
            if occurs_at(rest, from, i) {
                assert(rest.subrange(i, i + from.len()) =~= s.subrange(i + 1, i + 1 + from.len()));
                assert(occurs_at(s, from, i + 1));
            }
        }
        lemma_replaced_nowhere(rest, from, to);
        assert(seq![s[0]] + rest =~= s);
    }
}

/// Replacing a single character goes through a text piece by piece.
pub proof fn lemma_replaced_char_concat(x: Seq<char>, y: Seq<char>, c: char, to: Seq<char>)
    ensures
        replaced(x + y, seq![c], to) == replaced(x, seq![c], to) + replaced(y, seq![c], to),
    decreases x.len(),
{
    let from = seq![c];
    if x.len() == 0 {
        assert(x + y =~= y);
        assert(replaced(x, from, to) =~= Seq::<char>::empty());
        assert(replaced(x, from, to) + replaced(y, from, to) =~= replaced(y, from, to));
    } else {
        let all = x + y;
        assert(all.skip(1) =~= x.skip(1) + y);
        lemma_replaced_char_concat(x.skip(1), y, c, to);
        assert(all.subrange(0, 1) =~= seq![all[0]]);
        assert(x.subrange(0, 1) =~= seq![x[0]]);
        assert(all[0] == x[0]);
        assert(occurs_at(all, from, 0) == (x[0] == c)) by {
            if x[0] == c {
                assert(all.subrange(0, 1) =~= from);
            } else {
                assert(all.subrange(0, 1)[0] != from[0]);
            }
        }
        assert(occurs_at(x, from, 0) == (x[0] == c)) by {
            if x[0] == c {
                assert(x.subrange(0, 1) =~= from);
            } else {
                assert(x.subrange(0, 1)[0] != from[0]);
            }
        }
        if x[0] == c {
            assert(replaced(all, from, to) =~= to + (replaced(x.skip(1), from, to) + replaced(
                y,
                from,
                to,
            )));
        } else {
            assert(replaced(all, from, to) =~= seq![x[0]] + (replaced(x.skip(1), from, to)
                + replaced(y, from, to)));
        }
    }
}

/// A single character other than `c` is left as it is.
pub proof fn lemma_replaced_other_char(d: char, c: char, to: Seq<char>)
    requires
        d != c,
    ensures
        replaced(seq![d], seq![c], to) == seq![d],
{
    let s = seq![d];
    assert(s.subrange(0, 1)[0] != seq![c][0]);
    assert(!occurs_at(s, seq![c], 0));
    assert(s.skip(1) =~= Seq::<char>::empty());
    assert(replaced(s.skip(1), seq![c], to) =~= Seq::<char>::empty());
    assert(seq![s[0]] + Seq::<char>::empty() =~= s);
}

/// What comes of replacing the character `c` holds what `to` holds and
/// what the text held but for `c`; and it holds every character of the
/// text but `c`.
pub proof fn lemma_replaced_char_holds(s: Seq<char>, c: char, to: Seq<char>)
    ensures
        forall|k: int|
            0 <= k < replaced(s, seq![c], to).len() ==> to.contains(
                #[trigger] replaced(s, seq![c], to)[k],
            ) || (s.contains(replaced(s, seq![c], to)[k]) && replaced(s, seq![c], to)[k] != c),
        forall|j: int| 0 <= j < s.len() && s[j] != c ==> replaced(s, seq![c], to).contains(#[trigger] s[j]),
    decreases s.len(),
{
    let from = seq![c];
    let out = replaced(s, from, to);
    if s.len() > 0 {
        let rest = s.skip(1);
        let tail = replaced(rest, from, to);
        lemma_replaced_char_holds(rest, c, to);
        assert(s.subrange(0, 1) =~= seq![s[0]]);
        assert(occurs_at(s, from, 0) == (s[0] == c)) by {
            if s[0] == c {
                assert(s.subrange(0, 1) =~= from);
            } else {
                assert(s.subrange(0, 1)[0] != from[0]);
            }
        }
        let head = if s[0] == c {
            to
        } else {
            seq![s[0]]
        };
        assert(out == head + tail);
        assert forall|k: int| 0 <= k < out.len() implies to.contains(#[trigger] out[k]) || (
        s.contains(out[k]) && out[k] != c) by {
            if k < head.len() {
                assert(out[k] == head[k]);
                if s[0] == c {
                    assert(to[k] == out[k]);
                } else {
                    assert(s[0] == out[k]);
                }
            } else {
                let x = tail[k - head.len()];
                assert(out[k] == x);
                if !to.contains(x) {
                    assert(rest.contains(x));
                    let j = choose|j: int| 0 <= j < rest.len() && rest[j] == x;
                    assert(s[j + 1] == x);
                }
            }
        }
        assert forall|j: int| 0 <= j < s.len() && s[j] != c implies out.contains(#[trigger] s[j]) by {
            if j == 0 {
                assert(out[0] == s[0]);
            } else {
                assert(rest[j - 1] == s[j]);
                assert(tail.contains(rest[j - 1]));
                let k = choose|k: int| 0 <= k < tail.len() && tail[k] == s[j];
                assert(out[head.len() + k] == s[j]);
            }
        }
    }
}

/// Replacing the character `c` leaves the end of a text that does not end
/// with `c`.
pub proof fn lemma_replaced_char_last(s: Seq<char>, c: char, to: Seq<char>)
    requires
        s.len() > 0,
        s.last() != c,
    ensures
        replaced(s, seq![c], to).len() > 0,
        replaced(s, seq![c], to).last() == s.last(),
{
    assert(s.drop_last() + seq![s.last()] =~= s);
    lemma_replaced_char_concat(s.drop_last(), seq![s.last()], c, to);
    lemma_replaced_other_char(s.last(), c, to);
}

/// A text holds a character other than white space exactly where it does
/// not trim to nothing.
pub proof fn lemma_trimmed_of_some(s: Seq<char>)
    ensures
        trimmed(s).len() > 0 <==> exists|k: int| 0 <= k < s.len() && !is_space(#[trigger] s[k]),
{
    let a = lemma_trim_start_bound(s);
    let rest = s.skip(a);
    let b = lemma_trim_end_bound(rest);
    if trimmed(s).len() > 0 {
        assert(!is_space(rest[b - 1]));
        assert(rest[b - 1] == s[a + b - 1]);
    }
    if exists|k: int| 0 <= k < s.len() && !is_space(#[trigger] s[k]) {
        let k = choose|k: int| 0 <= k < s.len() && !is_space(#[trigger] s[k]);
        assert(k >= a);
        assert(rest[k - a] == s[k]);
        assert(k - a < b);
    }
}

/// Lines that hold no line feed come back from the text that joins them,
/// if none but the last ends with a carriage return and the last is not
/// empty.
pub proof fn lemma_lines_of_joined_open(ls: Seq<Seq<char>>)
    requires
        ls.len() >= 1,
        forall|i: int, k: int| 0 <= i < ls.len() && 0 <= k < ls[i].len() ==> #[trigger] ls[i][k] != '\n',
        forall|i: int| 0 <= i < ls.len() - 1 && ls[i].len() > 0 ==> (#[trigger] ls[i]).last() != '\r',
        ls.last().len() > 0,
    ensures
        lines(joined(ls, seq!['\n'])) == ls,
    decreases ls.len(),
{
    let feed = seq!['\n'];
    let text = joined(ls, feed);
    let first = ls[0];
    assert forall|j: int| 0 <= j < first.len() implies first[j] != '\n' by {
        assert(ls[0][j] != '\n');
    }
    if ls.len() == 1 {
        assert(text == first);
        lemma_first_index(text, '\n', first.len() as int);
        assert(lines(text) =~= seq![first]);
        assert(ls =~= seq![first]);
    } else {
        if first.len() > 0 {
            assert(ls[0].last() != '\r');
        }
        assert(without_cr(first) == first);
        let rest = ls.skip(1);
        lemma_joined_front(ls, feed);
        assert(text =~= first + feed + joined(rest, feed));
        assert forall|j: int| 0 <= j < first.len() implies text[j] != '\n' by {
            assert(text[j] == first[j]);
        }
        assert(text[first.len() as int] == '\n');
        lemma_first_index(text, '\n', first.len() as int);
        assert(text.take(first.len() as int) =~= first);
        assert(text.skip(first.len() as int + 1) =~= joined(rest, feed));
        assert forall|i: int, k: int| 0 <= i < rest.len() && 0 <= k < rest[i].len() implies #[trigger] rest[i][k] != '\n' by {
            assert(rest[i] == ls[i + 1]);
            assert(ls[i + 1][k] != '\n');
        }
        assert forall|i: int| 0 <= i < rest.len() - 1 && rest[i].len() > 0 implies (#[trigger] rest[i]).last() != '\r' by {
            assert(rest[i] == ls[i + 1]);
            assert(ls[i + 1].last() != '\r');
        }
        assert(rest.last() == ls.last());
        lemma_lines_of_joined_open(rest);
        assert(lines(text) =~= seq![first] + rest);
        assert(seq![first] + rest =~= ls);
    }
}

/// In the text, a line feed follows no carriage return.
pub open spec fn feeds_are_plain(s: Seq<char>) -> bool {
    forall|p: int| 0 <= p < s.len() && #[trigger] s[p] == '\r' ==> p + 1 < s.len() && s[p + 1] != '\n'
}

/// Lines without a line feed, none ending with a carriage return, join to
/// a text in which a line feed follows no carriage return.
pub proof fn lemma_joined_feeds_are_plain(ls: Seq<Seq<char>>)
    requires
        forall|i: int, k: int| 0 <= i < ls.len() && 0 <= k < ls[i].len() ==> #[trigger] ls[i][k] != '\n',
        forall|i: int| 0 <= i < ls.len() && ls[i].len() > 0 ==> (#[trigger] ls[i]).last() != '\r',
    ensures
        feeds_are_plain(joined(ls, seq!['\n'])),
    decreases ls.len(),
{
    let feed = seq!['\n'];
    let text = joined(ls, feed);
    if ls.len() >= 1 {
        let last = ls.last();
        assert(last == ls[ls.len() - 1]);
        assert forall|p: int| 0 <= p < last.len() && #[trigger] last[p] == '\r' implies p + 1
            < last.len() && last[p + 1] != '\n' by {
            assert(ls[ls.len() - 1].last() != '\r');
            assert(ls[ls.len() - 1][p + 1] != '\n');
        }
        if ls.len() >= 2 {
            let head = ls.drop_last();
            assert forall|i: int, k: int| 0 <= i < head.len() && 0 <= k < head[i].len() implies #[trigger] head[i][k] != '\n' by {
                assert(head[i] == ls[i]);
                assert(ls[i][k] != '\n');
            }
            assert forall|i: int| 0 <= i < head.len() && head[i].len() > 0 implies (#[trigger] head[i]).last() != '\r' by {
                assert(head[i] == ls[i]);
                assert(ls[i].last() != '\r');
            }
            lemma_joined_feeds_are_plain(head);
            let h = joined(head, feed);
            assert(text == h + feed + last);
            assert forall|p: int| 0 <= p < text.len() && #[trigger] text[p] == '\r' implies p + 1
                < text.len() && text[p + 1] != '\n' by {
                if p < h.len() {
                    assert(text[p] == h[p]);
                    assert(h[p] == '\r');
                    assert(text[p + 1] == h[p + 1]);
                } else if p == h.len() {
                    assert(text[p] == '\n');
                } else {
                    let q = p - h.len() - 1;
                    assert(text[p] == last[q]);
                    assert(last[q] == '\r');
                    assert(text[p + 1] == last[q + 1]);
                }
            }
        }
    }
}

/// A text shorter than `from` holds no occurrence of it.
pub proof fn lemma_short_is_kept(s: Seq<char>, from: Seq<char>, to: Seq<char>)
    requires
        s.len() < from.len(),
    ensures
        replaced(s, from, to) == s,
{
}

} // verus!
