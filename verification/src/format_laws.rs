//! What holds of the reformatter: the stages that Verus can see through
//! leave their own results as they are.

use crate::chars::is_space;
use crate::format::{
    closes, indent, indented, is_blank, is_tidy, laid_out, level_at, level_before, opens, squeezed,
    tidy, untabbed_all,
};
use crate::text::{first_index, joined, lines, occurs_at, replaced, trim_end, trimmed};
use crate::text_laws::{
    lead, lemma_joined_around, lemma_joined_ends, lemma_joined_feeds_are_plain,
    lemma_joined_of_spaces, lemma_lead_and_trail_of_spaces, lemma_lines_hold_no_feed,
    lemma_lines_of_joined, lemma_lines_of_joined_open, lemma_replaced_char_concat,
    lemma_replaced_char_holds, lemma_replaced_char_last, lemma_replaced_nowhere,
    lemma_replaced_other_char, lemma_trim_end, lemma_trim_end_bound, lemma_trim_of_spaces,
    lemma_trim_sandwich, lemma_trim_start, lemma_trimmed_ends, lemma_trimmed_is_part,
    lemma_trimmed_is_stable, lemma_trimmed_of_some, trail,
};
use vstd::prelude::*;

verus! {

/// A trimmed text set behind an indentation trims to itself.
pub proof fn lemma_indented_trims_back(level: nat, s: Seq<char>)
    ensures
        trimmed(indent(level) + trimmed(s)) == trimmed(s),
{
    let t = trimmed(s);
    let x = indent(level) + t;
    lemma_trimmed_ends(s);
    let width: int = (2 * level) as int;
    assert forall|k: int| 0 <= k < width implies is_space(x[k]) by {
        assert(x[k] == ' ');
    }
    if t.len() > 0 {
        assert(x[width] == t[0]);
    }
    lemma_trim_start(x, width);
    assert(x.skip(width) =~= t);
    lemma_trimmed_is_stable(s);
    lemma_trim_start(t, 0);
    assert(t.skip(0) =~= t);
}

/// Lines that trim to the same texts stand at the same depths.
pub proof fn lemma_levels_follow_trimmed(a: Seq<Seq<char>>, b: Seq<Seq<char>>, i: int)
    requires
        a.len() == b.len(),
        forall|k: int| 0 <= k < a.len() ==> trimmed(#[trigger] a[k]) == trimmed(b[k]),
        0 <= i <= a.len(),
    ensures
        level_before(a, i) == level_before(b, i),
        i < a.len() ==> level_at(a, i) == level_at(b, i),
    decreases i,
{
    if i > 0 {
        lemma_levels_follow_trimmed(a, b, i - 1);
        assert(trimmed(a[i - 1]) == trimmed(b[i - 1]));
    }
    if i < a.len() {
        assert(trimmed(a[i]) == trimmed(b[i]));
    }
}

/// Laying out lines that have been laid out changes nothing.
pub proof fn lemma_indentation_is_stable(ls: Seq<Seq<char>>)
    ensures
        indented(indented(ls)) == indented(ls),
{
    let once = indented(ls);
    assert forall|k: int| 0 <= k < once.len() implies trimmed(#[trigger] once[k]) == trimmed(
        ls[k],
    ) by {
        lemma_indented_trims_back(level_at(ls, k), ls[k]);
    }
    assert forall|i: int| 0 <= i < once.len() implies indented(once)[i] == once[i] by {
        lemma_levels_follow_trimmed(once, ls, i);
        assert(trimmed(once[i]) == trimmed(ls[i]));
    }
    assert(indented(once) =~= once);
}

/// A blank line neither opens nor closes a tag.
pub proof fn lemma_blank_line_keeps_level(ls: Seq<Seq<char>>, i: int)
    requires
        0 <= i < ls.len(),
        is_blank(ls[i]),
    ensures
        level_at(ls, i) == level_before(ls, i),
        level_before(ls, i + 1) == level_before(ls, i),
{
    reveal_strlit("</");
    reveal_strlit("<");
    let t = trimmed(ls[i]);
    assert(!closes(t));
    assert(!opens(t));
}

/// Behind blank lines alone the depth is zero.
pub proof fn lemma_blank_lines_stay_level(ls: Seq<Seq<char>>, a: int)
    requires
        0 <= a <= ls.len(),
        forall|k: int| 0 <= k < a ==> is_blank(#[trigger] ls[k]),
    ensures
        level_before(ls, a) == 0,
    decreases a,
{
    if a > 0 {
        lemma_blank_lines_stay_level(ls, a - 1);
        assert(is_blank(ls[a - 1]));
        lemma_blank_line_keeps_level(ls, a - 1);
    }
}

/// Lines cut out where the depth is zero stand at the depths they had.
pub proof fn lemma_levels_of_a_cut(ls: Seq<Seq<char>>, a: int, z: int, i: int)
    requires
        0 <= a <= z <= ls.len(),
        level_before(ls, a) == 0,
        0 <= i <= z - a,
    ensures
        level_before(ls.subrange(a, z), i) == level_before(ls, a + i),
        i < z - a ==> level_at(ls.subrange(a, z), i) == level_at(ls, a + i),
    decreases i,
{
    let cut = ls.subrange(a, z);
    if i > 0 {
        lemma_levels_of_a_cut(ls, a, z, i - 1);
        assert(cut[i - 1] == ls[a + i - 1]);
    }
    if i < z - a {
        assert(cut[i] == ls[a + i]);
    }
}

/// The first line that is not blank, behind `from`.
pub proof fn lemma_first_full_line(ls: Seq<Seq<char>>, from: int) -> (a: int)
    requires
        0 <= from <= ls.len(),
        forall|k: int| 0 <= k < from ==> is_blank(#[trigger] ls[k]),
        exists|i: int| from <= i < ls.len() && !is_blank(#[trigger] ls[i]),
    ensures
        from <= a < ls.len(),
        !is_blank(ls[a]),
        forall|k: int| 0 <= k < a ==> is_blank(#[trigger] ls[k]),
    decreases ls.len() - from,
{
    let i = choose|i: int| from <= i < ls.len() && !is_blank(#[trigger] ls[i]);
    if !is_blank(ls[from]) {
        from
    } else {
        assert(i != from);
        lemma_first_full_line(ls, from + 1)
    }
}

/// The last line that is not blank, before `until`.
pub proof fn lemma_last_full_line(ls: Seq<Seq<char>>, until: int) -> (b: int)
    requires
        0 <= until <= ls.len(),
        forall|k: int| until <= k < ls.len() ==> is_blank(#[trigger] ls[k]),
        exists|i: int| 0 <= i < until && !is_blank(#[trigger] ls[i]),
    ensures
        0 <= b < until,
        !is_blank(ls[b]),
        forall|k: int| b < k < ls.len() ==> is_blank(#[trigger] ls[k]),
    decreases until,
{
    let i = choose|i: int| 0 <= i < until && !is_blank(#[trigger] ls[i]);
    if !is_blank(ls[until - 1]) {
        until - 1
    } else {
        assert(i != until - 1);
        lemma_last_full_line(ls, until - 1)
    }
}

/// A line laid out holds no line feed if the line did not, ends with no
/// carriage return, and is white space if the line was blank.
pub proof fn lemma_laid_line(level: nat, line: Seq<char>)
    requires
        forall|k: int| 0 <= k < line.len() ==> line[k] != '\n',
    ensures
        forall|k: int|
            0 <= k < (indent(level) + trimmed(line)).len() ==> (indent(level) + trimmed(line))[k]
                != '\n',
        (indent(level) + trimmed(line)).len() > 0 ==> (indent(level) + trimmed(line)).last()
            != '\r',
        is_blank(line) ==> forall|k: int|
            0 <= k < (indent(level) + trimmed(line)).len() ==> is_space(
                (indent(level) + trimmed(line))[k],
            ),
{
    let t = trimmed(line);
    let x = indent(level) + t;
    lemma_trimmed_is_part(line);
    lemma_trimmed_ends(line);
    assert forall|k: int| 0 <= k < x.len() implies x[k] != '\n' by {
        if k < 2 * level {
            assert(x[k] == ' ');
        } else {
            let j = k - 2 * level;
            assert(x[k] == t[j]);
            assert(line.contains(t[j]));
        }
    }
    if x.len() > 0 {
        if t.len() > 0 {
            assert(x.last() == t.last());
            assert(is_space('\r'));
        } else {
            assert(x.last() == ' ');
        }
    }
    if is_blank(line) {
        assert forall|k: int| 0 <= k < x.len() implies is_space(x[k]) by {
            assert(x[k] == ' ');
        }
    }
}

/// A single line feed is laid out as it is.
pub proof fn lemma_layout_of_a_feed()
    ensures
        laid_out(seq!['\n']) == seq!['\n'],
{
    reveal_strlit("\n");
    let feed = seq!['\n'];
    assert("\n"@ =~= feed);
    let none = Seq::<char>::empty();
    let one = seq![none];
    assert(first_index(feed, '\n') == 0);
    assert(feed.take(0) =~= none);
    assert(feed.skip(1) =~= none);
    assert(lines(feed.skip(1)) =~= Seq::<Seq<char>>::empty());
    assert(lines(feed) =~= one);
    lemma_trim_of_spaces(none);
    assert(level_before(one, 0) == 0);
    assert(level_at(one, 0) == 0);
    assert(indent(0) =~= none);
    assert(indented(one)[0] =~= none);
    assert(indented(one) =~= one);
    assert(joined(one, feed) == none);
    assert(laid_out(feed) =~= none + feed);
}

/// The lines from the first to the last that is not blank are laid out as
/// they are.
proof fn lemma_full_lines_are_stable(ls: Seq<Seq<char>>, a: int, b: int)
    requires
        0 <= a <= b < ls.len(),
        forall|k: int| 0 <= k < a ==> is_blank(#[trigger] ls[k]),
    ensures
        indented(indented(ls).subrange(a, b + 1)) == indented(ls).subrange(a, b + 1),
{
    let xs = indented(ls);
    let ys = xs.subrange(a, b + 1);
    let zs = ls.subrange(a, b + 1);
    lemma_blank_lines_stay_level(ls, a);
    assert forall|k: int| 0 <= k < ys.len() implies trimmed(#[trigger] ys[k]) == trimmed(zs[k]) by {
        assert(ys[k] == xs[a + k]);
        assert(zs[k] == ls[a + k]);
        lemma_indented_trims_back(level_at(ls, a + k), ls[a + k]);
    }
    assert forall|i: int| 0 <= i < ys.len() implies indented(ys)[i] == ys[i] by {
        lemma_levels_follow_trimmed(ys, zs, i);
        lemma_levels_of_a_cut(ls, a, b + 1, i);
        assert(trimmed(ys[i]) == trimmed(zs[i]));
        assert(ys[i] == xs[a + i]);
        assert(zs[i] == ls[a + i]);
    }
    assert(indented(ys) =~= ys);
}

/// The lines of a text, laid out: none holds a line feed, none ends with a
/// carriage return, and a blank line has become white space.
proof fn lemma_laid_lines(s: Seq<char>)
    ensures
        forall|i: int, k: int|
            0 <= i < lines(s).len() && 0 <= k < indented(lines(s))[i].len() ==> #[trigger] indented(
                lines(s),
            )[i][k] != '\n',
        forall|i: int|
            0 <= i < lines(s).len() && indented(lines(s))[i].len() > 0 ==> (#[trigger] indented(
                lines(s),
            )[i]).last() != '\r',
        forall|i: int, k: int|
            0 <= i < lines(s).len() && is_blank(lines(s)[i]) && 0 <= k < indented(lines(s))[i].len()
                ==> is_space(#[trigger] indented(lines(s))[i][k]),
{
    let ls = lines(s);
    let xs = indented(ls);
    lemma_lines_hold_no_feed(s);
    assert forall|i: int| 0 <= i < ls.len() implies (forall|k: int|
        0 <= k < (#[trigger] xs[i]).len() ==> xs[i][k] != '\n') && (xs[i].len() > 0
        ==> xs[i].last() != '\r') && (is_blank(ls[i]) ==> forall|k: int|
        0 <= k < xs[i].len() ==> is_space(xs[i][k])) by {
        assert forall|k: int| 0 <= k < ls[i].len() implies ls[i][k] != '\n' by {
            assert(lines(s)[i][k] != '\n');
        }
        lemma_laid_line(level_at(ls, i), ls[i]);
    }
}

/// A text without a line that is not blank is laid out as one line feed.
proof fn lemma_layout_of_blank_lines(s: Seq<char>)
    requires
        forall|i: int| 0 <= i < lines(s).len() ==> is_blank(#[trigger] lines(s)[i]),
    ensures
        laid_out(s) == seq!['\n'],
{
    reveal_strlit("\n");
    let feed = seq!['\n'];
    assert("\n"@ =~= feed);
    let xs = indented(lines(s));
    lemma_laid_lines(s);
    assert forall|i: int, k: int| 0 <= i < xs.len() && 0 <= k < xs[i].len() implies is_space(
        #[trigger] xs[i][k],
    ) by {
        assert(is_blank(lines(s)[i]));
    }
    assert(is_space('\n'));
    lemma_joined_of_spaces(xs, feed);
    lemma_trim_of_spaces(joined(xs, feed));
    assert(laid_out(s) =~= feed);
}

/// A text laid out is its laid-out lines from the first to the last that is
/// not blank, joined and closed by a line feed.
proof fn lemma_layout_of_full_lines(s: Seq<char>, a: int, b: int)
    requires
        0 <= a <= b < lines(s).len(),
        !is_blank(lines(s)[a]),
        !is_blank(lines(s)[b]),
        forall|k: int| 0 <= k < a ==> is_blank(#[trigger] lines(s)[k]),
        forall|k: int| b < k < lines(s).len() ==> is_blank(#[trigger] lines(s)[k]),
    ensures
        trimmed(joined(indented(lines(s)), seq!['\n'])) == joined(
            indented(lines(s)).subrange(a, b + 1),
            seq!['\n'],
        ),
{
    let feed = seq!['\n'];
    let ls = lines(s);
    let xs = indented(ls);
    let ys = xs.subrange(a, b + 1);
    let m = joined(ys, feed);
    lemma_laid_lines(s);
    assert(is_space('\n'));
    assert forall|i: int, k: int|
        0 <= i < xs.len() && (i < a || b < i) && 0 <= k < xs[i].len() implies is_space(
        #[trigger] xs[i][k],
    ) by {
        assert(is_blank(ls[i]));
    }
    lemma_joined_around(xs, a, b, feed);
    lemma_lead_and_trail_of_spaces(xs, a, b, feed);
    lemma_blank_lines_stay_level(ls, a);
    lemma_trimmed_ends(ls[a]);
    lemma_trimmed_ends(ls[b]);
    assert(level_at(ls, a) == 0);
    assert(indent(0) =~= Seq::<char>::empty());
    assert(ys[0] == xs[a]);
    assert(xs[a] =~= trimmed(ls[a]));
    assert(ys.last() == xs[b]);
    assert(xs[b].last() == trimmed(ls[b]).last());
    lemma_joined_ends(ys, feed);
    lemma_trim_sandwich(lead(xs, a, feed), m, trail(xs, b, feed));
}

/// Laying out a text that has been laid out changes nothing.
pub proof fn lemma_layout_is_stable(s: Seq<char>)
    ensures
        laid_out(laid_out(s)) == laid_out(s),
{
    reveal_strlit("\n");
    let feed = seq!['\n'];
    assert("\n"@ =~= feed);
    let ls = lines(s);
    let xs = indented(ls);
    let n = ls.len() as int;
    if exists|i: int| 0 <= i < n && !is_blank(#[trigger] ls[i]) {
        let a = lemma_first_full_line(ls, 0);
        let b = lemma_last_full_line(ls, n);
        if b < a {
            assert(is_blank(ls[b]));
        }
        let ys = xs.subrange(a, b + 1);
        let m = joined(ys, feed);
        lemma_layout_of_full_lines(s, a, b);
        assert(laid_out(s) == m + feed);
        lemma_laid_lines(s);
        assert forall|i: int, k: int| 0 <= i < ys.len() && 0 <= k < ys[i].len() implies #[trigger] ys[i][k]
            != '\n' by {
            assert(ys[i] == xs[a + i]);
            assert(xs[a + i][k] != '\n');
        }
        assert forall|i: int| 0 <= i < ys.len() && ys[i].len() > 0 implies (#[trigger] ys[i]).last()
            != '\r' by {
            assert(ys[i] == xs[a + i]);
            assert(xs[a + i].last() != '\r');
        }
        lemma_lines_of_joined(ys);
        lemma_full_lines_are_stable(ls, a, b);
        lemma_trimmed_is_stable(joined(xs, feed));
        assert(laid_out(m + feed) == trimmed(m) + feed);
    } else {
        lemma_layout_of_blank_lines(s);
        lemma_layout_of_a_feed();
    }
}

/// A text laid out ends with a line feed, and before that line feed stands
/// no white space; nor does any stand at its start.
pub proof fn lemma_layout_is_closed(s: Seq<char>)
    ensures
        laid_out(s).len() >= 1,
        laid_out(s).last() == '\n',
        laid_out(s).len() >= 2 ==> !is_space(laid_out(s)[0]) && !is_space(
            laid_out(s)[laid_out(s).len() - 2],
        ),
{
    reveal_strlit("\n");
    let feed = seq!['\n'];
    assert("\n"@ =~= feed);
    let body = joined(indented(lines(s)), feed);
    let t = trimmed(body);
    lemma_trimmed_ends(body);
    assert(laid_out(s) =~= t + feed);
    if t.len() > 0 {
        assert(laid_out(s)[0] == t[0]);
        assert(laid_out(s)[laid_out(s).len() - 2] == t.last());
    }
}

/// What is kept of lines without a line feed is tidy.
proof fn lemma_tidy_lines_are_tidy(ls: Seq<Seq<char>>)
    requires
        forall|i: int, k: int| 0 <= i < ls.len() && 0 <= k < ls[i].len() ==> #[trigger] ls[i][k] != '\n',
    ensures
        forall|i: int| 0 <= i < tidy(ls).len() ==> is_tidy(#[trigger] tidy(ls)[i]),
    decreases ls.len(),
{
    if ls.len() > 0 {
        let head = ls.drop_last();
        let l = ls.last();
        assert forall|i: int, k: int| 0 <= i < head.len() && 0 <= k < head[i].len() implies #[trigger] head[i][k] != '\n' by {
            assert(head[i] == ls[i]);
            assert(ls[i][k] != '\n');
        }
        lemma_tidy_lines_are_tidy(head);
        if !is_blank(l) {
            let t = trim_end(l);
            let b = lemma_trim_end_bound(l);
            lemma_trimmed_of_some(l);
            let k = choose|k: int| 0 <= k < l.len() && !is_space(#[trigger] l[k]);
            assert(k < b);
            assert(t[k] == l[k]);
            lemma_trimmed_of_some(t);
            assert(t.last() == l[b - 1]);
            assert forall|j: int| 0 <= j < t.len() implies t[j] != '\n' by {
                assert(l == ls[ls.len() - 1]);
                assert(t[j] == l[j]);
                assert(ls[ls.len() - 1][j] != '\n');
            }
            assert(is_tidy(t));
            assert forall|i: int| 0 <= i < tidy(ls).len() implies is_tidy(#[trigger] tidy(ls)[i]) by {
                if i < tidy(head).len() {
                    assert(tidy(ls)[i] == tidy(head)[i]);
                } else {
                    assert(tidy(ls)[i] == t);
                }
            }
        }
    }
}

/// Tidy lines are all kept, each as it is.
proof fn lemma_tidy_keeps_tidy(ls: Seq<Seq<char>>)
    requires
        forall|i: int| 0 <= i < ls.len() ==> is_tidy(#[trigger] ls[i]),
    ensures
        tidy(ls) == ls,
    decreases ls.len(),
{
    if ls.len() > 0 {
        let head = ls.drop_last();
        let l = ls.last();
        assert forall|i: int| 0 <= i < head.len() implies is_tidy(#[trigger] head[i]) by {
            assert(head[i] == ls[i]);
        }
        lemma_tidy_keeps_tidy(head);
        assert(is_tidy(ls[ls.len() - 1]));
        lemma_trim_end(l, l.len() as int);
        assert(l.take(l.len() as int) =~= l);
        assert(head.push(l) =~= ls);
    }
}

/// A tidy line is tidy with its tabs replaced, and holds no tab then.
proof fn lemma_untabbed_is_tidy(line: Seq<char>)
    requires
        is_tidy(line),
    ensures
        is_tidy(replaced(line, seq!['\t'], seq![' ', ' '])),
        forall|k: int|
            0 <= k < replaced(line, seq!['\t'], seq![' ', ' ']).len() ==> replaced(
                line,
                seq!['\t'],
                seq![' ', ' '],
            )[k] != '\t',
{
    let blanks = seq![' ', ' '];
    let u = replaced(line, seq!['\t'], blanks);
    lemma_replaced_char_holds(line, '\t', blanks);
    assert(is_space('\t'));
    assert forall|k: int| 0 <= k < u.len() implies u[k] != '\t' && u[k] != '\n' by {
        if blanks.contains(u[k]) {
            let j = choose|j: int| 0 <= j < blanks.len() && blanks[j] == u[k];
            assert(u[k] == ' ');
        } else {
            assert(line.contains(u[k]));
            let j = choose|j: int| 0 <= j < line.len() && line[j] == u[k];
            assert(line[j] != '\n');
        }
    }
    lemma_replaced_char_last(line, '\t', blanks);
    lemma_trimmed_of_some(line);
    let j = choose|j: int| 0 <= j < line.len() && !is_space(#[trigger] line[j]);
    assert(line[j] != '\t');
    assert(u.contains(line[j]));
    let k = choose|k: int| 0 <= k < u.len() && u[k] == line[j];
    assert(!is_space(u[k]));
    lemma_trimmed_of_some(u);
}

/// Replacing the tabs of a joined text replaces them in each line.
proof fn lemma_untabbed_joined(ls: Seq<Seq<char>>)
    ensures
        replaced(joined(ls, seq!['\n']), seq!['\t'], seq![' ', ' ']) == joined(
            untabbed_all(ls),
            seq!['\n'],
        ),
    decreases ls.len(),
{
    let feed = seq!['\n'];
    let tab = seq!['\t'];
    let blanks = seq![' ', ' '];
    let us = untabbed_all(ls);
    if ls.len() == 0 {
        assert(replaced(Seq::<char>::empty(), tab, blanks) =~= Seq::<char>::empty());
    } else if ls.len() == 1 {
        assert(us[0] == replaced(ls[0], tab, blanks));
    } else {
        let head = ls.drop_last();
        let last = ls.last();
        lemma_untabbed_joined(head);
        assert(untabbed_all(head) =~= us.drop_last());
        assert(us.last() == replaced(last, tab, blanks));
        let h = joined(head, feed);
        lemma_replaced_char_concat(h + feed, last, '\t', blanks);
        lemma_replaced_char_concat(h, feed, '\t', blanks);
        lemma_replaced_other_char('\n', '\t', blanks);
        assert(joined(ls, feed) == h + feed + last);
    }
}

/// Squeezing a squeezed text changes nothing.
pub proof fn lemma_squeeze_is_stable(text: Seq<char>)
    ensures
        squeezed(squeezed(text)) == squeezed(text),
{
    reveal_strlit("\r\n");
    reveal_strlit("\n");
    reveal_strlit("\t");
    reveal_strlit("  ");
    let feed = seq!['\n'];
    let pair = seq!['\r', '\n'];
    let tab = seq!['\t'];
    let blanks = seq![' ', ' '];
    assert("\r\n"@ =~= pair);
    assert("\n"@ =~= feed);
    assert("\t"@ =~= tab);
    assert("  "@ =~= blanks);
    let unix = replaced(text, pair, feed);
    let kept = tidy(lines(unix));
    let body = joined(kept, feed);
    let r = replaced(body, tab, blanks);
    assert(squeezed(text) == r);
    let us = untabbed_all(kept);
    lemma_untabbed_joined(kept);
    assert(r == joined(us, feed));
    lemma_lines_hold_no_feed(unix);
    lemma_tidy_lines_are_tidy(lines(unix));
    assert(is_space('\r'));
    assert forall|i: int| 0 <= i < us.len() implies is_tidy(#[trigger] us[i]) && (forall|k: int|
        0 <= k < us[i].len() ==> us[i][k] != '\t') by {
        assert(is_tidy(kept[i]));
        lemma_untabbed_is_tidy(kept[i]);
    }
    if us.len() == 0 {
        assert(r =~= Seq::<char>::empty());
        assert(replaced(r, pair, feed) =~= r);
        assert(lines(r) =~= Seq::<Seq<char>>::empty());
        assert(tidy(lines(r)) =~= Seq::<Seq<char>>::empty());
        assert(joined(tidy(lines(r)), feed) =~= r);
        assert(replaced(r, tab, blanks) =~= r);
    } else {
        assert forall|i: int, k: int| 0 <= i < us.len() && 0 <= k < us[i].len() implies #[trigger] us[i][k]
            != '\n' by {
            assert(is_tidy(us[i]));
        }
        assert forall|i: int| 0 <= i < us.len() && us[i].len() > 0 implies (#[trigger] us[i]).last()
            != '\r' by {
            assert(is_tidy(us[i]));
        }
        lemma_joined_feeds_are_plain(us);
        assert forall|i: int| !occurs_at(r, pair, i) by {
            if occurs_at(r, pair, i) {
                assert(r.subrange(i, i + 2)[0] == '\r');
                assert(r.subrange(i, i + 2)[1] == '\n');
                assert(r[i] == '\r');
                assert(r[i + 1] == '\n');
            }
        }
        lemma_replaced_nowhere(r, pair, feed);
        assert(is_tidy(us[us.len() - 1]));
        lemma_lines_of_joined_open(us);
        lemma_tidy_keeps_tidy(us);
        lemma_replaced_char_holds(body, '\t', blanks);
        assert forall|i: int| !occurs_at(r, tab, i) by {
            if occurs_at(r, tab, i) {
                assert(r.subrange(i, i + 1)[0] == '\t');
                assert(r[i] == '\t');
                if blanks.contains(r[i]) {
                    let j = choose|j: int| 0 <= j < blanks.len() && blanks[j] == r[i];
                }
            }
        }
        lemma_replaced_nowhere(r, tab, blanks);
    }
}

} // verus!
