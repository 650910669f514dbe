//! The markup reformatter, and the component template that it lays out.
//!
//! Reformatting tidies the lines, collapses runs of blanks, hands the root
//! tag the component's props, and rebuilds the indentation from the nesting
//! of the tags. It reads the text as lines, not as markup.

use crate::chars::{chars_of, is_space, string_of};
use crate::format_laws::{lemma_layout_is_closed, lemma_layout_is_stable};
use crate::pattern::{
    PatternError, all_replaced, pattern_compiles, replace_all, replace_some, some_replaced,
};
use crate::text::{
    contains, ends_with, has_part, has_prefix, has_suffix, join, joined, lines, replace, replaced,
    split_lines, starts_with, trim, trim_end, trim_end_of, trimmed, views,
};
use vstd::prelude::*;

verus! {

/// The marker by which the root tag takes the component's props.
pub const PROPS: &'static str = "{...props}";

/// Two blanks or more.
pub const SPACES: &'static str = " {2,}";

/// Semicolons before a line feed.
pub const SEMICOLONS: &'static str = ";+\n";

/// Two line feeds or more.
pub const NEWLINES: &'static str = "\n{2,}";

/// An opening root tag, with its attributes as the first group.
pub const ROOT_TAG: &'static str = "<svg([^>]*)>";

/// The root tag again, its attributes followed by the props marker.
pub const ROOT_TAG_WITH_PROPS: &'static str = "<svg$1 {...props}>";

/// A line of white space, or of nothing.
pub open spec fn is_blank(line: Seq<char>) -> bool {
    trimmed(line).len() == 0
}

/// The lines that are not blank, each without the white space at its end.
pub open spec fn tidy(ls: Seq<Seq<char>>) -> Seq<Seq<char>>
    decreases ls.len(),
{
    if ls.len() == 0 {
        ls
    } else if is_blank(ls.last()) {
        tidy(ls.drop_last())
    } else {
        tidy(ls.drop_last()).push(trim_end(ls.last()))
    }
}

/// The text with plain line feeds, tidy lines and no tabs.
pub open spec fn squeezed(text: Seq<char>) -> Seq<char> {
    let unix = replaced(text, "\r\n"@, "\n"@);
    let body = joined(tidy(lines(unix)), "\n"@);
    replaced(body, "\t"@, "  "@)
}

/// The squeezed text with its runs of blanks, of semicolons before a line
/// feed, and of line feeds collapsed.
pub open spec fn collapsed(text: Seq<char>) -> Seq<char> {
    let s1 = all_replaced(SPACES@, squeezed(text), "  "@);
    let s2 = all_replaced(SEMICOLONS@, s1, ";\n"@);
    all_replaced(NEWLINES@, s2, "\n\n"@)
}

/// The collapsed text, whose first root tag has been handed the props
/// unless the text held the marker from the start.
pub open spec fn with_props(text: Seq<char>) -> Seq<char> {
    if contains(text, PROPS@) {
        collapsed(text)
    } else {
        some_replaced(ROOT_TAG@, collapsed(text), 1, ROOT_TAG_WITH_PROPS@)
    }
}

/// A line that begins with a closing tag.
pub open spec fn closes(t: Seq<char>) -> bool {
    starts_with(t, "</"@)
}

/// A line that begins with a tag which stays open behind the line.
pub open spec fn opens(t: Seq<char>) -> bool {
    &&& starts_with(t, "<"@)
    &&& !closes(t)
    &&& !contains(t, "/>"@)
    &&& !ends_with(t, "?>"@)
}

/// The depth at which line `i` is written: that behind the line before it,
/// one less where line `i` closes a tag, and never below zero.
pub open spec fn level_at(ls: Seq<Seq<char>>, i: int) -> nat
    decreases i, 1int,
{
    let before = level_before(ls, i);
    if closes(trimmed(ls[i])) && before > 0 {
        (before - 1) as nat
    } else {
        before
    }
}

/// The depth behind the first `i` lines.
pub open spec fn level_before(ls: Seq<Seq<char>>, i: int) -> nat
    decreases i, 0int,
{
    if i <= 0 {
        0
    } else if opens(trimmed(ls[i - 1])) {
        level_at(ls, i - 1) + 1
    } else {
        level_at(ls, i - 1)
    }
}

/// Two blanks for each level.
pub open spec fn indent(level: nat) -> Seq<char> {
    Seq::new(2 * level, |k: int| ' ')
}

/// Each line trimmed and set at its depth.
pub open spec fn indented(ls: Seq<Seq<char>>) -> Seq<Seq<char>> {
    Seq::new(ls.len(), |i: int| indent(level_at(ls, i)) + trimmed(ls[i]))
}

/// A text laid out: its lines set at their depths and joined, the white
/// space around the whole dropped, and one line feed at the end.
pub open spec fn laid_out(s: Seq<char>) -> Seq<char> {
    trimmed(joined(indented(lines(s)), "\n"@)) + "\n"@
}

/// The reformatted text.
pub open spec fn formatted(text: Seq<char>) -> Seq<char> {
    laid_out(with_props(text))
}

/// Every pattern that reformatting `text` needs compiles.
pub open spec fn format_compiles(text: Seq<char>) -> bool {
    &&& pattern_compiles(SPACES@)
    &&& pattern_compiles(SEMICOLONS@)
    &&& pattern_compiles(NEWLINES@)
    &&& (contains(text, PROPS@) || pattern_compiles(ROOT_TAG@))
}

/// The first pattern, in the order of use, that does not compile.
pub open spec fn format_refused() -> Seq<char> {
    if !pattern_compiles(SPACES@) {
        SPACES@
    } else if !pattern_compiles(SEMICOLONS@) {
        SEMICOLONS@
    } else if !pattern_compiles(NEWLINES@) {
        NEWLINES@
    } else {
        ROOT_TAG@
    }
}

/// The source text of a component: the import, the function that returns
/// `content`, and the default export.
pub open spec fn template(name: Seq<char>, content: Seq<char>) -> Seq<char> {
    "import React from \"react\";\n\nfunction "@ + name
        + "(props: React.JSX.IntrinsicElements[\"svg\"]) {\n  return (\n    "@ + content
        + "\n  );\n}\n\nexport default "@ + name + ";\n"@
}

/// A line that is not blank, ends with no white space and holds no line
/// feed.
pub open spec fn is_tidy(line: Seq<char>) -> bool {
    &&& !is_blank(line)
    &&& line.len() > 0
    &&& !is_space(line.last())
    &&& forall|k: int| 0 <= k < line.len() ==> line[k] != '\n'
}

/// Each line with two blanks in the place of each tab.
pub open spec fn untabbed_all(ls: Seq<Seq<char>>) -> Seq<Seq<char>> {
    Seq::new(ls.len(), |i: int| replaced(ls[i], seq!['\t'], seq![' ', ' ']))
}

/// Keeps the lines that are not blank and trims each at its end.
pub fn tidy_lines(ls: &Vec<Vec<char>>) -> (r: Vec<Vec<char>>)
    ensures
        views(r@) == tidy(views(ls@)),
{
    let ghost l = views(ls@);
    let mut r: Vec<Vec<char>> = Vec::new();
    let mut i: usize = 0;
    assert(views(r@) =~= tidy(l.take(0)));
    while i < ls.len()
        invariant
            i <= ls.len(),
            l == views(ls@),
            views(r@) == tidy(l.take(i as int)),
        decreases ls.len() - i,
    {
        let ghost before = views(r@);
        assert(l.take(i + 1).drop_last() =~= l.take(i as int));
        assert(l.take(i + 1).last() == ls@[i as int]@);
        let core = trim(ls[i].as_slice());
        if core.len() > 0 {
            let line = trim_end_of(ls[i].as_slice());
            r.push(line);
            assert(views(r@) =~= before.push(line@));
        }
        i += 1;
    }
    assert(l.take(i as int) =~= l);
    r
}

/// Brings the text to plain line feeds, tidy lines and no tabs.
pub fn squeeze(text: &[char]) -> (r: Vec<char>)
    ensures
        r@ == squeezed(text@),
{
    let unix = replace(text, chars_of("\r\n").as_slice(), chars_of("\n").as_slice());
    let kept = tidy_lines(&split_lines(unix.as_slice()));
    let body = join(&kept, chars_of("\n").as_slice());
    replace(body.as_slice(), chars_of("\t").as_slice(), chars_of("  ").as_slice())
}

fn line_closes(t: &[char]) -> (r: bool)
    ensures
        r == closes(t@),
{
    has_prefix(t, chars_of("</").as_slice())
}

fn line_opens(t: &[char]) -> (r: bool)
    ensures
        r == opens(t@),
{
    has_prefix(t, chars_of("<").as_slice()) && !line_closes(t) && !has_part(
        t,
        chars_of("/>").as_slice(),
    ) && !has_suffix(t, chars_of("?>").as_slice())
}

/// Rebuilds the indentation of `ls` from the tags that open and close.
pub fn reindent(ls: &Vec<Vec<char>>) -> (r: Vec<Vec<char>>)
    ensures
        views(r@) == indented(views(ls@)),
{
    let ghost l = views(ls@);
    let mut r: Vec<Vec<char>> = Vec::new();
    let mut level: usize = 0;
    let mut i: usize = 0;
    while i < ls.len()
        invariant
            i <= ls.len(),
            l == views(ls@),
            level == level_before(l, i as int),
            level <= i,
            r@.len() == i,
            forall|j: int| 0 <= j < i ==> r@[j]@ == indented(l)[j],
        decreases ls.len() - i,
    {
        let t = trim(ls[i].as_slice());
        assert(t@ == trimmed(l[i as int]));
        if line_closes(t.as_slice()) && level > 0 {
            level -= 1;
        }
        assert(level == level_at(l, i as int));
        let mut line: Vec<char> = Vec::new();
        let mut k: usize = 0;
        while k < level
            invariant
                k <= level,
                line@ == indent(k as nat),
            decreases level - k,
        {
            line.push(' ');
            line.push(' ');
            assert(line@ =~= indent((k + 1) as nat));
            k += 1;
        }
        line.extend_from_slice(t.as_slice());
        r.push(line);
        if line_opens(t.as_slice()) {
            level += 1;
        }
        i += 1;
    }
    assert(views(r@) =~= indented(l));
    r
}

/// Lays the text out: sets each line at its depth, drops the white space
/// around the whole, and closes it with one line feed.
pub fn lay_out(s: &[char]) -> (r: Vec<char>)
    ensures
        r@ == laid_out(s@),
{
    let laid = reindent(&split_lines(s));
    let body = join(&laid, chars_of("\n").as_slice());
    let mut out = trim(body.as_slice());
    out.push('\n');
    proof {
        reveal_strlit("\n");
        assert(out@ =~= trimmed(body@) + "\n"@);
    }
    out
}

/// Reformats `content`. It fails only where the `regex` crate refuses one of
/// the patterns that the text needs, and then names the first such.
///
/// What comes out is laid out: laying it out again changes nothing, and it
/// ends with a line feed.
pub fn format_svg_component(content: &str) -> (r: Result<String, PatternError>)
    ensures
        r is Ok <==> format_compiles(content@),
        r matches Ok(s) ==> s@ == formatted(content@),
        r matches Ok(s) ==> laid_out(s@) == s@ && s@.len() >= 1 && s@.last() == '\n',
        r matches Err(e) ==> e.pattern@ == format_refused(),
{
    proof {
        lemma_layout_is_stable(with_props(content@));
        lemma_layout_is_closed(with_props(content@));
    }
    let raw = chars_of(content);
    let has_props = has_part(raw.as_slice(), chars_of(PROPS).as_slice());
    let s0 = string_of(squeeze(raw.as_slice()).as_slice());
    let s1 = match replace_all(SPACES, s0.as_str(), "  ") {
        Ok(s) => s,
        Err(e) => { return Err(e); },
    };
    let s2 = match replace_all(SEMICOLONS, s1.as_str(), ";\n") {
        Ok(s) => s,
        Err(e) => { return Err(e); },
    };
    let s3 = match replace_all(NEWLINES, s2.as_str(), "\n\n") {
        Ok(s) => s,
        Err(e) => { return Err(e); },
    };
    let s4 = if has_props {
        s3
    } else {
        match replace_some(ROOT_TAG, s3.as_str(), 1, ROOT_TAG_WITH_PROPS) {
            Ok(s) => s,
            Err(e) => { return Err(e); },
        }
    };
    let out = lay_out(chars_of(s4.as_str()).as_slice());
    Ok(string_of(out.as_slice()))
}

/// Writes the source text of the component `component_name` around
/// `content`, and reformats it.
pub fn component_template(component_name: &str, content: &str) -> (r: Result<String, PatternError>)
    ensures
        r is Ok <==> format_compiles(template(component_name@, content@)),
        r matches Ok(s) ==> s@ == formatted(template(component_name@, content@)),
        r matches Ok(s) ==> laid_out(s@) == s@ && s@.len() >= 1 && s@.last() == '\n',
        r matches Err(e) ==> e.pattern@ == format_refused(),
{
    let mut text = chars_of("import React from \"react\";\n\nfunction ");
    text.extend_from_slice(chars_of(component_name).as_slice());
    text.extend_from_slice(
        chars_of("(props: React.JSX.IntrinsicElements[\"svg\"]) {\n  return (\n    ").as_slice(),
    );
    text.extend_from_slice(chars_of(content).as_slice());
    text.extend_from_slice(chars_of("\n  );\n}\n\nexport default ").as_slice());
    text.extend_from_slice(chars_of(component_name).as_slice());
    text.extend_from_slice(chars_of(";\n").as_slice());
    assert(text@ =~= template(component_name@, content@));
    let whole = string_of(text.as_slice());
    format_svg_component(whole.as_str())
}

} // verus!
