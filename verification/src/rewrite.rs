//! The attribute rewriter: turns vector-graphic markup into markup that a
//! typed component can return.
//!
//! The rules run in a fixed order over the whole text. Nothing is escaped:
//! text that looks like an attribute is rewritten wherever it stands.

use crate::chars::{capital, capital_of, chars_of, string_of};
use crate::pattern::{
    PatternError, all_replaced, find_all, gaps_of, matches_of, pattern_compiles, replace_all,
    split_around,
};
use crate::text::{
    copy_range, first_index, flat, index_of_char, replace, replaced, same_text, texts,
};
use vstd::prelude::*;

verus! {

/// Two runs of word characters joined by a hyphen.
pub const DASHED: &'static str = "(\\w+)-(\\w+)";

/// A fill attribute with a value free of quotes and blanks.
pub const FILL: &'static str = "fill=\"([^\"\\s]+)\"";

/// A stroke attribute whose value begins with a hash sign.
pub const STROKE_HEX: &'static str = "stroke=\"#([^\"\\s]+)\"";

/// A stroke attribute with a value free of quotes and blanks.
pub const STROKE_ANY: &'static str = "stroke=\"([^\"\\s]+)\"";

/// The fill that stays.
pub const FILL_NONE: &'static str = "fill=\"none\"";

/// The fill that takes the place of any other.
pub const FILL_CURRENT: &'static str = "fill=\"currentColor\"";

/// The stroke that takes the place of any stroke.
pub const STROKE_CURRENT: &'static str = "stroke=\"currentColor\"";

/// What a rule puts in the place of a match.
#[derive(Clone, Copy, PartialEq, Eq, Structural, Debug)]
pub enum Rule {
    /// `word-word` becomes `wordWord`.
    CamelFold,
    /// Any fill but `none` becomes the current colour.
    FillColor,
}

/// `first-second` folded into `firstSecond`: the hyphen leaves and the
/// character behind it is upper-cased. A text without a hyphen stays.
pub open spec fn camel_fold(m: Seq<char>) -> Seq<char> {
    let i = first_index(m, '-');
    if i >= m.len() {
        m
    } else if i + 1 == m.len() {
        m.take(i)
    } else {
        m.take(i) + capital(m[i + 1]) + m.skip(i + 2)
    }
}

/// A fill attribute keeps the value `none` and no other.
pub open spec fn fill_color(m: Seq<char>) -> Seq<char> {
    if m == FILL_NONE@ {
        m
    } else {
        FILL_CURRENT@
    }
}

/// What `rule` makes of the match `m`.
pub open spec fn applied(rule: Rule, m: Seq<char>) -> Seq<char> {
    match rule {
        Rule::CamelFold => camel_fold(m),
        Rule::FillColor => fill_color(m),
    }
}

/// What `rule` makes of each match.
pub open spec fn applied_all(rule: Rule, found: Seq<Seq<char>>) -> Seq<Seq<char>> {
    Seq::new(found.len(), |i: int| applied(rule, found[i]))
}

/// The gaps and the fillings in turn, a gap first. Where one of the two runs
/// out, the rest of the other follows.
pub open spec fn weave(gaps: Seq<Seq<char>>, fillings: Seq<Seq<char>>) -> Seq<char>
    decreases gaps.len() + fillings.len(),
{
    if gaps.len() == 0 {
        flat(fillings)
    } else if fillings.len() == 0 {
        flat(gaps)
    } else {
        gaps[0] + fillings[0] + weave(gaps.skip(1), fillings.skip(1))
    }
}

/// `text` with each match of `pattern` replaced by what `rule` makes of it.
pub open spec fn substituted(pattern: Seq<char>, rule: Rule, text: Seq<char>) -> Seq<char> {
    weave(gaps_of(pattern, text), applied_all(rule, matches_of(pattern, text)))
}

/// The reserved-word renames, in their order.
pub open spec fn renamed(s: Seq<char>) -> Seq<char> {
    let s1 = replaced(s, "class="@, "className="@);
    let s2 = replaced(s1, "clip-rule="@, "clipRule="@);
    let s3 = replaced(s2, "fill-rule="@, "fillRule="@);
    let s4 = replaced(s3, "stroke-linecap="@, "strokeLinecap="@);
    let s5 = replaced(s4, "stroke-linejoin="@, "strokeLinejoin="@);
    replaced(s5, "stroke-width="@, "strokeWidth="@)
}

/// The whole rewrite: dashed names folded, fills and strokes set to the
/// current colour, reserved words renamed.
pub open spec fn rewritten(content: Seq<char>) -> Seq<char> {
    let s1 = substituted(DASHED@, Rule::CamelFold, content);
    let s2 = substituted(FILL@, Rule::FillColor, s1);
    let s3 = all_replaced(STROKE_HEX@, s2, STROKE_CURRENT@);
    let s4 = all_replaced(STROKE_ANY@, s3, STROKE_CURRENT@);
    renamed(s4)
}

/// All four patterns of the rewriter compile.
pub open spec fn rules_compile() -> bool {
    &&& pattern_compiles(DASHED@)
    &&& pattern_compiles(FILL@)
    &&& pattern_compiles(STROKE_HEX@)
    &&& pattern_compiles(STROKE_ANY@)
}

/// The first of the four patterns that does not compile.
pub open spec fn first_refused() -> Seq<char> {
    if !pattern_compiles(DASHED@) {
        DASHED@
    } else if !pattern_compiles(FILL@) {
        FILL@
    } else if !pattern_compiles(STROKE_HEX@) {
        STROKE_HEX@
    } else {
        STROKE_ANY@
    }
}

/// What `rule` puts in the place of the match `m`.
pub fn apply_rule(rule: Rule, m: &[char]) -> (r: Vec<char>)
    ensures
        r@ == applied(rule, m@),
{
    match rule {
        Rule::CamelFold => {
            let i = index_of_char(m, '-');
            if i >= m.len() {
                let r = copy_range(m, 0, m.len());
                assert(m@.subrange(0, m@.len() as int) =~= m@);
                r
            } else {
                let mut r = copy_range(m, 0, i);
                assert(m@.subrange(0, i as int) =~= m@.take(i as int));
                if i + 1 < m.len() {
                    let up = capital_of(m[i + 1]);
                    r.extend_from_slice(up.as_slice());
                    let rest = copy_range(m, i + 2, m.len());
                    assert(m@.subrange(i + 2, m@.len() as int) =~= m@.skip(i + 2));
                    r.extend_from_slice(rest.as_slice());
                }
                r
            }
        },
        Rule::FillColor => {
            let none = chars_of(FILL_NONE);
            if same_text(m, none.as_slice()) {
                let r = copy_range(m, 0, m.len());
                assert(m@.subrange(0, m@.len() as int) =~= m@);
                r
            } else {
                chars_of(FILL_CURRENT)
            }
        },
    }
}

/// Puts the text together again from the pieces between the matches and the
/// matches themselves, each match rewritten by `rule`.
pub fn substitute(gaps: &Vec<String>, found: &Vec<String>, rule: Rule) -> (r: String)
    ensures
        r@ == weave(texts(gaps@), applied_all(rule, texts(found@))),
{
    let ghost g = texts(gaps@);
    let ghost f = applied_all(rule, texts(found@));
    let mut out: Vec<char> = Vec::new();
    let mut i: usize = 0;
    assert(g.skip(0) =~= g && f.skip(0) =~= f);
    while i < gaps.len() && i < found.len()
        invariant
            i <= gaps.len(),
            i <= found.len(),
            g == texts(gaps@),
            f == applied_all(rule, texts(found@)),
            out@ + weave(g.skip(i as int), f.skip(i as int)) == weave(g, f),
        decreases gaps.len() - i,
    {
        let gap = chars_of(gaps[i].as_str());
        let m = chars_of(found[i].as_str());
        let filling = apply_rule(rule, m.as_slice());
        proof {
            let gs = g.skip(i as int);
            let fs = f.skip(i as int);
            assert(gs[0] == gap@);
            assert(fs[0] == filling@);
            assert(gs.skip(1) =~= g.skip(i + 1));
            assert(fs.skip(1) =~= f.skip(i + 1));
            assert(out@ + gap@ + filling@ + weave(g.skip(i + 1), f.skip(i + 1)) =~= out@ + weave(
                gs,
                fs,
            ));
        }
        out.extend_from_slice(gap.as_slice());
        out.extend_from_slice(filling.as_slice());
        i += 1;
    }
    if i < gaps.len() {
        proof {
            assert(f.skip(i as int).len() == 0);
            lemma_weave_gaps_only(g.skip(i as int), f.skip(i as int));
        }
        while i < gaps.len()
            invariant
                i <= gaps.len(),
                g == texts(gaps@),
                out@ + flat(g.skip(i as int)) == weave(g, f),
            decreases gaps.len() - i,
        {
            let gap = chars_of(gaps[i].as_str());
            proof {
                let gs = g.skip(i as int);
                assert(gs[0] == gap@);
                assert(gs.skip(1) =~= g.skip(i + 1));
                assert(out@ + gap@ + flat(g.skip(i + 1)) =~= out@ + flat(gs));
            }
            out.extend_from_slice(gap.as_slice());
            i += 1;
        }
        assert(flat(g.skip(i as int)) =~= Seq::<char>::empty());
    } else {
        assert(g.skip(i as int).len() == 0);
        while i < found.len()
            invariant
                i <= found.len(),
                f == applied_all(rule, texts(found@)),
                out@ + flat(f.skip(i as int)) == weave(g, f),
            decreases found.len() - i,
        {
            let m = chars_of(found[i].as_str());
            let filling = apply_rule(rule, m.as_slice());
            proof {
                let fs = f.skip(i as int);
                assert(fs[0] == filling@);
                assert(fs.skip(1) =~= f.skip(i + 1));
                assert(out@ + filling@ + flat(f.skip(i + 1)) =~= out@ + flat(fs));
            }
            out.extend_from_slice(filling.as_slice());
            i += 1;
        }
        assert(flat(f.skip(i as int)) =~= Seq::<char>::empty());
    }
    assert(out@ =~= weave(g, f));
    string_of(out.as_slice())
}

/// With no fillings left, weaving lays the gaps end to end.
pub proof fn lemma_weave_gaps_only(gaps: Seq<Seq<char>>, fillings: Seq<Seq<char>>)
    requires
        fillings.len() == 0,
    ensures
        weave(gaps, fillings) == flat(gaps),
{
    if gaps.len() == 0 {
        assert(flat(fillings) =~= flat(gaps));
    }
}

/// Replaces each match of `pattern` in `text` by what `rule` makes of it.
pub fn substitute_matches(pattern: &str, rule: Rule, text: &str) -> (r: Result<
    String,
    PatternError,
>)
    ensures
        r is Ok <==> pattern_compiles(pattern@),
        r matches Ok(s) ==> s@ == substituted(pattern@, rule, text@),
        r matches Err(e) ==> e.pattern@ == pattern@,
{
    let found = match find_all(pattern, text) {
        Ok(v) => v,
        Err(e) => { return Err(e); },
    };
    let gaps = match split_around(pattern, text) {
        Ok(v) => v,
        Err(e) => { return Err(e); },
    };
    Ok(substitute(&gaps, &found, rule))
}

/// Renames the attributes that are reserved words or carry a hyphen.
pub fn rename_reserved(s: &str) -> (r: String)
    ensures
        r@ == renamed(s@),
{
    let s0 = chars_of(s);
    let s1 = replace(s0.as_slice(), chars_of("class=").as_slice(), chars_of("className=").as_slice());
    let s2 = replace(s1.as_slice(), chars_of("clip-rule=").as_slice(), chars_of("clipRule=").as_slice());
    let s3 = replace(s2.as_slice(), chars_of("fill-rule=").as_slice(), chars_of("fillRule=").as_slice());
    let s4 = replace(
        s3.as_slice(),
        chars_of("stroke-linecap=").as_slice(),
        chars_of("strokeLinecap=").as_slice(),
    );
    let s5 = replace(
        s4.as_slice(),
        chars_of("stroke-linejoin=").as_slice(),
        chars_of("strokeLinejoin=").as_slice(),
    );
    let s6 = replace(
        s5.as_slice(),
        chars_of("stroke-width=").as_slice(),
        chars_of("strokeWidth=").as_slice(),
    );
    string_of(s6.as_slice())
}

/// Rewrites the attributes of `content`. It fails only where the `regex`
/// crate refuses one of the four patterns, and then names the first such.
pub fn rewrite_attributes(content: &str) -> (r: Result<String, PatternError>)
    ensures
        r is Ok <==> rules_compile(),
        r matches Ok(s) ==> s@ == rewritten(content@),
        r matches Err(e) ==> e.pattern@ == first_refused(),
{
    let s1 = match substitute_matches(DASHED, Rule::CamelFold, content) {
        Ok(s) => s,
        Err(e) => { return Err(e); },
    };
    let s2 = match substitute_matches(FILL, Rule::FillColor, s1.as_str()) {
        Ok(s) => s,
        Err(e) => { return Err(e); },
    };
    let s3 = match replace_all(STROKE_HEX, s2.as_str(), STROKE_CURRENT) {
        Ok(s) => s,
        Err(e) => { return Err(e); },
    };
    let s4 = match replace_all(STROKE_ANY, s3.as_str(), STROKE_CURRENT) {
        Ok(s) => s,
        Err(e) => { return Err(e); },
    };
    Ok(rename_reserved(s4.as_str()))
}

} // verus!
