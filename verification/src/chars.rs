//! Character classes and case mappings.
//!
//! ASCII is decided here, in verified code. Everything above ASCII is left to
//! the Unicode tables of the standard library, whose answers are only named.

use vstd::prelude::*;

verus! {

/// What `char::is_whitespace` answers for `c`.
pub uninterp spec fn unicode_white_space(c: char) -> bool;

/// What `char::to_uppercase` yields for `c`, collected in order.
pub uninterp spec fn unicode_upper(c: char) -> Seq<char>;

/// What `str::to_lowercase` returns for the text `s`.
pub uninterp spec fn unicode_lower(s: Seq<char>) -> Seq<char>;

/// `char::is_whitespace` of the standard library. Nothing is claimed of the
/// answer but that it is a function of the character.
pub assume_specification[ char::is_whitespace ](c: char) -> (r: bool)
    ensures
        r == unicode_white_space(c),
;

/// Calls `char::to_uppercase` and collects what it yields. The standard
/// library documents that the mapping has one or more characters.
#[verifier::external_body]
fn upper_of(c: char) -> (r: Vec<char>)
    ensures
        r@ == unicode_upper(c),
        r@.len() >= 1,
{
    c.to_uppercase().collect()
}

/// Calls `str::to_lowercase`. The result is named, not described.
#[verifier::external_body]
fn lower_of(s: &str) -> (r: String)
    ensures
        r@ == unicode_lower(s@),
{
    s.to_lowercase()
}

/// `String::push` appends one character.
pub assume_specification[ String::push ](s: &mut String, c: char)
    ensures
        final(s)@ == old(s)@.push(c),
;

/// A character of the first 128.
pub open spec fn is_ascii_char(c: char) -> bool {
    (c as u32) < 128
}

/// A text of ASCII characters only.
pub open spec fn all_ascii(s: Seq<char>) -> bool {
    forall|i: int| 0 <= i < s.len() ==> is_ascii_char(#[trigger] s[i])
}

/// White space: the six ASCII blanks, and above ASCII whatever Unicode says.
pub open spec fn is_space(c: char) -> bool {
    if is_ascii_char(c) {
        c == ' ' || ('\t' <= c && c <= '\r')
    } else {
        unicode_white_space(c)
    }
}

/// `a` to `z` become `A` to `Z`; any other character stays.
pub open spec fn ascii_upper(c: char) -> char {
    if 'a' <= c && c <= 'z' {
        ((c as u8) - 32) as char
    } else {
        c
    }
}

/// `A` to `Z` become `a` to `z`; any other character stays.
pub open spec fn ascii_lower(c: char) -> char {
    if 'A' <= c && c <= 'Z' {
        ((c as u8) + 32) as char
    } else {
        c
    }
}

/// The upper-case form of one character: one character for ASCII, one or
/// more above it.
pub open spec fn capital(c: char) -> Seq<char> {
    if is_ascii_char(c) {
        seq![ascii_upper(c)]
    } else {
        unicode_upper(c)
    }
}

/// The lower-case form of a text: character by character for ASCII text, the
/// standard library's mapping for any other.
pub open spec fn lowered(s: Seq<char>) -> Seq<char> {
    if all_ascii(s) {
        Seq::new(s.len(), |i: int| ascii_lower(s[i]))
    } else {
        unicode_lower(s)
    }
}

/// Collects the characters of `s` in order.
pub fn chars_of(s: &str) -> (v: Vec<char>)
    ensures
        v@ == s@,
{
    let mut v: Vec<char> = Vec::new();
    for c in it: s.chars()
        invariant
            v@ == it.seq().take(it.index()),
            it.seq() == s@,
    {
        v.push(c);
    }
    v
}

/// Builds the string that holds the characters of `v` in order.
pub fn string_of(v: &[char]) -> (s: String)
    ensures
        s@ == v@,
{
    let mut s = String::new();
    let mut i: usize = 0;
    while i < v.len()
        invariant
            i <= v.len(),
            s@ == v@.take(i as int),
        decreases v.len() - i,
    {
        s.push(v[i]);
        i += 1;
    }
    s
}

/// Appends the characters of `s` to `out`.
pub fn append_str(out: &mut Vec<char>, s: &str)
    ensures
        final(out)@ == old(out)@ + s@,
{
    let cs = chars_of(s);
    out.extend_from_slice(cs.as_slice());
}

/// Whether `c` is white space.
pub fn is_space_char(c: char) -> (r: bool)
    ensures
        r == is_space(c),
{
    if (c as u32) < 128 {
        c == ' ' || ('\t' <= c && c <= '\r')
    } else {
        c.is_whitespace()
    }
}

/// Whether `s` holds ASCII characters only.
pub fn is_ascii_text(s: &[char]) -> (r: bool)
    ensures
        r == all_ascii(s@),
{
    let mut i: usize = 0;
    while i < s.len()
        invariant
            i <= s.len(),
            forall|j: int| 0 <= j < i ==> is_ascii_char(#[trigger] s@[j]),
        decreases s.len() - i,
    {
        if (s[i] as u32) >= 128 {
            return false;
        }
        i += 1;
    }
    true
}

/// Upper-cases one character.
pub fn capital_of(c: char) -> (r: Vec<char>)
    ensures
        r@ == capital(c),
        r@.len() >= 1,
{
    if (c as u32) < 128 {
        let up: char = if 'a' <= c && c <= 'z' {
            ((c as u8) - 32) as char
        } else {
            c
        };
        let mut r: Vec<char> = Vec::new();
        r.push(up);
        r
    } else {
        upper_of(c)
    }
}

/// Lower-cases a text.
pub fn lowered_of(s: &[char]) -> (r: Vec<char>)
    ensures
        r@ == lowered(s@),
{
    if is_ascii_text(s) {
        let mut r: Vec<char> = Vec::new();
        let mut i: usize = 0;
        while i < s.len()
            invariant
                i <= s.len(),
                r@.len() == i,
                forall|j: int| 0 <= j < i ==> r@[j] == ascii_lower(s@[j]),
            decreases s.len() - i,
        {
            let c = s[i];
            let low: char = if 'A' <= c && c <= 'Z' {
                ((c as u8) + 32) as char
            } else {
                c
            };
            r.push(low);
            i += 1;
        }
        r
    } else {
        let text = string_of(s);
        let low = lower_of(text.as_str());
        chars_of(low.as_str())
    }
}

} // verus!
