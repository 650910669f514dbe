//! The export aggregator: one export line per file, each under a name that
//! no earlier file of the same base has taken.

use crate::chars::{chars_of, string_of};
use crate::naming::{component_name, make_component_name, stem, stem_of};
use crate::text::{join, joined, texts, views};
use vstd::hash_map::StringHashMap;
use vstd::prelude::*;

verus! {

/// The base identifier of a file: the component name of its stem.
pub open spec fn base_of(file: Seq<char>) -> Seq<char> {
    component_name(stem(file))
}

/// The base identifiers of the files, in their order.
pub open spec fn bases_of(files: Seq<Seq<char>>) -> Seq<Seq<char>> {
    Seq::new(files.len(), |i: int| base_of(files[i]))
}

/// How often `x` stands in `s`.
pub open spec fn count_in(s: Seq<Seq<char>>, x: Seq<char>) -> nat
    decreases s.len(),
{
    if s.len() == 0 {
        0
    } else {
        count_in(s.drop_last(), x) + if s.last() == x {
            1nat
        } else {
            0nat
        }
    }
}

/// The character of the digit `d`.
pub open spec fn digit(d: nat) -> char {
    (48 + d) as char
}

/// The decimal digits of `n`, without leading zeros.
pub open spec fn decimal(n: nat) -> Seq<char>
    decreases n,
{
    if n < 10 {
        seq![digit(n)]
    } else {
        decimal(n / 10).push(digit(n % 10))
    }
}

/// The export identifier of the file at index `i`: its base where no earlier
/// file has the same base, else the base followed by the number of files
/// with that base up to and including this one.
pub open spec fn export_name(bases: Seq<Seq<char>>, i: int) -> Seq<char> {
    let earlier = count_in(bases.take(i), bases[i]);
    if earlier == 0 {
        bases[i]
    } else {
        bases[i] + decimal(earlier + 1)
    }
}

/// The export identifiers of the files, in their order.
pub open spec fn export_names(files: Seq<Seq<char>>) -> Seq<Seq<char>> {
    Seq::new(files.len(), |i: int| export_name(bases_of(files), i))
}

/// The statement that exports the default export of `./file` as `name`.
pub open spec fn export_line(name: Seq<char>, file: Seq<char>) -> Seq<char> {
    "export { default as "@ + name + " } from \"./"@ + file + "\";"@
}

/// The export statements of the files, in their order.
pub open spec fn export_lines(files: Seq<Seq<char>>) -> Seq<Seq<char>> {
    Seq::new(files.len(), |i: int| export_line(export_names(files)[i], files[i]))
}

/// The barrel file: the export lines, each closed by a line feed.
pub open spec fn barrel(files: Seq<Seq<char>>) -> Seq<char> {
    joined(export_lines(files), "\n"@) + "\n"@
}

/// Writes `n` in decimal digits.
pub fn decimal_of(n: usize) -> (r: Vec<char>)
    ensures
        r@ == decimal(n as nat),
    decreases n,
{
    if n < 10 {
        let mut r: Vec<char> = Vec::new();
        r.push((48u8 + (n as u8)) as char);
        r
    } else {
        let mut r = decimal_of(n / 10);
        r.push((48u8 + ((n % 10) as u8)) as char);
        r
    }
}

/// Derives the export identifier of each file, in the order of the files.
pub fn derive_export_names(files: &Vec<String>) -> (r: Vec<String>)
    ensures
        r@.len() == files@.len(),
        texts(r@) == export_names(texts(files@)),
{
    let ghost bases = bases_of(texts(files@));
    let mut counts: StringHashMap<usize> = StringHashMap::new();
    let mut r: Vec<String> = Vec::new();
    let mut i: usize = 0;
    while i < files.len()
        invariant
            i <= files.len(),
            bases == bases_of(texts(files@)),
            r@.len() == i,
            forall|j: int| 0 <= j < i ==> r@[j]@ == export_name(bases, j),
            forall|b: Seq<char>| counts@.contains_key(b) <==> count_in(bases.take(i as int), b) > 0,
            forall|b: Seq<char>| counts@.contains_key(b) ==> counts@[b] == count_in(bases.take(i as int), b),
        decreases files.len() - i,
    {
        let file_stem = stem_of(files[i].as_str());
        let base = make_component_name(file_stem.as_str());
        assert(base@ == bases[i as int]);
        let earlier: usize = match counts.get(base.as_str()) {
            Some(c) => *c,
            None => 0,
        };
        proof {
            assert(earlier == count_in(bases.take(i as int), base@));
            lemma_count_bound(bases.take(i as int), base@);
            assert(bases.take(i + 1).drop_last() =~= bases.take(i as int));
            assert forall|b: Seq<char>| count_in(bases.take(i + 1), b) == count_in(bases.take(i as int), b) + if b == base@ { 1nat } else { 0nat } by {
                assert(bases.take(i + 1).last() == base@);
            }
        }
        let name = if earlier > 0 {
            let number = decimal_of(earlier + 1);
            let mut text = chars_of(base.as_str());
            text.extend_from_slice(number.as_slice());
            string_of(text.as_slice())
        } else {
            base.clone()
        };
        counts.insert(base, earlier + 1);
        r.push(name);
        i += 1;
    }
    assert(texts(r@) =~= export_names(texts(files@)));
    r
}

/// No text stands in a sequence more often than the sequence is long.
pub proof fn lemma_count_bound(s: Seq<Seq<char>>, x: Seq<char>)
    ensures
        count_in(s, x) <= s.len(),
    decreases s.len(),
{
    if s.len() > 0 {
        lemma_count_bound(s.drop_last(), x);
    }
}

/// The number that a text of decimal digits writes.
pub open spec fn number(digits: Seq<char>) -> int
    decreases digits.len(),
{
    if digits.len() == 0 {
        0
    } else {
        number(digits.drop_last()) * 10 + (digits.last() as int - 48)
    }
}

/// The decimal digits of a number are not empty and write that number.
pub proof fn lemma_decimal_reads_back(n: nat)
    ensures
        decimal(n).len() >= 1,
        number(decimal(n)) == n,
    decreases n,
{
    let d = decimal(n);
    if n < 10 {
        assert(d.drop_last() =~= Seq::<char>::empty());
        assert(d.last() == digit(n));
        assert(digit(n) as int == 48 + n);
        assert(number(d.drop_last()) == 0);
    } else {
        lemma_decimal_reads_back(n / 10);
        assert(d.drop_last() =~= decimal(n / 10));
        assert(d.last() == digit(n % 10));
        assert(digit(n % 10) as int == 48 + n % 10);
    }
}

/// Two numbers with the same decimal digits are one number.
pub proof fn lemma_decimal_is_injective(a: nat, b: nat)
    requires
        decimal(a) == decimal(b),
    ensures
        a == b,
{
    lemma_decimal_reads_back(a);
    lemma_decimal_reads_back(b);
}

/// A text that is all there is in a sequence stands in it as often as the
/// sequence is long.
pub proof fn lemma_count_of_the_only_text(s: Seq<Seq<char>>, x: Seq<char>)
    requires
        forall|k: int| 0 <= k < s.len() ==> s[k] == x,
    ensures
        count_in(s, x) == s.len(),
    decreases s.len(),
{
    if s.len() > 0 {
        lemma_count_of_the_only_text(s.drop_last(), x);
    }
}

/// Files that share one base identifier are exported as `Base`, `Base2`,
/// `Base3` and so on, in the order of the files, and no two of these
/// identifiers are equal.
pub proof fn lemma_shared_base_is_numbered(files: Seq<Seq<char>>, base: Seq<char>)
    requires
        forall|i: int| 0 <= i < files.len() ==> base_of(#[trigger] files[i]) == base,
    ensures
        export_names(files).len() == files.len(),
        forall|i: int|
            0 <= i < files.len() ==> #[trigger] export_names(files)[i] == if i == 0 {
                base
            } else {
                base + decimal((i + 1) as nat)
            },
        forall|i: int, j: int|
            0 <= i < j < files.len() ==> #[trigger] export_names(files)[i]
                != #[trigger] export_names(files)[j],
{
    let bases = bases_of(files);
    let ids = export_names(files);
    assert forall|i: int| 0 <= i < files.len() implies #[trigger] ids[i] == if i == 0 {
        base
    } else {
        base + decimal((i + 1) as nat)
    } by {
        assert(bases[i] == base_of(files[i]));
        assert forall|k: int| 0 <= k < bases.take(i).len() implies bases.take(i)[k] == base by {
            assert(bases.take(i)[k] == base_of(files[k]));
        }
        lemma_count_of_the_only_text(bases.take(i), base);
    }
    assert forall|i: int, j: int| 0 <= i < j < files.len() implies #[trigger] ids[i]
        != #[trigger] ids[j] by {
        let di = decimal((i + 1) as nat);
        let dj = decimal((j + 1) as nat);
        lemma_decimal_reads_back((i + 1) as nat);
        lemma_decimal_reads_back((j + 1) as nat);
        assert(ids[j] == base + dj);
        if i == 0 {
            assert(ids[i] == base);
            assert((base + dj).len() > base.len());
        } else {
            assert(ids[i] == base + di);
            if base + di == base + dj {
                assert((base + di).skip(base.len() as int) =~= di);
                assert((base + dj).skip(base.len() as int) =~= dj);
                lemma_decimal_is_injective((i + 1) as nat, (j + 1) as nat);
            }
        }
    }
}

/// Writes the line that exports `./file` under `name`.
pub fn export_line_of(name: &str, file: &str) -> (r: Vec<char>)
    ensures
        r@ == export_line(name@, file@),
{
    let mut r = chars_of("export { default as ");
    r.extend_from_slice(chars_of(name).as_slice());
    r.extend_from_slice(chars_of(" } from \"./").as_slice());
    r.extend_from_slice(chars_of(file).as_slice());
    r.extend_from_slice(chars_of("\";").as_slice());
    r
}

/// Writes the barrel file for `files`, which are taken in the order given.
pub fn barrel_of(files: &Vec<String>) -> (r: String)
    ensures
        r@ == barrel(texts(files@)),
{
    let ids = derive_export_names(files);
    let ghost f = texts(files@);
    let mut lines: Vec<Vec<char>> = Vec::new();
    let mut i: usize = 0;
    while i < files.len()
        invariant
            i <= files.len(),
            ids@.len() == files.len(),
            f == texts(files@),
            texts(ids@) == export_names(f),
            lines@.len() == i,
            forall|j: int| 0 <= j < i ==> lines@[j]@ == export_lines(f)[j],
        decreases files.len() - i,
    {
        assert(texts(ids@)[i as int] == ids@[i as int]@);
        let line = export_line_of(ids[i].as_str(), files[i].as_str());
        lines.push(line);
        i += 1;
    }
    assert(views(lines@) =~= export_lines(f));
    let mut text = join(&lines, chars_of("\n").as_slice());
    text.extend_from_slice(chars_of("\n").as_slice());
    string_of(text.as_slice())
}

} // verus!
