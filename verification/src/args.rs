//! Command-line arguments: positional values and `--key` options.

use crate::chars::{chars_of, string_of};
use crate::text::{
    copy_range, first_index, has_prefix, index_of_char, same_text, starts_with, texts,
};
use vstd::hash_map::StringHashMap;
use vstd::prelude::*;

verus! {

/// The arguments of one invocation, sorted into positional values and
/// options. An option given twice keeps its last value.
pub struct ParsedArgs {
    pub positional: Vec<String>,
    pub options: StringHashMap<String>,
}

/// What a `ParsedArgs` holds, as texts.
#[verifier::ext_equal]
pub ghost struct ArgsModel {
    pub positional: Seq<Seq<char>>,
    pub options: Map<Seq<char>, Seq<char>>,
}

impl View for ParsedArgs {
    type V = ArgsModel;

    open spec fn view(&self) -> ArgsModel {
        ArgsModel {
            positional: texts(self.positional@),
            options: Map::new(
                |k: Seq<char>| self.options@.contains_key(k),
                |k: Seq<char>| self.options@[k]@,
            ),
        }
    }
}

/// The flags that never take the next argument as their value.
pub open spec fn boolean_flag(key: Seq<char>) -> bool {
    ||| key == "dry-run"@
    ||| key == "force"@
    ||| key == "no-move"@
    ||| key == "help"@
    ||| key == "clipboard"@
    ||| key == "clipboard-only"@
    ||| key == "setup"@
    ||| key == "commit"@
    ||| key == "copy"@
}

/// An argument that begins with two dashes.
pub open spec fn is_option(arg: Seq<char>) -> bool {
    starts_with(arg, "--"@)
}

pub open spec fn with_positional(acc: ArgsModel, value: Seq<char>) -> ArgsModel {
    ArgsModel { positional: acc.positional.push(value), options: acc.options }
}

pub open spec fn with_option(acc: ArgsModel, key: Seq<char>, value: Seq<char>) -> ArgsModel {
    ArgsModel { positional: acc.positional, options: acc.options.insert(key, value) }
}

/// The arguments from index `i` on, read into `acc`.
///
/// An argument that does not begin with `--` is positional. Of an option,
/// the key runs up to the first `=`. Its value is what follows that `=`; or
/// `true` for a boolean flag; or the next argument, which is then used up,
/// unless that is an option itself; or else `true`.
pub open spec fn parse_from(args: Seq<Seq<char>>, i: int, acc: ArgsModel) -> ArgsModel
    decreases args.len() - i,
{
    if i < 0 || i >= args.len() {
        acc
    } else if !is_option(args[i]) {
        parse_from(args, i + 1, with_positional(acc, args[i]))
    } else {
        let body = args[i].skip(2);
        let eq = first_index(body, '=');
        let key = body.take(eq);
        if eq < body.len() {
            parse_from(args, i + 1, with_option(acc, key, body.skip(eq + 1)))
        } else if boolean_flag(key) {
            parse_from(args, i + 1, with_option(acc, key, "true"@))
        } else if i + 1 < args.len() && !is_option(args[i + 1]) {
            parse_from(args, i + 2, with_option(acc, key, args[i + 1]))
        } else {
            parse_from(args, i + 1, with_option(acc, key, "true"@))
        }
    }
}

/// The value of the option `key`, or the empty text.
pub open spec fn option_or_empty(args: ArgsModel, key: Seq<char>) -> Seq<char> {
    if args.options.contains_key(key) {
        args.options[key]
    } else {
        Seq::empty()
    }
}

/// The positional value at `i`, or the empty text.
pub open spec fn positional_or_empty(args: ArgsModel, i: int) -> Seq<char> {
    if 0 <= i < args.positional.len() {
        args.positional[i]
    } else {
        Seq::empty()
    }
}

/// What the arguments hold, read from the first on.
pub open spec fn parsed(args: Seq<Seq<char>>) -> ArgsModel {
    parse_from(args, 0, ArgsModel { positional: Seq::empty(), options: Map::empty() })
}

fn text_is(s: &[char], literal: &str) -> (r: bool)
    ensures
        r == (s@ == literal@),
{
    let l = chars_of(literal);
    same_text(s, l.as_slice())
}

/// Whether `flag` is one of the flags that take no value.
pub fn is_boolean_flag(flag: &str) -> (r: bool)
    ensures
        r == boolean_flag(flag@),
{
    let f = chars_of(flag);
    let s = f.as_slice();
    text_is(s, "dry-run") || text_is(s, "force") || text_is(s, "no-move") || text_is(s, "help")
        || text_is(s, "clipboard") || text_is(s, "clipboard-only") || text_is(s, "setup")
        || text_is(s, "commit") || text_is(s, "copy")
}

fn begins_option(arg: &[char]) -> (r: bool)
    ensures
        r == is_option(arg@),
        r ==> arg@.len() >= 2,
{
    let dashes = chars_of("--");
    proof {
        reveal_strlit("--");
    }
    has_prefix(arg, dashes.as_slice())
}

/// Sorts the arguments into positional values and options.
pub fn parse_args(args: &[String]) -> (r: ParsedArgs)
    ensures
        r@ == parsed(texts(args@)),
{
    let ghost a = texts(args@);
    let mut positional: Vec<String> = Vec::new();
    let mut options: StringHashMap<String> = StringHashMap::new();
    let mut index: usize = 0;
    let mut r = ParsedArgs { positional, options };
    assert(r@ =~= (ArgsModel { positional: Seq::empty(), options: Map::empty() }));
    while index < args.len()
        invariant
            index <= args.len(),
            a == texts(args@),
            parse_from(a, index as int, r@) == parsed(a),
        decreases args.len() - index,
    {
        let ghost before = r@;
        let arg = chars_of(args[index].as_str());
        assert(arg@ == a[index as int]);
        if !begins_option(arg.as_slice()) {
            r.positional.push(string_of(arg.as_slice()));
            assert(r@ =~= with_positional(before, arg@));
            index += 1;
        } else {
            let body = copy_range(arg.as_slice(), 2, arg.len());
            assert(arg@.subrange(2, arg@.len() as int) =~= arg@.skip(2));
            let eq = index_of_char(body.as_slice(), '=');
            let key_chars = copy_range(body.as_slice(), 0, eq);
            assert(body@.subrange(0, eq as int) =~= body@.take(eq as int));
            let key = string_of(key_chars.as_slice());
            if eq < body.len() {
                let value = copy_range(body.as_slice(), eq + 1, body.len());
                assert(body@.subrange(eq + 1, body@.len() as int) =~= body@.skip(eq + 1));
                r.options.insert(key, string_of(value.as_slice()));
                assert(r@ =~= with_option(before, key_chars@, value@));
                index += 1;
            } else if is_boolean_flag(key.as_str()) {
                r.options.insert(key, "true".to_owned());
                assert(r@ =~= with_option(before, key_chars@, "true"@));
                index += 1;
            } else {
                let mut taken = false;
                if index + 1 < args.len() {
                    let next = chars_of(args[index + 1].as_str());
                    assert(next@ == a[index + 1]);
                    if !begins_option(next.as_slice()) {
                        r.options.insert(key.clone(), string_of(next.as_slice()));
                        assert(r@ =~= with_option(before, key_chars@, next@));
                        taken = true;
                    }
                }
                if taken {
                    index += 2;
                } else {
                    r.options.insert(key, "true".to_owned());
                    assert(r@ =~= with_option(before, key_chars@, "true"@));
                    index += 1;
                }
            }
        }
    }
    r
}

impl Default for ParsedArgs {
    fn default() -> (r: ParsedArgs)
        ensures
            r@ == (ArgsModel { positional: Seq::empty(), options: Map::empty() }),
    {
        let r = ParsedArgs { positional: Vec::new(), options: StringHashMap::new() };
        assert(r@ =~= (ArgsModel { positional: Seq::empty(), options: Map::empty() }));
        r
    }
}

impl ParsedArgs {
    /// The value of the option `key`, where it was given.
    pub fn option(&self, key: &str) -> (r: Option<&String>)
        ensures
            r is Some <==> self@.options.contains_key(key@),
            r matches Some(v) ==> v@ == self@.options[key@],
    {
        self.options.get(key)
    }

    /// The value of the option `key`, or the empty text.
    pub fn option_or_empty(&self, key: &str) -> (r: String)
        ensures
            r@ == option_or_empty(self@, key@),
    {
        match self.options.get(key) {
            Some(v) => v.clone(),
            None => String::new(),
        }
    }

    /// The positional value at index `i`, or the empty text.
    pub fn positional_or_empty(&self, i: usize) -> (r: String)
        ensures
            r@ == positional_or_empty(self@, i as int),
    {
        if i < self.positional.len() {
            self.positional[i].clone()
        } else {
            String::new()
        }
    }

    /// Whether the option `key` was given.
    pub fn has(&self, key: &str) -> (r: bool)
        ensures
            r == self@.options.contains_key(key@),
    {
        self.options.contains_key(key)
    }
}

} // verus!
