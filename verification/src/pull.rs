//! Pull-request messages: the base ref to compare with, and the request for
//! the description.

use crate::args::{ArgsModel, ParsedArgs};
use crate::chars::{append_str, chars_of, string_of};
use crate::commit::{or_note, text_or_note};
use crate::text::{join, joined, same_text, texts, views};
use vstd::prelude::*;

verus! {

/// The base ref where none is given.
pub const DEFAULT_BASE_REF: &'static str = "origin/dev";

/// One step in the search for a base ref.
pub enum RefStep {
    /// Ask `git` whether this ref exists.
    Try(String),
    /// No ref is left to try: this is the message.
    GiveUp(String),
}

/// What a `RefStep` holds, as texts.
pub ghost enum RefStepModel {
    Try(Seq<char>),
    GiveUp(Seq<char>),
}

impl View for RefStep {
    type V = RefStepModel;

    open spec fn view(&self) -> RefStepModel {
        match self {
            RefStep::Try(name) => RefStepModel::Try(name@),
            RefStep::GiveUp(message) => RefStepModel::GiveUp(message@),
        }
    }
}

/// The refs to fall back on when the default base ref is missing, in the
/// order in which they are tried.
pub open spec fn fallbacks() -> Seq<Seq<char>> {
    seq!["origin/main"@, "origin/master"@, "main"@, "master"@, "dev"@]
}

/// The base ref that was asked for: the option `base`, else the first
/// positional value, else the default.
pub open spec fn base_ref_of(args: ArgsModel) -> Seq<char> {
    if args.options.contains_key("base"@) {
        args.options["base"@]
    } else if args.positional.len() > 0 {
        args.positional[0]
    } else {
        DEFAULT_BASE_REF@
    }
}

/// The step to take once `failed` refs have turned out to be missing.
///
/// The ref that was asked for comes first. Only the default has fallbacks: a
/// ref that was named and is missing ends the search.
pub open spec fn ref_step(base_ref: Seq<char>, failed: nat) -> RefStepModel {
    if failed == 0 {
        RefStepModel::Try(base_ref)
    } else if base_ref != DEFAULT_BASE_REF@ {
        RefStepModel::GiveUp(
            "Base ref '"@ + base_ref + "' not found. Use --base to specify a valid ref."@,
        )
    } else if failed - 1 < fallbacks().len() {
        RefStepModel::Try(fallbacks()[failed - 1])
    } else {
        RefStepModel::GiveUp(
            "Base ref '"@ + base_ref
                + "' not found. Run 'git fetch' or set --base to a valid ref."@,
        )
    }
}

/// The commits and changes between `base_ref` and the head.
pub open spec fn head_range(base_ref: Seq<char>) -> Seq<char> {
    base_ref + "..HEAD"@
}

/// The lines of the request for a pull-request description.
pub open spec fn pr_prompt_lines(
    base_ref: Seq<char>,
    status: Seq<char>,
    log: Seq<char>,
    diff_stat: Seq<char>,
    diff: Seq<char>,
) -> Seq<Seq<char>> {
    seq![
        "Generate a PR description from the following git outputs."@,
        "Return markdown formatted text suitable for a pull request description."@,
        "Avoid quoting diffs verbatim unless needed for clarity."@,
        ""@,
        "git status:"@,
        or_note(status, "(no output)"@),
        ""@,
        "git log --oneline "@ + head_range(base_ref) + ":"@,
        or_note(log, "(no commits)"@),
        ""@,
        "git diff "@ + head_range(base_ref) + " --stat:"@,
        or_note(diff_stat, "(no changes)"@),
        ""@,
        "git diff "@ + head_range(base_ref) + ":"@,
        or_note(diff, "(no changes)"@),
    ]
}

/// The request for a pull-request description: its lines, joined.
pub open spec fn pr_prompt_text(
    base_ref: Seq<char>,
    status: Seq<char>,
    log: Seq<char>,
    diff_stat: Seq<char>,
    diff: Seq<char>,
) -> Seq<char> {
    joined(pr_prompt_lines(base_ref, status, log, diff_stat, diff), "\n"@)
}

/// The note that a fallback was taken.
pub open spec fn fallback_notice_text(base_ref: Seq<char>, fallback: Seq<char>) -> Seq<char> {
    "Base ref '"@ + base_ref + "' not found. Falling back to '"@ + fallback + "'."@
}

/// The base ref that the arguments ask for.
pub fn base_ref(parsed: &ParsedArgs) -> (r: String)
    ensures
        r@ == base_ref_of(parsed@),
{
    match parsed.option("base") {
        Some(v) => v.clone(),
        None => {
            if parsed.positional.len() > 0 {
                parsed.positional[0].clone()
            } else {
                DEFAULT_BASE_REF.to_owned()
            }
        },
    }
}

/// The refs to fall back on.
pub fn base_ref_fallbacks() -> (r: Vec<String>)
    ensures
        texts(r@) == fallbacks(),
{
    let mut r: Vec<String> = Vec::new();
    r.push("origin/main".to_owned());
    r.push("origin/master".to_owned());
    r.push("main".to_owned());
    r.push("master".to_owned());
    r.push("dev".to_owned());
    assert(texts(r@) =~= fallbacks());
    r
}

/// The step to take once `failed` refs have turned out to be missing.
pub fn base_ref_step(base_ref: &str, failed: usize) -> (r: RefStep)
    ensures
        r@ == ref_step(base_ref@, failed as nat),
{
    if failed == 0 {
        return RefStep::Try(base_ref.to_owned());
    }
    let asked = chars_of(base_ref);
    if !same_text(asked.as_slice(), chars_of(DEFAULT_BASE_REF).as_slice()) {
        let mut m = chars_of("Base ref '");
        m.extend_from_slice(asked.as_slice());
        append_str(&mut m, "' not found. Use --base to specify a valid ref.");
        assert(m@ =~= "Base ref '"@ + base_ref@
            + "' not found. Use --base to specify a valid ref."@);
        return RefStep::GiveUp(string_of(m.as_slice()));
    }
    let others = base_ref_fallbacks();
    assert(texts(others@).len() == fallbacks().len());
    if failed - 1 < others.len() {
        assert(texts(others@)[failed - 1] == others@[failed - 1]@);
        RefStep::Try(others[failed - 1].clone())
    } else {
        let mut m = chars_of("Base ref '");
        m.extend_from_slice(asked.as_slice());
        append_str(&mut m, "' not found. Run 'git fetch' or set --base to a valid ref.");
        assert(m@ =~= "Base ref '"@ + base_ref@
            + "' not found. Run 'git fetch' or set --base to a valid ref."@);
        RefStep::GiveUp(string_of(m.as_slice()))
    }
}

/// Writes the note that `fallback` is taken in the place of `base_ref`.
pub fn fallback_notice(base_ref: &str, fallback: &str) -> (r: String)
    ensures
        r@ == fallback_notice_text(base_ref@, fallback@),
{
    let mut m = chars_of("Base ref '");
    append_str(&mut m, base_ref);
    append_str(&mut m, "' not found. Falling back to '");
    append_str(&mut m, fallback);
    append_str(&mut m, "'.");
    string_of(m.as_slice())
}

/// Writes the range from `base_ref` to the head.
pub fn head_range_of(base_ref: &str) -> (r: String)
    ensures
        r@ == head_range(base_ref@),
{
    let mut m = chars_of(base_ref);
    append_str(&mut m, "..HEAD");
    string_of(m.as_slice())
}

fn heading(before: &str, base_ref: &str, after: &str) -> (r: Vec<char>)
    ensures
        r@ == before@ + head_range(base_ref@) + after@,
{
    let mut m = chars_of(before);
    append_str(&mut m, base_ref);
    append_str(&mut m, "..HEAD");
    append_str(&mut m, after);
    assert(m@ =~= before@ + head_range(base_ref@) + after@);
    m
}

/// Writes the request for a pull-request description.
pub fn pr_prompt(base_ref: &str, status: &str, log: &str, diff_stat: &str, diff: &str) -> (r:
    String)
    ensures
        r@ == pr_prompt_text(base_ref@, status@, log@, diff_stat@, diff@),
{
    let mut ls: Vec<Vec<char>> = Vec::new();
    ls.push(chars_of("Generate a PR description from the following git outputs."));
    ls.push(chars_of("Return markdown formatted text suitable for a pull request description."));
    ls.push(chars_of("Avoid quoting diffs verbatim unless needed for clarity."));
    ls.push(chars_of(""));
    ls.push(chars_of("git status:"));
    ls.push(text_or_note(status, "(no output)"));
    ls.push(chars_of(""));
    ls.push(heading("git log --oneline ", base_ref, ":"));
    ls.push(text_or_note(log, "(no commits)"));
    ls.push(chars_of(""));
    ls.push(heading("git diff ", base_ref, " --stat:"));
    ls.push(text_or_note(diff_stat, "(no changes)"));
    ls.push(chars_of(""));
    ls.push(heading("git diff ", base_ref, ":"));
    ls.push(text_or_note(diff, "(no changes)"));
    assert(views(ls@) =~= pr_prompt_lines(base_ref@, status@, log@, diff_stat@, diff@));
    string_of(join(&ls, chars_of("\n").as_slice()).as_slice())
}

} // verus!
