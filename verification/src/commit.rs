//! Commit messages: the subject line and the body behind it.

use crate::chars::{chars_of, string_of};
use crate::format::is_blank;
use crate::text::{join, joined, lines, split_lines, texts, trim, trimmed, views};
use vstd::prelude::*;

verus! {

/// A commit message in its two parts.
pub struct CommitParts {
    pub subject: String,
    pub body: String,
}

/// The index of the first blank line; the number of lines where none is
/// blank.
pub open spec fn first_blank(ls: Seq<Seq<char>>) -> int
    decreases ls.len(),
{
    if ls.len() == 0 || is_blank(ls[0]) {
        0
    } else {
        1 + first_blank(ls.skip(1))
    }
}

/// The first line of the trimmed message, trimmed again.
pub open spec fn subject_of(text: Seq<char>) -> Seq<char> {
    let ls = lines(trimmed(text));
    if ls.len() == 0 {
        Seq::empty()
    } else {
        trimmed(ls[0])
    }
}

/// The lines behind the subject that make the body: those behind the first
/// blank line, or all of them where no line is blank.
pub open spec fn body_lines(text: Seq<char>) -> Seq<Seq<char>> {
    let rest = lines(trimmed(text)).skip(1);
    let blank = first_blank(rest);
    if blank < rest.len() {
        rest.skip(blank + 1)
    } else {
        rest
    }
}

/// The body: empty where the subject is, else the body lines joined and
/// trimmed.
pub open spec fn body_of(text: Seq<char>) -> Seq<char> {
    if subject_of(text).len() == 0 {
        Seq::empty()
    } else {
        trimmed(joined(body_lines(text), "\n"@))
    }
}

/// `text`, or `note` in the place of an empty text.
pub open spec fn or_note(text: Seq<char>, note: Seq<char>) -> Seq<char> {
    if text.len() == 0 {
        note
    } else {
        text
    }
}

/// The lines of the request for a commit message, around what `git` said of
/// the staged changes.
pub open spec fn commit_prompt_lines(
    status: Seq<char>,
    diff_stat: Seq<char>,
    diff: Seq<char>,
) -> Seq<Seq<char>> {
    seq![
        "Generate a Conventional Commit message from the staged git changes below."@,
        "Output ONLY the commit message with no extra commentary."@,
        "Format:"@,
        "- First line: conventional commit subject (e.g., feat:, fix:, chore:, docs:, refactor:, test:)"@,
        "- Blank line"@,
        "- 2 to 5 bullet points describing the changes"@,
        "Avoid quoting diffs verbatim unless needed for clarity."@,
        ""@,
        "git status:"@,
        or_note(status, "(no output)"@),
        ""@,
        "git diff --cached --stat:"@,
        or_note(diff_stat, "(no changes)"@),
        ""@,
        "git diff --cached:"@,
        or_note(diff, "(no changes)"@),
    ]
}

/// The request for a commit message: its lines, joined.
pub open spec fn commit_prompt_text(
    status: Seq<char>,
    diff_stat: Seq<char>,
    diff: Seq<char>,
) -> Seq<char> {
    joined(commit_prompt_lines(status, diff_stat, diff), "\n"@)
}

/// The arguments that hand the message to `git commit`: none for a message
/// without a subject; the body only where there is one.
pub open spec fn commit_arguments_for(subject: Seq<char>, body: Seq<char>) -> Option<
    Seq<Seq<char>>,
> {
    if subject.len() == 0 {
        None
    } else if body.len() == 0 {
        Some(seq!["commit"@, "-m"@, subject])
    } else {
        Some(seq!["commit"@, "-m"@, subject, "-m"@, body])
    }
}

/// The first blank line is where no earlier line is blank.
pub proof fn lemma_first_blank(ls: Seq<Seq<char>>, i: int)
    requires
        0 <= i <= ls.len(),
        forall|j: int| 0 <= j < i ==> !is_blank(ls[j]),
        i == ls.len() || is_blank(ls[i]),
    ensures
        first_blank(ls) == i,
    decreases i,
{
    if i > 0 {
        let rest = ls.skip(1);
        assert forall|j: int| 0 <= j < i - 1 implies !is_blank(rest[j]) by {
            assert(rest[j] == ls[j + 1]);
        }
        lemma_first_blank(rest, i - 1);
    }
}

/// Splits a commit message into its subject and its body.
pub fn split_commit_message(text: &str) -> (r: CommitParts)
    ensures
        r.subject@ == subject_of(text@),
        r.body@ == body_of(text@),
{
    let core = trim(chars_of(text).as_slice());
    let ls = split_lines(core.as_slice());
    let ghost l = views(ls@);
    if ls.len() == 0 {
        return CommitParts { subject: String::new(), body: String::new() };
    }
    let subject = trim(ls[0].as_slice());
    assert(subject@ == trimmed(l[0]));
    if subject.len() == 0 {
        return CommitParts { subject: String::new(), body: String::new() };
    }
    let ghost rest = l.skip(1);
    let mut blank: usize = 1;
    while blank < ls.len() && trim(ls[blank].as_slice()).len() > 0
        invariant
            1 <= blank <= ls.len(),
            l == views(ls@),
            forall|j: int| 1 <= j < blank ==> !is_blank(l[j]),
        decreases ls.len() - blank,
    {
        assert(l[blank as int] == ls@[blank as int]@);
        blank += 1;
    }
    proof {
        if blank < ls.len() {
            assert(l[blank as int] == ls@[blank as int]@);
        }
        assert forall|j: int| 0 <= j < blank - 1 implies !is_blank(rest[j]) by {
            assert(rest[j] == l[j + 1]);
        }
        lemma_first_blank(rest, blank - 1);
    }
    let from: usize = if blank < ls.len() {
        blank + 1
    } else {
        1
    };
    let mut kept: Vec<Vec<char>> = Vec::new();
    let mut i: usize = from;
    while i < ls.len()
        invariant
            from <= i <= ls.len(),
            l == views(ls@),
            views(kept@) == l.subrange(from as int, i as int),
        decreases ls.len() - i,
    {
        let ghost before = views(kept@);
        kept.push(ls[i].clone());
        assert(views(kept@) =~= before.push(l[i as int]));
        assert(views(kept@) =~= l.subrange(from as int, i + 1));
        i += 1;
    }
    proof {
        if blank < ls.len() {
            assert(rest.skip(blank as int) =~= l.subrange(from as int, l.len() as int));
        } else {
            assert(rest =~= l.subrange(from as int, l.len() as int));
        }
    }
    let body = trim(join(&kept, chars_of("\n").as_slice()).as_slice());
    CommitParts { subject: string_of(subject.as_slice()), body: string_of(body.as_slice()) }
}

/// `text`, or `note` where `text` is empty.
pub fn text_or_note(text: &str, note: &str) -> (r: Vec<char>)
    ensures
        r@ == or_note(text@, note@),
{
    let t = chars_of(text);
    if t.len() == 0 {
        chars_of(note)
    } else {
        t
    }
}

/// Writes the request for a commit message.
pub fn commit_prompt(status: &str, diff_stat: &str, diff: &str) -> (r: String)
    ensures
        r@ == commit_prompt_text(status@, diff_stat@, diff@),
{
    let mut ls: Vec<Vec<char>> = Vec::new();
    ls.push(chars_of("Generate a Conventional Commit message from the staged git changes below."));
    ls.push(chars_of("Output ONLY the commit message with no extra commentary."));
    ls.push(chars_of("Format:"));
    ls.push(
        chars_of(
            "- First line: conventional commit subject (e.g., feat:, fix:, chore:, docs:, refactor:, test:)",
        ),
    );
    ls.push(chars_of("- Blank line"));
    ls.push(chars_of("- 2 to 5 bullet points describing the changes"));
    ls.push(chars_of("Avoid quoting diffs verbatim unless needed for clarity."));
    ls.push(chars_of(""));
    ls.push(chars_of("git status:"));
    ls.push(text_or_note(status, "(no output)"));
    ls.push(chars_of(""));
    ls.push(chars_of("git diff --cached --stat:"));
    ls.push(text_or_note(diff_stat, "(no changes)"));
    ls.push(chars_of(""));
    ls.push(chars_of("git diff --cached:"));
    ls.push(text_or_note(diff, "(no changes)"));
    assert(views(ls@) =~= commit_prompt_lines(status@, diff_stat@, diff@));
    string_of(join(&ls, chars_of("\n").as_slice()).as_slice())
}

/// The arguments for `git commit`, or `None` for a message without a
/// subject.
pub fn commit_arguments(parts: &CommitParts) -> (r: Option<Vec<String>>)
    ensures
        match r {
            Some(v) => commit_arguments_for(parts.subject@, parts.body@) == Some(texts(v@)),
            None => commit_arguments_for(parts.subject@, parts.body@) is None,
        },
{
    if chars_of(parts.subject.as_str()).len() == 0 {
        return None;
    }
    let mut v: Vec<String> = Vec::new();
    v.push("commit".to_owned());
    v.push("-m".to_owned());
    v.push(parts.subject.clone());
    if chars_of(parts.body.as_str()).len() > 0 {
        v.push("-m".to_owned());
        v.push(parts.body.clone());
        assert(texts(v@) =~= seq!["commit"@, "-m"@, parts.subject@, "-m"@, parts.body@]);
    } else {
        assert(texts(v@) =~= seq!["commit"@, "-m"@, parts.subject@]);
    }
    Some(v)
}

} // verus!
