//! The usage and help texts.

use crate::chars::{append_str, chars_of, string_of};
use vstd::prelude::*;

verus! {

/// One command of the tool: its flag, its arguments, and what it does.
pub struct Command {
    pub flag: &'static str,
    pub args: &'static str,
    pub about: &'static str,
}

/// What a `Command` holds, as texts.
pub ghost struct CommandModel {
    pub flag: Seq<char>,
    pub args: Seq<char>,
    pub about: Seq<char>,
}

impl View for Command {
    type V = CommandModel;

    open spec fn view(&self) -> CommandModel {
        CommandModel { flag: self.flag@, args: self.args@, about: self.about@ }
    }
}

pub const COMMIT_FLAG: &'static str = "-cmsg";

pub const COMMIT_ARGS: &'static str =
    "[--out=path] [--model=gemini-3-flash-preview] [--clipboard] [--clipboard-only] [--commit]";

pub const COMMIT_ABOUT: &'static str = "Generate a commit message from staged changes via Gemini";

pub const CONVERT_FLAG: &'static str = "-svg2tsx";

pub const CONVERT_ARGS: &'static str = "<directory> [--ext=.svg] [--dry-run] [--force] [--no-move]";

pub const CONVERT_ABOUT: &'static str = "Convert SVG files in a directory to React components";

pub const EXPORT_FLAG: &'static str = "-img2export";

pub const EXPORT_ARGS: &'static str = "<directory> <output_file> [--ext=.svg,.png] [--dry-run]";

pub const EXPORT_ABOUT: &'static str = "Export image files in a directory as named exports";

pub const PULL_FLAG: &'static str = "-prmsg";

pub const PULL_ARGS: &'static str =
    "[--base=origin/dev] [--out=path] [--model=gemini-3-flash-preview] [--clipboard] [--clipboard-only] [--setup]";

pub const PULL_ABOUT: &'static str = "Generate a PR message from git diffs via Gemini";

/// The flags of each command, as the help text lists them.
pub const FLAGS_BY_COMMAND: &'static str =
    "\nFlags by command:\n  -svg2tsx\n    --ext=.svg          Override extensions to include\n    --dry-run           Print planned changes only\n    --force             Overwrite existing output files\n    --no-move           Keep original SVGs in place\n  -cmsg\n    --out=path           Output commit message to a file\n    --model=gemini-3-flash-preview Override Gemini model name\n    --clipboard          Copy commit message to clipboard\n    --clipboard-only     Only copy to clipboard (skip stdout/file)\n    --copy               Copy commit message to clipboard\n    --commit             Run git commit with generated message\n  -img2export\n    --ext=.svg,.png     Override extensions to include\n    --dry-run           Print planned changes only\n  -prmsg\n    --base=origin/dev    Base ref for PR message generation\n    --out=path           Output PR message to a file\n    --model=gemini-3-flash-preview Override Gemini model name\n    --clipboard          Copy PR message to clipboard\n    --clipboard-only     Only copy to clipboard (skip stdout/file)\n    --copy               Copy PR message to clipboard\n    --setup              Create ~/.cozyutils/config.json\n    --key=VALUE          API key for --setup\n  Global\n    --help, -h          Show help\n    --version, -v       Show version\n\n";

/// The commands, in the order in which the texts list them.
pub open spec fn command_table() -> Seq<CommandModel> {
    seq![
        CommandModel { flag: COMMIT_FLAG@, args: COMMIT_ARGS@, about: COMMIT_ABOUT@ },
        CommandModel { flag: CONVERT_FLAG@, args: CONVERT_ARGS@, about: CONVERT_ABOUT@ },
        CommandModel { flag: EXPORT_FLAG@, args: EXPORT_ARGS@, about: EXPORT_ABOUT@ },
        CommandModel { flag: PULL_FLAG@, args: PULL_ARGS@, about: PULL_ABOUT@ },
    ]
}

/// The line of a command in the usage text.
pub open spec fn usage_line(c: CommandModel) -> Seq<char> {
    "  "@ + c.flag + " "@ + c.args + "\n"@
}

/// The line of a command in the help text.
pub open spec fn help_line(c: CommandModel) -> Seq<char> {
    "  "@ + c.flag + " "@ + c.args + "  "@ + c.about + "\n"@
}

/// The usage lines of the commands, one behind the other.
pub open spec fn usage_lines(table: Seq<CommandModel>) -> Seq<char>
    decreases table.len(),
{
    if table.len() == 0 {
        Seq::empty()
    } else {
        usage_lines(table.drop_last()) + usage_line(table.last())
    }
}

/// The help lines of the commands, one behind the other.
pub open spec fn help_lines(table: Seq<CommandModel>) -> Seq<char>
    decreases table.len(),
{
    if table.len() == 0 {
        Seq::empty()
    } else {
        help_lines(table.drop_last()) + help_line(table.last())
    }
}

/// The usage text: a heading, the usage lines, an empty line.
pub open spec fn usage_text() -> Seq<char> {
    "\nUsage:\n"@ + usage_lines(command_table()) + "\n"@
}

/// The help text: a heading, the help lines, the flags of each command.
pub open spec fn help_text() -> Seq<char> {
    "\nOptions:\n"@ + help_lines(command_table()) + FLAGS_BY_COMMAND@
}

/// What a vector of commands holds.
pub open spec fn models(v: Seq<Command>) -> Seq<CommandModel> {
    Seq::new(v.len(), |i: int| v[i]@)
}

/// The commands of the tool.
pub fn commands() -> (r: Vec<Command>)
    ensures
        models(r@) == command_table(),
{
    let mut r: Vec<Command> = Vec::new();
    r.push(Command { flag: COMMIT_FLAG, args: COMMIT_ARGS, about: COMMIT_ABOUT });
    r.push(Command { flag: CONVERT_FLAG, args: CONVERT_ARGS, about: CONVERT_ABOUT });
    r.push(Command { flag: EXPORT_FLAG, args: EXPORT_ARGS, about: EXPORT_ABOUT });
    r.push(Command { flag: PULL_FLAG, args: PULL_ARGS, about: PULL_ABOUT });
    assert(models(r@) =~= command_table());
    r
}

/// The short text that lists each command with its arguments.
pub fn usage() -> (r: String)
    ensures
        r@ == usage_text(),
{
    let table = commands();
    let ghost t = models(table@);
    let mut text = chars_of("\nUsage:\n");
    let mut i: usize = 0;
    while i < table.len()
        invariant
            i <= table.len(),
            t == models(table@),
            text@ == "\nUsage:\n"@ + usage_lines(t.take(i as int)),
        decreases table.len() - i,
    {
        let ghost before = text@;
        assert(t.take(i + 1).drop_last() =~= t.take(i as int));
        assert(t.take(i + 1).last() == table@[i as int]@);
        append_str(&mut text, "  ");
        append_str(&mut text, table[i].flag);
        append_str(&mut text, " ");
        append_str(&mut text, table[i].args);
        append_str(&mut text, "\n");
        assert(text@ =~= before + usage_line(table@[i as int]@));
        assert(text@ =~= "\nUsage:\n"@ + usage_lines(t.take(i + 1)));
        i += 1;
    }
    assert(t.take(i as int) =~= t);
    append_str(&mut text, "\n");
    string_of(text.as_slice())
}

/// The long text: each command with what it does, then the flags.
pub fn help() -> (r: String)
    ensures
        r@ == help_text(),
{
    let table = commands();
    let ghost t = models(table@);
    let mut text = chars_of("\nOptions:\n");
    let mut i: usize = 0;
    while i < table.len()
        invariant
            i <= table.len(),
            t == models(table@),
            text@ == "\nOptions:\n"@ + help_lines(t.take(i as int)),
        decreases table.len() - i,
    {
        let ghost before = text@;
        assert(t.take(i + 1).drop_last() =~= t.take(i as int));
        assert(t.take(i + 1).last() == table@[i as int]@);
        append_str(&mut text, "  ");
        append_str(&mut text, table[i].flag);
        append_str(&mut text, " ");
        append_str(&mut text, table[i].args);
        append_str(&mut text, "  ");
        append_str(&mut text, table[i].about);
        append_str(&mut text, "\n");
        assert(text@ =~= before + help_line(table@[i as int]@));
        assert(text@ =~= "\nOptions:\n"@ + help_lines(t.take(i + 1)));
        i += 1;
    }
    assert(t.take(i as int) =~= t);
    append_str(&mut text, FLAGS_BY_COMMAND);
    string_of(text.as_slice())
}

} // verus!
