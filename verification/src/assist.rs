//! What surrounds a generated message: the options that both message
//! commands share, the key for the service, what the service answers, what
//! `git` reports, and where the message goes.

use crate::args::{ArgsModel, ParsedArgs, option_or_empty};
use crate::chars::{append_str, chars_of, string_of};
use crate::export::{decimal, decimal_of};
use crate::text::{flat, texts, trim, trim_end, trim_end_of, trimmed};
use vstd::prelude::*;

verus! {

/// The model that is asked where none is named.
pub const DEFAULT_MODEL: &'static str = "gemini-3-flash-preview";

/// What is reported where no key is to be had.
pub const MISSING_KEY: &'static str =
    "Missing GEMINI_API_KEY environment variable or ~/.cozyutils/config.json entry.";

/// What is reported where no key is given to store.
pub const MISSING_SETUP_KEY: &'static str = "Provide the API key via GEMINI_API_KEY or --key.";

/// What is reported where no program took the message.
pub const NO_CLIPBOARD: &'static str =
    "No clipboard command available. Install pbcopy, wl-copy, xclip, or xsel.";

/// What is reported where the service answered nothing.
pub const EMPTY_REPLY: &'static str = "Gemini response was empty.";

/// The options that the two message commands share.
pub struct MessageOptions {
    pub output_path: String,
    pub model: String,
    pub clipboard_only: bool,
    pub clipboard: bool,
}

/// Where a message goes.
#[derive(Clone, Copy, PartialEq, Eq, Structural, Debug)]
pub struct Delivery {
    pub to_file: bool,
    pub to_stdout: bool,
    pub to_clipboard: bool,
}

/// A program that copies its input to the clipboard.
pub struct ClipboardCommand {
    pub program: String,
    pub args: Vec<String>,
    pub label: String,
}

/// What a `ClipboardCommand` holds, as texts.
pub ghost struct ClipboardModel {
    pub program: Seq<char>,
    pub args: Seq<Seq<char>>,
    pub label: Seq<char>,
}

impl View for ClipboardCommand {
    type V = ClipboardModel;

    open spec fn view(&self) -> ClipboardModel {
        ClipboardModel { program: self.program@, args: texts(self.args@), label: self.label@ }
    }
}

/// One step in the search for a clipboard.
pub enum ClipboardStep {
    /// Run this program and hand it the message.
    Try(ClipboardCommand),
    /// No program is left to try: this is the message.
    GiveUp(String),
}

/// What a `ClipboardStep` holds.
pub ghost enum ClipboardStepModel {
    Try(ClipboardModel),
    GiveUp(Seq<char>),
}

impl View for ClipboardStep {
    type V = ClipboardStepModel;

    open spec fn view(&self) -> ClipboardStepModel {
        match self {
            ClipboardStep::Try(command) => ClipboardStepModel::Try(command@),
            ClipboardStep::GiveUp(message) => ClipboardStepModel::GiveUp(message@),
        }
    }
}

/// What the service answered, as far as the message is concerned: the error
/// it reported, and the texts of the parts of its candidates, in order.
pub struct Reply {
    pub error_message: Option<String>,
    pub parts: Vec<String>,
}

/// The programs that may copy to the clipboard, in the order in which they
/// are tried.
pub open spec fn clipboard_table() -> Seq<ClipboardModel> {
    seq![
        ClipboardModel { program: "pbcopy"@, args: Seq::empty(), label: "pbcopy"@ },
        ClipboardModel { program: "wl-copy"@, args: Seq::empty(), label: "wl-copy"@ },
        ClipboardModel {
            program: "xclip"@,
            args: seq!["-selection"@, "clipboard"@],
            label: "xclip"@,
        },
        ClipboardModel {
            program: "xsel"@,
            args: seq!["--clipboard"@, "--input"@],
            label: "xsel"@,
        },
        ClipboardModel { program: "clip"@, args: Seq::empty(), label: "clip"@ },
    ]
}

/// The step to take once `failed` programs have not taken the message.
pub open spec fn clipboard_step_after(failed: nat) -> ClipboardStepModel {
    if failed < clipboard_table().len() {
        ClipboardStepModel::Try(clipboard_table()[failed as int])
    } else {
        ClipboardStepModel::GiveUp(NO_CLIPBOARD@)
    }
}

/// The model that the arguments name, else the default.
pub open spec fn model_of(args: ArgsModel) -> Seq<char> {
    if args.options.contains_key("model"@) {
        args.options["model"@]
    } else {
        DEFAULT_MODEL@
    }
}

/// A message goes to the file where one is named, else to the standard
/// output; to neither where only the clipboard is asked for.
pub open spec fn delivered(output_path: Seq<char>, clipboard_only: bool, clipboard: bool) -> Delivery {
    let to_file = output_path.len() > 0 && !clipboard_only;
    Delivery { to_file, to_stdout: !to_file && !clipboard_only, to_clipboard: clipboard }
}

/// The first of the two that is there and not empty.
pub open spec fn first_present(a: Option<Seq<char>>, b: Option<Seq<char>>) -> Option<Seq<char>> {
    if a is Some && a.unwrap().len() > 0 {
        a
    } else if b is Some && b.unwrap().len() > 0 {
        b
    } else {
        None
    }
}

/// The first of the two that is there.
pub open spec fn first_given(a: Option<Seq<char>>, b: Option<Seq<char>>) -> Option<Seq<char>> {
    if a is Some {
        a
    } else {
        b
    }
}

/// A stored key, trimmed; none where that leaves nothing.
pub open spec fn usable(value: Option<Seq<char>>) -> Option<Seq<char>> {
    if value is Some && trimmed(value.unwrap()).len() > 0 {
        Some(trimmed(value.unwrap()))
    } else {
        None
    }
}

/// The text of a string that may be missing.
pub open spec fn text_of(value: Option<String>) -> Option<Seq<char>> {
    match value {
        Some(s) => Some(s@),
        None => None,
    }
}

/// The address of the request for `model`, with the key in it.
pub open spec fn request_address(model: Seq<char>, api_key: Seq<char>) -> Seq<char> {
    "https://generativelanguage.googleapis.com/v1beta/models/"@ + model
        + ":generateContent?key="@ + api_key
}

/// The message of a reply: its parts set end to end and trimmed.
pub open spec fn reply_message(parts: Seq<Seq<char>>) -> Seq<char> {
    trimmed(flat(parts))
}

/// What is reported when the service answers with a failing status.
pub open spec fn http_failure_text(status: nat, body: Seq<char>) -> Seq<char> {
    "Gemini API request failed: "@ + decimal(status) + " "@ + body
}

/// What `git` had to say of its failure: its error output, or else its
/// output, trimmed.
pub open spec fn git_complaint(stderr: Seq<char>, stdout: Seq<char>) -> Seq<char> {
    if trimmed(stderr).len() > 0 {
        trimmed(stderr)
    } else {
        trimmed(stdout)
    }
}

/// The report of a failed `git` command: its label, and what it had to say.
pub open spec fn git_failure_text(label: Seq<char>, stderr: Seq<char>, stdout: Seq<char>) -> Seq<
    char,
> {
    let complaint = git_complaint(stderr, stdout);
    if complaint.len() == 0 {
        "git "@ + label + " failed"@
    } else {
        "git "@ + label + " failed"@ + ": "@ + complaint
    }
}

fn clipboard_command(program: &str, first: &str, second: &str, with_args: bool) -> (r:
    ClipboardCommand)
    ensures
        r@ == (ClipboardModel {
            program: program@,
            args: if with_args {
                seq![first@, second@]
            } else {
                Seq::empty()
            },
            label: program@,
        }),
{
    let mut args: Vec<String> = Vec::new();
    if with_args {
        args.push(first.to_owned());
        args.push(second.to_owned());
        assert(texts(args@) =~= seq![first@, second@]);
    } else {
        assert(texts(args@) =~= Seq::<Seq<char>>::empty());
    }
    ClipboardCommand { program: program.to_owned(), args, label: program.to_owned() }
}

/// The step to take once `failed` programs have not taken the message.
pub fn clipboard_step(failed: usize) -> (r: ClipboardStep)
    ensures
        r@ == clipboard_step_after(failed as nat),
{
    if failed == 0 {
        ClipboardStep::Try(clipboard_command("pbcopy", "", "", false))
    } else if failed == 1 {
        ClipboardStep::Try(clipboard_command("wl-copy", "", "", false))
    } else if failed == 2 {
        ClipboardStep::Try(clipboard_command("xclip", "-selection", "clipboard", true))
    } else if failed == 3 {
        ClipboardStep::Try(clipboard_command("xsel", "--clipboard", "--input", true))
    } else if failed == 4 {
        ClipboardStep::Try(clipboard_command("clip", "", "", false))
    } else {
        ClipboardStep::GiveUp(NO_CLIPBOARD.to_owned())
    }
}

/// Reads the options that the message commands share.
pub fn message_options(parsed: &ParsedArgs) -> (r: MessageOptions)
    ensures
        r.output_path@ == option_or_empty(parsed@, "out"@),
        r.model@ == model_of(parsed@),
        r.clipboard_only == parsed@.options.contains_key("clipboard-only"@),
        r.clipboard == (parsed@.options.contains_key("clipboard-only"@)
            || parsed@.options.contains_key("clipboard"@) || parsed@.options.contains_key(
            "copy"@,
        )),
{
    let model = match parsed.option("model") {
        Some(v) => v.clone(),
        None => DEFAULT_MODEL.to_owned(),
    };
    let clipboard_only = parsed.has("clipboard-only");
    MessageOptions {
        output_path: parsed.option_or_empty("out"),
        model,
        clipboard_only,
        clipboard: clipboard_only || parsed.has("clipboard") || parsed.has("copy"),
    }
}

/// Decides where the message goes.
pub fn delivery(options: &MessageOptions) -> (r: Delivery)
    ensures
        r == delivered(options.output_path@, options.clipboard_only, options.clipboard),
        options.clipboard_only ==> !r.to_file && !r.to_stdout,
        !(r.to_file && r.to_stdout),
{
    let named = chars_of(options.output_path.as_str()).len() > 0;
    let to_file = named && !options.clipboard_only;
    Delivery { to_file, to_stdout: !to_file && !options.clipboard_only, to_clipboard: options.clipboard }
}

fn is_present(value: &Option<String>) -> (r: bool)
    ensures
        r == (value is Some && value.unwrap()@.len() > 0),
{
    match value {
        Some(s) => chars_of(s.as_str()).len() > 0,
        None => false,
    }
}

/// The home directory: the first of the two variables that is set and not
/// empty.
pub fn home_directory(home: Option<String>, user_profile: Option<String>) -> (r: Option<String>)
    ensures
        text_of(r) == first_present(text_of(home), text_of(user_profile)),
{
    if is_present(&home) {
        home
    } else if is_present(&user_profile) {
        user_profile
    } else {
        None
    }
}

/// The key that the configuration file holds, if it holds one worth the
/// name.
pub fn stored_key(value: Option<String>) -> (r: Option<String>)
    ensures
        text_of(r) == usable(text_of(value)),
{
    match value {
        Some(s) => {
            let t = trim(chars_of(s.as_str()).as_slice());
            if t.len() > 0 {
                Some(string_of(t.as_slice()))
            } else {
                None
            }
        },
        None => None,
    }
}

/// The key for the service: that of the environment, else the stored one.
pub fn choose_api_key(from_environment: Option<String>, stored: Option<String>) -> (r: Result<
    String,
    String,
>)
    ensures
        match r {
            Ok(key) => first_given(text_of(from_environment), text_of(stored)) == Some(key@),
            Err(message) => first_given(text_of(from_environment), text_of(stored)) is None
                && message@ == MISSING_KEY@,
        },
{
    match from_environment {
        Some(key) => Ok(key),
        None => match stored {
            Some(key) => Ok(key),
            None => Err(MISSING_KEY.to_owned()),
        },
    }
}

/// The key to store: that of the environment, else that of the option.
pub fn choose_setup_key(from_environment: Option<String>, from_option: Option<String>) -> (r:
    Result<String, String>)
    ensures
        match r {
            Ok(key) => first_given(text_of(from_environment), text_of(from_option)) == Some(key@),
            Err(message) => first_given(text_of(from_environment), text_of(from_option)) is None
                && message@ == MISSING_SETUP_KEY@,
        },
{
    match from_environment {
        Some(key) => Ok(key),
        None => match from_option {
            Some(key) => Ok(key),
            None => Err(MISSING_SETUP_KEY.to_owned()),
        },
    }
}

/// Writes the address of the request.
pub fn request_url(model: &str, api_key: &str) -> (r: String)
    ensures
        r@ == request_address(model@, api_key@),
{
    let mut m = chars_of("https://generativelanguage.googleapis.com/v1beta/models/");
    append_str(&mut m, model);
    append_str(&mut m, ":generateContent?key=");
    append_str(&mut m, api_key);
    string_of(m.as_slice())
}

/// Whether a status of the service is a failure.
pub fn is_failure_status(status: u16) -> (r: bool)
    ensures
        r == (status >= 400),
{
    status >= 400
}

/// Writes the report of a failing status.
pub fn http_failure(status: u16, body: &str) -> (r: String)
    ensures
        r@ == http_failure_text(status as nat, body@),
{
    let mut m = chars_of("Gemini API request failed: ");
    m.extend_from_slice(decimal_of(status as usize).as_slice());
    append_str(&mut m, " ");
    append_str(&mut m, body);
    string_of(m.as_slice())
}

/// Reads the message out of a reply. A reported error comes first; a
/// message that is empty once trimmed is an error too.
pub fn reply_text(reply: &Reply) -> (r: Result<String, String>)
    ensures
        match r {
            Ok(text) => reply.error_message is None && text@ == reply_message(texts(reply.parts@))
                && text@.len() > 0,
            Err(message) => match reply.error_message {
                Some(error) => message@ == "Gemini API error: "@ + error@,
                None => reply_message(texts(reply.parts@)).len() == 0 && message@ == EMPTY_REPLY@,
            },
        },
{
    match &reply.error_message {
        Some(error) => {
            let mut m = chars_of("Gemini API error: ");
            append_str(&mut m, error.as_str());
            return Err(string_of(m.as_slice()));
        },
        None => {},
    }
    let ghost p = texts(reply.parts@);
    let mut all: Vec<char> = Vec::new();
    let mut i: usize = reply.parts.len();
    assert(p.skip(i as int) =~= Seq::<Seq<char>>::empty());
    while i > 0
        invariant
            i <= reply.parts.len(),
            p == texts(reply.parts@),
            all@ == flat(p.skip(i as int)),
        decreases i,
    {
        i -= 1;
        let mut next = chars_of(reply.parts[i].as_str());
        proof {
            assert(p.skip(i as int)[0] == next@);
            assert(p.skip(i as int).skip(1) =~= p.skip(i + 1));
        }
        next.extend_from_slice(all.as_slice());
        all = next;
    }
    assert(p.skip(0) =~= p);
    let text = trim(all.as_slice());
    if text.len() == 0 {
        Err(EMPTY_REPLY.to_owned())
    } else {
        Ok(string_of(text.as_slice()))
    }
}

/// Writes the report of a failed `git` command.
pub fn git_failure(label: &str, stderr: &str, stdout: &str) -> (r: String)
    ensures
        r@ == git_failure_text(label@, stderr@, stdout@),
{
    let from_error = trim(chars_of(stderr).as_slice());
    let complaint = if from_error.len() > 0 {
        from_error
    } else {
        trim(chars_of(stdout).as_slice())
    };
    let mut m = chars_of("git ");
    append_str(&mut m, label);
    append_str(&mut m, " failed");
    if complaint.len() > 0 {
        append_str(&mut m, ": ");
        m.extend_from_slice(complaint.as_slice());
    }
    string_of(m.as_slice())
}

/// What a `git` command printed, without the white space at its end.
pub fn git_output(stdout: &str) -> (r: String)
    ensures
        r@ == trim_end(stdout@),
{
    string_of(trim_end_of(chars_of(stdout).as_slice()).as_slice())
}

} // verus!
