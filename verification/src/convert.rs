//! The two commands as decisions: what was asked for, what becomes of one
//! file, and which stage follows which. Reading, writing and moving files
//! is the caller's part.

use crate::args::{ParsedArgs, option_or_empty, positional_or_empty};
use crate::chars::{chars_of, string_of};
use crate::export::{barrel, barrel_of};
use crate::format::{
    component_template, format_compiles, format_refused, formatted, laid_out, template,
};
use crate::naming::{component_name, make_component_name, stem, stem_of};
use crate::pattern::PatternError;
use crate::rewrite::{first_refused, rewrite_attributes, rewritten, rules_compile};
use crate::text::{copy_range, index_of_char_from, split_on, texts, trim, trimmed};
use vstd::prelude::*;
use vstd::string::StringExecFns;

verus! {

/// The extension that a conversion looks for where none is asked for.
pub const DEFAULT_SOURCE_EXTENSION: &'static str = ".svg";

/// The extension of the component files.
pub const COMPONENT_EXTENSION: &'static str = ".tsx";

/// The name of the barrel file that a conversion regenerates.
pub const BARREL_FILE: &'static str = "index.ts";

/// The subdirectory that takes the originals.
pub const ORIGINALS_DIRECTORY: &'static str = "original";

/// A conversion that was asked for.
pub struct ConvertPlan {
    pub directory: String,
    pub extensions: Vec<String>,
    pub dry_run: bool,
    pub force: bool,
    pub move_originals: bool,
}

/// What the arguments of the conversion command ask for.
pub enum ConvertRequest {
    /// The usage line.
    Help,
    /// Nothing: the directory is missing.
    MissingDirectory,
    Run(ConvertPlan),
}

/// An export that was asked for.
pub struct ExportPlan {
    pub directory: String,
    pub output_file: String,
    pub extensions: Vec<String>,
    pub dry_run: bool,
}

/// What the arguments of the export command ask for.
pub enum ExportRequest {
    /// The usage line.
    Help,
    /// Nothing: the directory or the output file is missing.
    MissingArguments,
    Run(ExportPlan),
}

/// What becomes of one converted file.
#[derive(Clone, Copy, PartialEq, Eq, Structural, Debug)]
pub enum FileAction {
    /// The component file exists and is kept.
    Skip,
    /// The write is reported and not made.
    Report,
    /// The component file is written; the original is moved where asked.
    Write { move_original: bool },
}

/// What becomes of the barrel file.
pub enum ExportOutcome {
    /// No file matched: nothing is written.
    NothingFound,
    /// The write is reported and not made.
    Report,
    /// The barrel file is written with this text.
    Write(String),
}

/// Where a conversion stands.
#[derive(Clone, Copy, PartialEq, Eq, Structural, Debug)]
pub enum Stage {
    Scanning,
    /// The file at `index` of `count` is being converted.
    PerFile { index: usize, count: usize },
    Aggregating,
    Done,
}

/// What moves a conversion on.
#[derive(Clone, Copy, PartialEq, Eq, Structural, Debug)]
pub enum Event {
    /// The directory has been read and holds `count` matching files.
    Scanned { count: usize },
    /// The file in hand has been written, reported or skipped.
    FileHandled,
    /// The barrel file has been dealt with.
    Aggregated,
}

/// One converted file.
pub struct Component {
    pub name: String,
    pub file_name: String,
    pub source: String,
}

/// Each part trimmed.
pub open spec fn trimmed_all(parts: Seq<Seq<char>>) -> Seq<Seq<char>> {
    Seq::new(parts.len(), |i: int| trimmed(parts[i]))
}

/// The extensions to look for: the entries of the comma-separated `custom`,
/// each trimmed, or the defaults where `custom` is empty.
pub open spec fn extension_list(custom: Seq<char>, defaults: Seq<Seq<char>>) -> Seq<Seq<char>> {
    if custom.len() > 0 {
        trimmed_all(split_on(custom, ','))
    } else {
        defaults
    }
}

/// What becomes of a converted file: a file that exists is kept unless the
/// write is forced; a dry run only reports; else the file is written.
pub open spec fn decided(exists: bool, force: bool, dry_run: bool, move_originals: bool) -> FileAction {
    if exists && !force {
        FileAction::Skip
    } else if dry_run {
        FileAction::Report
    } else {
        FileAction::Write { move_original: move_originals }
    }
}

/// The stage that follows `stage` once `event` has come.
///
/// A scan that found nothing ends the run. Behind the last file comes the
/// barrel file, unless the run is dry. An event that is out of turn changes
/// nothing.
pub open spec fn stage_after(stage: Stage, event: Event, dry_run: bool) -> Stage {
    match (stage, event) {
        (Stage::Scanning, Event::Scanned { count }) => if count == 0 {
            Stage::Done
        } else {
            Stage::PerFile { index: 0, count }
        },
        (Stage::PerFile { index, count }, Event::FileHandled) => if index + 1 < count {
            Stage::PerFile { index: (index + 1) as usize, count }
        } else if dry_run {
            Stage::Done
        } else {
            Stage::Aggregating
        },
        (Stage::Aggregating, Event::Aggregated) => Stage::Done,
        _ => stage,
    }
}

/// Works out the extensions to look for.
pub fn extensions_to_include(custom: &str, defaults: &Vec<String>) -> (r: Vec<String>)
    ensures
        texts(r@) == extension_list(custom@, texts(defaults@)),
{
    let raw = chars_of(custom);
    if raw.len() == 0 {
        let r = defaults.clone();
        assert(texts(r@) =~= texts(defaults@));
        return r;
    }
    let ghost whole = raw@;
    let mut r: Vec<String> = Vec::new();
    let mut start: usize = 0;
    let mut done = false;
    assert(whole.skip(0) =~= whole);
    assert(texts(r@) + trimmed_all(split_on(whole, ',')) =~= trimmed_all(split_on(whole, ',')));
    while !done
        invariant
            start <= raw.len(),
            whole == raw@,
            !done ==> texts(r@) + trimmed_all(split_on(whole.skip(start as int), ','))
                == trimmed_all(split_on(whole, ',')),
            done ==> texts(r@) == trimmed_all(split_on(whole, ',')),
        decreases raw.len() - start + (if done { 0int } else { 1int }),
    {
        let ghost rest = whole.skip(start as int);
        let ghost before = texts(r@);
        let end = index_of_char_from(raw.as_slice(), ',', start);
        let piece = copy_range(raw.as_slice(), start, end);
        let entry = trim(piece.as_slice());
        proof {
            assert(rest.take(end - start) =~= piece@);
            if end < raw.len() {
                let tail = split_on(rest.skip(end - start + 1), ',');
                assert(split_on(rest, ',') == seq![piece@] + tail);
                assert(rest.skip(end - start + 1) =~= whole.skip(end + 1));
                assert(trimmed_all(seq![piece@] + tail) =~= seq![entry@] + trimmed_all(tail));
            } else {
                assert(rest.take(end - start) =~= rest);
                assert(split_on(rest, ',') == seq![rest]);
                assert(trimmed_all(seq![rest]) =~= seq![entry@]);
            }
        }
        r.push(string_of(entry.as_slice()));
        assert(texts(r@) =~= before.push(entry@));
        if end < raw.len() {
            start = end + 1;
            assert(texts(r@) + trimmed_all(split_on(whole.skip(start as int), ',')) =~= before
                + trimmed_all(split_on(rest, ',')));
        } else {
            done = true;
            assert(texts(r@) =~= before + trimmed_all(split_on(rest, ',')));
        }
    }
    r
}

/// Reads the arguments of the conversion command.
pub fn convert_request(parsed: &ParsedArgs) -> (r: ConvertRequest)
    ensures
        parsed@.options.contains_key("help"@) ==> r is Help,
        !parsed@.options.contains_key("help"@) && positional_or_empty(parsed@, 0).len() == 0
            ==> r is MissingDirectory,
        !parsed@.options.contains_key("help"@) && positional_or_empty(parsed@, 0).len() > 0 ==> {
            &&& r matches ConvertRequest::Run(plan)
            &&& plan.directory@ == positional_or_empty(parsed@, 0)
            &&& texts(plan.extensions@) == extension_list(
                option_or_empty(parsed@, "ext"@),
                seq![DEFAULT_SOURCE_EXTENSION@],
            )
            &&& plan.dry_run == parsed@.options.contains_key("dry-run"@)
            &&& plan.force == parsed@.options.contains_key("force"@)
            &&& plan.move_originals == !parsed@.options.contains_key("no-move"@)
        },
{
    if parsed.has("help") {
        return ConvertRequest::Help;
    }
    let directory = parsed.positional_or_empty(0);
    if directory.as_str().unicode_len() == 0 {
        return ConvertRequest::MissingDirectory;
    }
    let custom = parsed.option_or_empty("ext");
    let mut defaults: Vec<String> = Vec::new();
    defaults.push(DEFAULT_SOURCE_EXTENSION.to_owned());
    assert(texts(defaults@) =~= seq![DEFAULT_SOURCE_EXTENSION@]);
    let extensions = extensions_to_include(custom.as_str(), &defaults);
    ConvertRequest::Run(
        ConvertPlan {
            directory,
            extensions,
            dry_run: parsed.has("dry-run"),
            force: parsed.has("force"),
            move_originals: !parsed.has("no-move"),
        },
    )
}

/// Reads the arguments of the export command. `defaults` are the extensions
/// to look for where none is asked for.
pub fn export_request(parsed: &ParsedArgs, defaults: &Vec<String>) -> (r: ExportRequest)
    ensures
        parsed@.options.contains_key("help"@) ==> r is Help,
        !parsed@.options.contains_key("help"@) && (positional_or_empty(parsed@, 0).len() == 0
            || positional_or_empty(parsed@, 1).len() == 0) ==> r is MissingArguments,
        !parsed@.options.contains_key("help"@) && positional_or_empty(parsed@, 0).len() > 0
            && positional_or_empty(parsed@, 1).len() > 0 ==> {
            &&& r matches ExportRequest::Run(plan)
            &&& plan.directory@ == positional_or_empty(parsed@, 0)
            &&& plan.output_file@ == positional_or_empty(parsed@, 1)
            &&& texts(plan.extensions@) == extension_list(
                option_or_empty(parsed@, "ext"@),
                texts(defaults@),
            )
            &&& plan.dry_run == parsed@.options.contains_key("dry-run"@)
        },
{
    if parsed.has("help") {
        return ExportRequest::Help;
    }
    let directory = parsed.positional_or_empty(0);
    let output_file = parsed.positional_or_empty(1);
    if directory.as_str().unicode_len() == 0 || output_file.as_str().unicode_len() == 0 {
        return ExportRequest::MissingArguments;
    }
    let custom = parsed.option_or_empty("ext");
    let extensions = extensions_to_include(custom.as_str(), defaults);
    ExportRequest::Run(
        ExportPlan { directory, output_file, extensions, dry_run: parsed.has("dry-run") },
    )
}

/// Decides what becomes of one converted file. A file that exists is kept
/// unless the write is forced; a dry run writes nothing.
pub fn decide(exists: bool, force: bool, dry_run: bool, move_originals: bool) -> (r: FileAction)
    ensures
        r == decided(exists, force, dry_run, move_originals),
        dry_run ==> !(r is Write),
        exists && !force ==> r is Skip,
{
    if exists && !force {
        FileAction::Skip
    } else if dry_run {
        FileAction::Report
    } else {
        FileAction::Write { move_original: move_originals }
    }
}

/// Converts one file: derives the component's name from the file name and
/// its source text from the file's content.
pub fn convert_file(filename: &str, content: &str) -> (r: Result<Component, PatternError>)
    ensures
        r is Ok <==> rules_compile() && format_compiles(
            template(component_name(stem(filename@)), rewritten(content@)),
        ),
        r matches Ok(c) ==> {
            &&& c.name@ == component_name(stem(filename@))
            &&& c.file_name@ == c.name@ + COMPONENT_EXTENSION@
            &&& c.source@ == formatted(template(c.name@, rewritten(content@)))
            &&& laid_out(c.source@) == c.source@
        },
        r matches Err(e) ==> e.pattern@ == (if rules_compile() {
            format_refused()
        } else {
            first_refused()
        }),
{
    let file_stem = stem_of(filename);
    let name = make_component_name(file_stem.as_str());
    let markup = match rewrite_attributes(content) {
        Ok(s) => s,
        Err(e) => { return Err(e); },
    };
    let source = match component_template(name.as_str(), markup.as_str()) {
        Ok(s) => s,
        Err(e) => { return Err(e); },
    };
    let file_name = name.clone().concat(COMPONENT_EXTENSION);
    Ok(Component { name, file_name, source })
}

/// Decides what becomes of the barrel file for `files`, taken in the order
/// given.
pub fn plan_export(files: &Vec<String>, dry_run: bool) -> (r: ExportOutcome)
    ensures
        files@.len() == 0 ==> r is NothingFound,
        files@.len() > 0 && dry_run ==> r is Report,
        files@.len() > 0 && !dry_run ==> (r matches ExportOutcome::Write(text) && text@ == barrel(
            texts(files@),
        )),
{
    if files.len() == 0 {
        ExportOutcome::NothingFound
    } else if dry_run {
        ExportOutcome::Report
    } else {
        ExportOutcome::Write(barrel_of(files))
    }
}

/// Moves the conversion on by one event.
pub fn next_stage(stage: Stage, event: Event, dry_run: bool) -> (r: Stage)
    ensures
        r == stage_after(stage, event, dry_run),
        dry_run && !(stage is Aggregating) ==> !(r is Aggregating),
        event == (Event::Scanned { count: 0 }) ==> !(r is Aggregating) || stage is Aggregating,
{
    match stage {
        Stage::Scanning => match event {
            Event::Scanned { count } => {
                if count == 0 {
                    Stage::Done
                } else {
                    Stage::PerFile { index: 0, count }
                }
            },
            _ => stage,
        },
        Stage::PerFile { index, count } => match event {
            Event::FileHandled => {
                if index < count && index + 1 < count {
                    Stage::PerFile { index: index + 1, count }
                } else if dry_run {
                    Stage::Done
                } else {
                    Stage::Aggregating
                }
            },
            _ => stage,
        },
        Stage::Aggregating => match event {
            Event::Aggregated => Stage::Done,
            _ => stage,
        },
        Stage::Done => stage,
    }
}

} // verus!
