use cozyutils::args::{is_boolean_flag, parse_args};
use cozyutils::usage::{commands, help, usage};

fn strings(items: &[&str]) -> Vec<String> {
    items.iter().map(|s| s.to_string()).collect()
}

#[test]
fn positional_values_keep_their_order() {
    let parsed = parse_args(&strings(&["icons", "index.ts"]));
    assert_eq!(parsed.positional, strings(&["icons", "index.ts"]));
    assert!(parsed.options.is_empty());
}

#[test]
fn inline_value_follows_the_first_equals_sign() {
    let parsed = parse_args(&strings(&["--ext=.svg,.png", "--key=a=b", "--empty="]));
    assert_eq!(parsed.option("ext").unwrap(), ".svg,.png");
    assert_eq!(parsed.option("key").unwrap(), "a=b");
    assert_eq!(parsed.option("empty").unwrap(), "");
    assert!(parsed.positional.is_empty());
}

#[test]
fn boolean_flag_leaves_the_next_argument_alone() {
    let parsed = parse_args(&strings(&["--dry-run", "icons", "--force"]));
    assert_eq!(parsed.option("dry-run").unwrap(), "true");
    assert_eq!(parsed.option("force").unwrap(), "true");
    assert_eq!(parsed.positional, strings(&["icons"]));
}

#[test]
fn other_option_takes_the_next_argument() {
    let parsed = parse_args(&strings(&["--out", "file.txt", "rest"]));
    assert_eq!(parsed.option("out").unwrap(), "file.txt");
    assert_eq!(parsed.positional, strings(&["rest"]));
}

#[test]
fn option_before_an_option_or_at_the_end_is_true() {
    let parsed = parse_args(&strings(&["--out", "--model", "--base"]));
    assert_eq!(parsed.option("out").unwrap(), "true");
    assert_eq!(parsed.option("model").unwrap(), "true");
    assert_eq!(parsed.option("base").unwrap(), "true");
}

#[test]
fn later_value_replaces_the_earlier() {
    let parsed = parse_args(&strings(&["--ext=.svg", "--ext=.png"]));
    assert_eq!(parsed.option("ext").unwrap(), ".png");
    assert_eq!(parsed.options.len(), 1);
}

#[test]
fn absent_option_is_none() {
    let parsed = parse_args(&strings(&["-h", "--help"]));
    assert!(parsed.has("help"));
    assert!(!parsed.has("force"));
    assert!(parsed.option("force").is_none());
    assert_eq!(parsed.positional, strings(&["-h"]));
}

#[test]
fn bare_double_dash_is_an_option_with_an_empty_key() {
    let parsed = parse_args(&strings(&["--", "x"]));
    assert_eq!(parsed.option("").unwrap(), "x");
}

#[test]
fn boolean_flags_are_the_nine() {
    for flag in [
        "dry-run",
        "force",
        "no-move",
        "help",
        "clipboard",
        "clipboard-only",
        "setup",
        "commit",
        "copy",
    ] {
        assert!(is_boolean_flag(flag), "{}", flag);
    }
    assert!(!is_boolean_flag("ext"));
    assert!(!is_boolean_flag("out"));
    assert!(!is_boolean_flag(""));
    assert!(!is_boolean_flag("Force"));
}

#[test]
fn usage_lists_each_command() {
    assert_eq!(
        usage(),
        "\nUsage:\n  -cmsg [--out=path] [--model=gemini-3-flash-preview] [--clipboard] [--clipboard-only] [--commit]\n  -svg2tsx <directory> [--ext=.svg] [--dry-run] [--force] [--no-move]\n  -img2export <directory> <output_file> [--ext=.svg,.png] [--dry-run]\n  -prmsg [--base=origin/dev] [--out=path] [--model=gemini-3-flash-preview] [--clipboard] [--clipboard-only] [--setup]\n\n"
    );
}

#[test]
fn help_describes_each_command_and_its_flags() {
    let mut expected = String::from("\nOptions:\n");
    expected.push_str("  -cmsg [--out=path] [--model=gemini-3-flash-preview] [--clipboard] [--clipboard-only] [--commit]  Generate a commit message from staged changes via Gemini\n");
    expected.push_str("  -svg2tsx <directory> [--ext=.svg] [--dry-run] [--force] [--no-move]  Convert SVG files in a directory to React components\n");
    expected.push_str("  -img2export <directory> <output_file> [--ext=.svg,.png] [--dry-run]  Export image files in a directory as named exports\n");
    expected.push_str("  -prmsg [--base=origin/dev] [--out=path] [--model=gemini-3-flash-preview] [--clipboard] [--clipboard-only] [--setup]  Generate a PR message from git diffs via Gemini\n");
    expected.push_str("\nFlags by command:\n  -svg2tsx\n    --ext=.svg          Override extensions to include\n    --dry-run           Print planned changes only\n    --force             Overwrite existing output files\n    --no-move           Keep original SVGs in place\n  -cmsg\n    --out=path           Output commit message to a file\n    --model=gemini-3-flash-preview Override Gemini model name\n    --clipboard          Copy commit message to clipboard\n    --clipboard-only     Only copy to clipboard (skip stdout/file)\n    --copy               Copy commit message to clipboard\n    --commit             Run git commit with generated message\n  -img2export\n    --ext=.svg,.png     Override extensions to include\n    --dry-run           Print planned changes only\n  -prmsg\n    --base=origin/dev    Base ref for PR message generation\n    --out=path           Output PR message to a file\n    --model=gemini-3-flash-preview Override Gemini model name\n    --clipboard          Copy PR message to clipboard\n    --clipboard-only     Only copy to clipboard (skip stdout/file)\n    --copy               Copy PR message to clipboard\n    --setup              Create ~/.cozyutils/config.json\n    --key=VALUE          API key for --setup\n  Global\n    --help, -h          Show help\n    --version, -v       Show version\n\n");
    assert_eq!(help(), expected);
}

#[test]
fn four_commands() {
    let table = commands();
    assert_eq!(table.len(), 4);
    assert_eq!(table[1].flag, "-svg2tsx");
    assert_eq!(table[2].about, "Export image files in a directory as named exports");
}
