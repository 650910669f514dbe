use cozyutils::args::parse_args;
use cozyutils::assist::{
    choose_api_key, choose_setup_key, clipboard_step, delivery, git_failure, git_output,
    home_directory, http_failure, is_failure_status, message_options, reply_text, request_url,
    stored_key, ClipboardStep, Delivery, MessageOptions, Reply,
};
use cozyutils::commit::{commit_arguments, commit_prompt, split_commit_message, CommitParts};
use cozyutils::pull::{
    base_ref, base_ref_fallbacks, base_ref_step, fallback_notice, head_range_of, pr_prompt,
    RefStep,
};

fn strings(items: &[&str]) -> Vec<String> {
    items.iter().map(|s| s.to_string()).collect()
}

fn some(s: &str) -> Option<String> {
    Some(s.to_string())
}

#[test]
fn commit_prompt_fills_in_what_git_said() {
    let expected = [
        "Generate a Conventional Commit message from the staged git changes below.",
        "Output ONLY the commit message with no extra commentary.",
        "Format:",
        "- First line: conventional commit subject (e.g., feat:, fix:, chore:, docs:, refactor:, test:)",
        "- Blank line",
        "- 2 to 5 bullet points describing the changes",
        "Avoid quoting diffs verbatim unless needed for clarity.",
        "",
        "git status:",
        "On branch main",
        "",
        "git diff --cached --stat:",
        "(no changes)",
        "",
        "git diff --cached:",
        "+ line",
    ]
    .join("\n");
    assert_eq!(commit_prompt("On branch main", "", "+ line"), expected);
    assert!(commit_prompt("", "a", "b").contains("git status:\n(no output)\n"));
    assert!(commit_prompt("s", "a", "").ends_with("git diff --cached:\n(no changes)"));
}

#[test]
fn commit_arguments_carry_the_body_where_there_is_one() {
    let parts = split_commit_message("feat: x\n\n- a\n- b\n");
    assert_eq!(
        commit_arguments(&parts).unwrap(),
        strings(&["commit", "-m", "feat: x", "-m", "- a\n- b"])
    );
    let parts = split_commit_message("feat: x");
    assert_eq!(commit_arguments(&parts).unwrap(), strings(&["commit", "-m", "feat: x"]));
    let parts = CommitParts { subject: String::new(), body: "b".to_string() };
    assert!(commit_arguments(&parts).is_none());
}

#[test]
fn pr_prompt_names_the_range() {
    let expected = [
        "Generate a PR description from the following git outputs.",
        "Return markdown formatted text suitable for a pull request description.",
        "Avoid quoting diffs verbatim unless needed for clarity.",
        "",
        "git status:",
        "(no output)",
        "",
        "git log --oneline origin/dev..HEAD:",
        "abc fix",
        "",
        "git diff origin/dev..HEAD --stat:",
        "(no changes)",
        "",
        "git diff origin/dev..HEAD:",
        "(no changes)",
    ]
    .join("\n");
    assert_eq!(pr_prompt("origin/dev", "", "abc fix", "", ""), expected);
    assert!(pr_prompt("main", "", "", "", "").contains("git log --oneline main..HEAD:\n(no commits)\n"));
    assert_eq!(head_range_of("main"), "main..HEAD");
}

#[test]
fn base_ref_comes_from_the_option_the_position_or_the_default() {
    assert_eq!(base_ref(&parse_args(&strings(&["x", "--base=y"]))), "y");
    assert_eq!(base_ref(&parse_args(&strings(&["x"]))), "x");
    assert_eq!(base_ref(&parse_args(&strings(&["--setup"]))), "origin/dev");
}

fn tried(step: RefStep) -> String {
    match step {
        RefStep::Try(name) => name,
        RefStep::GiveUp(message) => panic!("{}", message),
    }
}

fn gave_up(step: RefStep) -> String {
    match step {
        RefStep::Try(name) => panic!("{}", name),
        RefStep::GiveUp(message) => message,
    }
}

#[test]
fn default_base_ref_has_fallbacks() {
    assert_eq!(tried(base_ref_step("origin/dev", 0)), "origin/dev");
    assert_eq!(tried(base_ref_step("origin/dev", 1)), "origin/main");
    assert_eq!(tried(base_ref_step("origin/dev", 2)), "origin/master");
    assert_eq!(tried(base_ref_step("origin/dev", 3)), "main");
    assert_eq!(tried(base_ref_step("origin/dev", 4)), "master");
    assert_eq!(tried(base_ref_step("origin/dev", 5)), "dev");
    assert_eq!(
        gave_up(base_ref_step("origin/dev", 6)),
        "Base ref 'origin/dev' not found. Run 'git fetch' or set --base to a valid ref."
    );
    assert_eq!(
        gave_up(base_ref_step("origin/dev", usize::MAX)),
        "Base ref 'origin/dev' not found. Run 'git fetch' or set --base to a valid ref."
    );
    assert_eq!(
        base_ref_fallbacks(),
        strings(&["origin/main", "origin/master", "main", "master", "dev"])
    );
}

#[test]
fn named_base_ref_has_none() {
    assert_eq!(tried(base_ref_step("topic", 0)), "topic");
    assert_eq!(
        gave_up(base_ref_step("topic", 1)),
        "Base ref 'topic' not found. Use --base to specify a valid ref."
    );
    assert_eq!(
        fallback_notice("origin/dev", "main"),
        "Base ref 'origin/dev' not found. Falling back to 'main'."
    );
}

#[test]
fn options_of_a_message_command() {
    let options = message_options(&parse_args(&strings(&["--out=m.txt", "--copy"])));
    assert_eq!(options.output_path, "m.txt");
    assert_eq!(options.model, "gemini-3-flash-preview");
    assert!(options.clipboard);
    assert!(!options.clipboard_only);
    let options = message_options(&parse_args(&strings(&["--model", "other", "--clipboard-only"])));
    assert_eq!(options.output_path, "");
    assert_eq!(options.model, "other");
    assert!(options.clipboard);
    assert!(options.clipboard_only);
    let options = message_options(&parse_args(&strings(&["--clipboard"])));
    assert!(options.clipboard);
    let options = message_options(&parse_args(&strings(&[])));
    assert!(!options.clipboard);
}

fn options(output_path: &str, clipboard_only: bool, clipboard: bool) -> MessageOptions {
    MessageOptions {
        output_path: output_path.to_string(),
        model: String::new(),
        clipboard_only,
        clipboard,
    }
}

#[test]
fn message_goes_to_the_file_or_the_output() {
    assert_eq!(
        delivery(&options("m.txt", false, false)),
        Delivery { to_file: true, to_stdout: false, to_clipboard: false }
    );
    assert_eq!(
        delivery(&options("m.txt", false, true)),
        Delivery { to_file: true, to_stdout: false, to_clipboard: true }
    );
    assert_eq!(
        delivery(&options("", false, false)),
        Delivery { to_file: false, to_stdout: true, to_clipboard: false }
    );
    assert_eq!(
        delivery(&options("m.txt", true, true)),
        Delivery { to_file: false, to_stdout: false, to_clipboard: true }
    );
    assert_eq!(
        delivery(&options("", true, true)),
        Delivery { to_file: false, to_stdout: false, to_clipboard: true }
    );
}

#[test]
fn keys() {
    assert_eq!(choose_api_key(some("e"), some("s")), Ok("e".to_string()));
    assert_eq!(choose_api_key(some(""), some("s")), Ok(String::new()));
    assert_eq!(choose_api_key(None, some("s")), Ok("s".to_string()));
    assert_eq!(
        choose_api_key(None, None),
        Err("Missing GEMINI_API_KEY environment variable or ~/.cozyutils/config.json entry."
            .to_string())
    );
    assert_eq!(choose_setup_key(some("e"), some("k")), Ok("e".to_string()));
    assert_eq!(choose_setup_key(None, some("k")), Ok("k".to_string()));
    assert_eq!(
        choose_setup_key(None, None),
        Err("Provide the API key via GEMINI_API_KEY or --key.".to_string())
    );
    assert_eq!(stored_key(some("  k \n")), some("k"));
    assert_eq!(stored_key(some("   ")), None);
    assert_eq!(stored_key(None), None);
    assert_eq!(home_directory(some("/home/a"), some("C:\\a")), some("/home/a"));
    assert_eq!(home_directory(some(""), some("C:\\a")), some("C:\\a"));
    assert_eq!(home_directory(None, some("C:\\a")), some("C:\\a"));
    assert_eq!(home_directory(some(""), some("")), None);
    assert_eq!(home_directory(None, None), None);
}

#[test]
fn service_request_and_reply() {
    assert_eq!(
        request_url("m1", "k1"),
        "https://generativelanguage.googleapis.com/v1beta/models/m1:generateContent?key=k1"
    );
    assert!(is_failure_status(400));
    assert!(is_failure_status(503));
    assert!(!is_failure_status(399));
    assert!(!is_failure_status(200));
    assert_eq!(http_failure(404, "not found"), "Gemini API request failed: 404 not found");
    assert_eq!(http_failure(500, ""), "Gemini API request failed: 500 ");
    let reply = Reply { error_message: None, parts: strings(&[" feat: x\n", "\n- a ", "\n"]) };
    assert_eq!(reply_text(&reply), Ok("feat: x\n\n- a".to_string()));
    let reply = Reply { error_message: some("quota"), parts: strings(&["text"]) };
    assert_eq!(reply_text(&reply), Err("Gemini API error: quota".to_string()));
    let reply = Reply { error_message: None, parts: strings(&[" ", "\n"]) };
    assert_eq!(reply_text(&reply), Err("Gemini response was empty.".to_string()));
    let reply = Reply { error_message: None, parts: Vec::new() };
    assert_eq!(reply_text(&reply), Err("Gemini response was empty.".to_string()));
}

#[test]
fn git_reports() {
    assert_eq!(git_failure("status", " fatal: no repo \n", "out"), "git status failed: fatal: no repo");
    assert_eq!(git_failure("status", " \n", " out "), "git status failed: out");
    assert_eq!(git_failure("diff --cached", "", ""), "git diff --cached failed");
    assert_eq!(git_output(" a\nb \n\n"), " a\nb");
    assert_eq!(git_output(""), "");
}

#[test]
fn clipboard_programs_are_tried_in_order() {
    let mut seen = Vec::new();
    let mut failed = 0;
    let message = loop {
        match clipboard_step(failed) {
            ClipboardStep::Try(command) => {
                assert_eq!(command.program, command.label);
                seen.push((command.program, command.args));
            }
            ClipboardStep::GiveUp(message) => break message,
        }
        failed += 1;
    };
    assert_eq!(
        seen,
        vec![
            ("pbcopy".to_string(), strings(&[])),
            ("wl-copy".to_string(), strings(&[])),
            ("xclip".to_string(), strings(&["-selection", "clipboard"])),
            ("xsel".to_string(), strings(&["--clipboard", "--input"])),
            ("clip".to_string(), strings(&[])),
        ]
    );
    assert_eq!(
        message,
        "No clipboard command available. Install pbcopy, wl-copy, xclip, or xsel."
    );
    assert!(matches!(clipboard_step(usize::MAX), ClipboardStep::GiveUp(_)));
}
