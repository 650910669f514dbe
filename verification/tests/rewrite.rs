use cozyutils::pattern::{find_all, replace_all, replace_some, split_around};
use cozyutils::rewrite::{apply_rule, rename_reserved, rewrite_attributes, substitute, Rule};

fn ok(text: &str) -> String {
    match rewrite_attributes(text) {
        Ok(s) => s,
        Err(e) => panic!("{}", e.message()),
    }
}

#[test]
fn rewrites_stroke_width_fill_and_stroke() {
    let out = ok("<svg stroke-width=\"2\" fill=\"#000\"><path stroke=\"#fff\"/></svg>");
    assert_eq!(
        out,
        "<svg strokeWidth=\"2\" fill=\"currentColor\"><path stroke=\"currentColor\"/></svg>"
    );
}

#[test]
fn keeps_fill_none() {
    assert_eq!(ok("<path fill=\"none\"/>"), "<path fill=\"none\"/>");
}

#[test]
fn rewrites_fill_that_only_begins_with_none() {
    assert_eq!(ok("<path fill=\"nonesuch\"/>"), "<path fill=\"currentColor\"/>");
}

#[test]
fn folds_every_dashed_pair() {
    assert_eq!(ok("a-b c-d"), "aB cD");
    assert_eq!(ok("a-b-c"), "aB-c");
    assert_eq!(ok("M10-5"), "M105");
}

#[test]
fn renames_class() {
    assert_eq!(ok("<g class=\"x\">"), "<g className=\"x\">");
    assert_eq!(ok("<g class='x'>"), "<g className='x'>");
}

#[test]
fn renames_follow_the_table() {
    assert_eq!(
        rename_reserved("class= clip-rule= fill-rule= stroke-linecap= stroke-linejoin= stroke-width="),
        "className= clipRule= fillRule= strokeLinecap= strokeLinejoin= strokeWidth="
    );
    assert_eq!(rename_reserved("clip-rule fill-rule"), "clip-rule fill-rule");
}

#[test]
fn strokes_of_any_value_take_the_current_colour() {
    assert_eq!(ok("stroke=\"#fff\" stroke=\"red\""), "stroke=\"currentColor\" stroke=\"currentColor\"");
    assert_eq!(ok("stroke=\"a b\" stroke=\"\""), "stroke=\"a b\" stroke=\"\"");
    assert_eq!(ok("fill=\"a b\" fill=\"\""), "fill=\"a b\" fill=\"\"");
}

#[test]
fn invalid_pattern_is_reported() {
    let r = replace_all("fill=\"(?!none)([^\"\\s]+)\"", "x", "y");
    match r {
        Ok(_) => panic!("look-around is not supported"),
        Err(e) => {
            assert_eq!(e.pattern, "fill=\"(?!none)([^\"\\s]+)\"");
            assert!(e.message().starts_with("Invalid regex: "));
            assert!(!e.detail.is_empty());
            assert_eq!(e.message(), format!("Invalid regex: {}", e.detail));
        }
    }
}

#[test]
fn pattern_functions_call_the_engine() {
    assert_eq!(replace_all(" {2,}", "a    b", "  ").ok().unwrap(), "a  b");
    assert_eq!(replace_some("a", "aaa", 1, "b").ok().unwrap(), "baa");
    assert_eq!(find_all("[0-9]+", "a1b22").ok().unwrap(), vec!["1", "22"]);
    assert_eq!(split_around("[0-9]+", "a1b22").ok().unwrap(), vec!["a", "b", ""]);
}

#[test]
fn substitute_weaves_gaps_and_matches() {
    let gaps = vec!["<".to_string(), ">".to_string()];
    let found = vec!["a-b".to_string()];
    assert_eq!(substitute(&gaps, &found, Rule::CamelFold), "<aB>");
    let cs: Vec<char> = "fill=\"red\"".chars().collect();
    let out: String = apply_rule(Rule::FillColor, &cs).into_iter().collect();
    assert_eq!(out, "fill=\"currentColor\"");
}
