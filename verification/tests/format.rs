use cozyutils::format::{component_template, format_svg_component, lay_out, reindent, squeeze, tidy_lines};
use cozyutils::rewrite::rewrite_attributes;

fn fmt(text: &str) -> String {
    match format_svg_component(text) {
        Ok(s) => s,
        Err(e) => panic!("{}", e.message()),
    }
}

#[test]
fn root_tag_gains_the_props_marker_once() {
    let markup = "<svg stroke-width=\"2\" fill=\"#000\"><path stroke=\"#fff\"/></svg>";
    let rewritten = rewrite_attributes(markup).ok().unwrap();
    let out = fmt(&rewritten);
    assert_eq!(
        out,
        "<svg strokeWidth=\"2\" fill=\"currentColor\" {...props}><path stroke=\"currentColor\"/></svg>\n"
    );
    assert_eq!(out.matches("{...props}").count(), 1);
    assert_eq!(fmt(&out), out);
}

#[test]
fn indentation_follows_the_tags() {
    let out = fmt("<svg {...props}>\n<g>\n<path d=\"M0 0\"/>\n</g>\n</svg>\n");
    assert_eq!(out, "<svg {...props}>\n  <g>\n    <path d=\"M0 0\"/>\n  </g>\n</svg>\n");
}

#[test]
fn blank_lines_tabs_and_runs_are_cleaned() {
    let out = fmt("a    b\t\r\n\r\n   \nc;;\nd;;");
    assert_eq!(out, "a  b\nc;\nd;;\n");
}

#[test]
fn closing_tag_never_goes_below_zero() {
    assert_eq!(fmt("</a>\n<b>\nx\n"), "</a>\n<b>\n  x\n");
}

#[test]
fn empty_text_is_one_line_feed() {
    assert_eq!(fmt(""), "\n");
}

#[test]
fn three_blanks_before_injected_props_are_a_known_edge() {
    let once = fmt("<svg  >");
    assert_eq!(once, "<svg   {...props}>\n");
    assert_eq!(fmt(&once), "<svg  {...props}>\n");
}

#[test]
fn template_wraps_and_formats() {
    let out = component_template("IconOne", "<svg><path/></svg>").ok().unwrap();
    assert_eq!(
        out,
        "import React from \"react\";\nfunction IconOne(props: React.JSX.IntrinsicElements[\"svg\"]) {\nreturn (\n<svg {...props}><path/></svg>\n);\n}\nexport default IconOne;\n"
    );
}

fn cs(s: &str) -> Vec<char> {
    s.chars().collect()
}

fn st(v: Vec<char>) -> String {
    v.into_iter().collect()
}

#[test]
fn laying_out_twice_is_laying_out_once() {
    for text in [
        "",
        "\n",
        "  \n\t\n",
        "<a>\n<b>\nx\n</b>\n</a>",
        "\n\n  <a>\n \n<b/>\n</a>\n\n",
        "</a>\n</b>\n<c>\n<?xml?>\n<d>\n",
        "x\r\n  y \r\nz\r",
        "<a>\n\u{a0}<b>\n",
    ] {
        let once = lay_out(&cs(text));
        let twice = lay_out(&once);
        assert_eq!(st(twice), st(once), "{:?}", text);
    }
    assert_eq!(st(lay_out(&cs("<a>\n<b>\nx\n</b>\n</a>"))), "<a>\n  <b>\n    x\n  </b>\n</a>\n");
    assert_eq!(st(lay_out(&cs(" \n<a>\n\n<b/>\n</a>\n \n"))), "<a>\n  \n  <b/>\n</a>\n");
}

#[test]
fn stages_before_the_patterns() {
    assert_eq!(st(squeeze(&cs("a \r\n\r\n\tb\t\n \n c"))), "a\n  b\n c");
    let lines = vec![cs("a  "), cs("  "), cs(""), cs(" b")];
    let kept: Vec<String> = tidy_lines(&lines).into_iter().map(st).collect();
    assert_eq!(kept, vec!["a", " b"]);
    let lines = vec![cs("<a>"), cs("<b x=\"1\">"), cs("<c/>"), cs("<?d?>"), cs("</b>"), cs("y")];
    let laid: Vec<String> = reindent(&lines).into_iter().map(st).collect();
    assert_eq!(laid, vec!["<a>", "  <b x=\"1\">", "    <c/>", "    <?d?>", "  </b>", "  y"]);
}

#[test]
fn squeezing_twice_is_squeezing_once() {
    for text in [
        "",
        " \r\n\t\n",
        "a \r\n\r\n\tb\t\n \n c",
        "a\r\r\nb\rc\n\td\t\te  \n",
        "x\u{a0}\n\u{a0}\ny\r",
        "\t<svg>\n\t\t<path/>\n\t</svg>\n",
    ] {
        let once = squeeze(&cs(text));
        let twice = squeeze(&once);
        assert_eq!(st(twice), st(once), "{:?}", text);
    }
    assert_eq!(st(squeeze(&cs("a\r\r\nb\rc\n\td\t\te  \n"))), "a\nb\rc\n  d    e");
}
