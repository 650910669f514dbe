use cozyutils::args::parse_args;
use cozyutils::convert::{
    convert_file, convert_request, decide, export_request, extensions_to_include, next_stage,
    plan_export, ConvertRequest, Event, ExportOutcome, ExportRequest, FileAction, Stage,
};
use cozyutils::export::{barrel_of, derive_export_names, export_line_of};
use cozyutils::naming::{capitalize, make_component_name};
use cozyutils::scan::select_entries;

fn strings(items: &[&str]) -> Vec<String> {
    items.iter().map(|s| s.to_string()).collect()
}

#[test]
fn two_icons_become_two_components_and_two_export_lines() {
    let entries = strings(&["icon-two.svg", "readme.md", "icon-one.svg"]);
    let files = select_entries(&entries, &strings(&[".svg"]));
    assert_eq!(files, strings(&["icon-one.svg", "icon-two.svg"]));
    let mut written = Vec::new();
    for file in &files {
        let component = convert_file(file, "<svg><path/></svg>").ok().unwrap();
        written.push(component.file_name);
    }
    assert_eq!(written, strings(&["IconOne.tsx", "IconTwo.tsx"]));
    let outputs = select_entries(&written, &strings(&[".tsx"]));
    assert_eq!(
        barrel_of(&outputs),
        "export { default as IconOne } from \"./IconOne.tsx\";\nexport { default as IconTwo } from \"./IconTwo.tsx\";\n"
    );
    assert_eq!(barrel_of(&outputs).lines().count(), 2);
}

#[test]
fn converted_file_holds_the_rewritten_markup() {
    let component = convert_file(
        "icon-one.svg",
        "<svg stroke-width=\"2\" fill=\"#000\"><path stroke=\"#fff\"/></svg>",
    )
    .ok()
    .unwrap();
    assert_eq!(component.name, "IconOne");
    assert_eq!(component.file_name, "IconOne.tsx");
    assert_eq!(
        component.source,
        "import React from \"react\";\nfunction IconOne(props: React.JSX.IntrinsicElements[\"svg\"]) {\nreturn (\n<svg strokeWidth=\"2\" fill=\"currentColor\" {...props}><path stroke=\"currentColor\"/></svg>\n);\n}\nexport default IconOne;\n"
    );
    assert_eq!(component.source.matches("{...props}").count(), 1);
}

#[test]
fn card_and_card_share_a_base() {
    let files = strings(&["Card.svg", "card.svg"]);
    assert_eq!(derive_export_names(&files), strings(&["Card", "Card2"]));
    assert_eq!(
        barrel_of(&files),
        "export { default as Card } from \"./Card.svg\";\nexport { default as Card2 } from \"./card.svg\";\n"
    );
}

#[test]
fn shared_base_counts_up_in_input_order() {
    let files = strings(&[
        "a.svg", "a.png", "A.gif", "a.b.c", "a", "a.1", "a.2", "a.3", "a.4", "a.5", "a.6",
    ]);
    let ids = derive_export_names(&files);
    assert_eq!(
        ids,
        strings(&["A", "A2", "A3", "A4", "A5", "A6", "A7", "A8", "A9", "A10", "A11"])
    );
    for i in 0..ids.len() {
        for j in 0..i {
            assert_ne!(ids[i], ids[j]);
        }
    }
}

#[test]
fn different_bases_count_apart() {
    let files = strings(&["a.svg", "b.svg", "a.png", "b.png", "c.png"]);
    assert_eq!(derive_export_names(&files), strings(&["A", "B", "A2", "B2", "C"]));
    assert!(derive_export_names(&Vec::new()).is_empty());
    let line: String = export_line_of("A2", "a.png").into_iter().collect();
    assert_eq!(line, "export { default as A2 } from \"./a.png\";");
}

#[test]
fn derived_name_derives_to_itself() {
    for stem in ["icon", "Icon", "my icon", "x1", "", " ", "éa"] {
        let once = make_component_name(stem);
        assert_eq!(make_component_name(&once), once, "{:?}", stem);
    }
    assert_eq!(make_component_name("x9"), "X9");
    assert!(!make_component_name(" -a- ").is_empty());
    assert!(make_component_name(" - ").is_empty());
    let piece: Vec<char> = "éa".chars().collect();
    let cap: String = capitalize(&piece).into_iter().collect();
    assert_eq!(cap, "Éa");
}

#[test]
fn existing_file_is_skipped_unless_forced() {
    assert_eq!(decide(true, false, false, true), FileAction::Skip);
    assert_eq!(decide(true, false, true, true), FileAction::Skip);
    assert_eq!(decide(true, true, false, true), FileAction::Write { move_original: true });
    assert_eq!(decide(false, false, false, false), FileAction::Write { move_original: false });
}

#[test]
fn dry_run_never_writes() {
    for exists in [false, true] {
        for force in [false, true] {
            for moving in [false, true] {
                let action = decide(exists, force, true, moving);
                assert!(action == FileAction::Skip || action == FileAction::Report);
            }
        }
    }
    assert_eq!(decide(false, false, true, true), FileAction::Report);
    assert_eq!(decide(true, true, true, true), FileAction::Report);
}

#[test]
fn no_matching_files_means_no_barrel() {
    assert!(matches!(plan_export(&Vec::new(), false), ExportOutcome::NothingFound));
    assert!(matches!(plan_export(&Vec::new(), true), ExportOutcome::NothingFound));
    assert_eq!(
        next_stage(Stage::Scanning, Event::Scanned { count: 0 }, false),
        Stage::Done
    );
    let none = select_entries(&strings(&["a.png", "b.txt"]), &strings(&[".svg"]));
    assert!(matches!(plan_export(&none, false), ExportOutcome::NothingFound));
}

#[test]
fn export_is_written_or_reported() {
    let files = strings(&["a.svg"]);
    assert!(matches!(plan_export(&files, true), ExportOutcome::Report));
    match plan_export(&files, false) {
        ExportOutcome::Write(text) => {
            assert_eq!(text, "export { default as A } from \"./a.svg\";\n")
        }
        _ => panic!("a barrel file is due"),
    }
}

#[test]
fn stages_follow_each_other() {
    let mut stage = next_stage(Stage::Scanning, Event::Scanned { count: 2 }, false);
    assert_eq!(stage, Stage::PerFile { index: 0, count: 2 });
    stage = next_stage(stage, Event::FileHandled, false);
    assert_eq!(stage, Stage::PerFile { index: 1, count: 2 });
    stage = next_stage(stage, Event::FileHandled, false);
    assert_eq!(stage, Stage::Aggregating);
    stage = next_stage(stage, Event::Aggregated, false);
    assert_eq!(stage, Stage::Done);
    assert_eq!(next_stage(stage, Event::FileHandled, false), Stage::Done);
    let dry = next_stage(Stage::PerFile { index: 0, count: 1 }, Event::FileHandled, true);
    assert_eq!(dry, Stage::Done);
    assert_eq!(next_stage(Stage::Scanning, Event::FileHandled, false), Stage::Scanning);
    assert_eq!(next_stage(Stage::Aggregating, Event::FileHandled, false), Stage::Aggregating);
}

#[test]
fn conversion_arguments() {
    let parsed = parse_args(&strings(&["icons", "--ext=.svg, .SVGZ ,", "--dry-run", "--no-move"]));
    match convert_request(&parsed) {
        ConvertRequest::Run(plan) => {
            assert_eq!(plan.directory, "icons");
            assert_eq!(plan.extensions, strings(&[".svg", ".SVGZ", ""]));
            assert!(plan.dry_run);
            assert!(!plan.force);
            assert!(!plan.move_originals);
        }
        _ => panic!("a conversion was asked for"),
    }
    match convert_request(&parse_args(&strings(&["icons", "--force"]))) {
        ConvertRequest::Run(plan) => {
            assert_eq!(plan.extensions, strings(&[".svg"]));
            assert!(plan.force);
            assert!(plan.move_originals);
            assert!(!plan.dry_run);
        }
        _ => panic!("a conversion was asked for"),
    }
    assert!(matches!(
        convert_request(&parse_args(&strings(&["--force"]))),
        ConvertRequest::MissingDirectory
    ));
    assert!(matches!(
        convert_request(&parse_args(&strings(&["icons", "--help"]))),
        ConvertRequest::Help
    ));
    assert!(matches!(convert_request(&parse_args(&strings(&["--help"]))), ConvertRequest::Help));
}

#[test]
fn export_arguments() {
    let defaults = strings(&[".svg", ".png"]);
    match export_request(&parse_args(&strings(&["icons", "index.ts"])), &defaults) {
        ExportRequest::Run(plan) => {
            assert_eq!(plan.directory, "icons");
            assert_eq!(plan.output_file, "index.ts");
            assert_eq!(plan.extensions, defaults);
            assert!(!plan.dry_run);
        }
        _ => panic!("an export was asked for"),
    }
    match export_request(
        &parse_args(&strings(&["icons", "index.ts", "--ext", "gif", "--dry-run"])),
        &defaults,
    ) {
        ExportRequest::Run(plan) => {
            assert_eq!(plan.extensions, strings(&["gif"]));
            assert!(plan.dry_run);
        }
        _ => panic!("an export was asked for"),
    }
    assert!(matches!(
        export_request(&parse_args(&strings(&["icons"])), &defaults),
        ExportRequest::MissingArguments
    ));
    assert!(matches!(
        export_request(&parse_args(&strings(&[])), &defaults),
        ExportRequest::MissingArguments
    ));
    assert!(matches!(
        export_request(&parse_args(&strings(&["--help"])), &defaults),
        ExportRequest::Help
    ));
}

#[test]
fn extension_list_is_split_at_commas() {
    let defaults = strings(&[".svg"]);
    assert_eq!(extensions_to_include("", &defaults), defaults);
    assert_eq!(extensions_to_include("a", &defaults), strings(&["a"]));
    assert_eq!(extensions_to_include(" a , b ", &defaults), strings(&["a", "b"]));
    assert_eq!(extensions_to_include(",", &defaults), strings(&["", ""]));
    assert_eq!(extensions_to_include(" ", &defaults), strings(&[""]));
}
