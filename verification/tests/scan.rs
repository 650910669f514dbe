use cozyutils::chars::{capital_of, chars_of, is_space_char, lowered_of, string_of};
use cozyutils::scan::{
    comes_first, has_matching_extension, normalize_extension, normalize_extensions,
    select_entries, sort_texts,
};

fn strings(items: &[&str]) -> Vec<String> {
    items.iter().map(|s| s.to_string()).collect()
}

fn cs(s: &str) -> Vec<char> {
    s.chars().collect()
}

#[test]
fn extension_forms_agree() {
    for entry in ["svg", ".svg", "SVG", ".SVG", " .Svg ", "\tsVg\n"] {
        assert_eq!(normalize_extension(entry).unwrap(), ".svg", "{:?}", entry);
    }
}

#[test]
fn empty_entries_have_no_form() {
    assert!(normalize_extension("").is_none());
    assert!(normalize_extension("   ").is_none());
    assert!(normalize_extension("\u{a0}").is_none());
}

#[test]
fn extension_above_ascii_goes_through_the_tables() {
    assert_eq!(normalize_extension("ÄB").unwrap(), ".äb");
    assert_eq!(normalize_extension(".ÄB").unwrap(), ".äb");
}

#[test]
fn filter_is_normalized_in_order() {
    let filter = strings(&["PNG", " ", ".svg", "", "Jpg "]);
    assert_eq!(normalize_extensions(&filter), strings(&[".png", ".svg", ".jpg"]));
    assert!(normalize_extensions(&[]).is_empty());
}

#[test]
fn matching_lowers_the_name() {
    let exts = strings(&[".svg", ".png"]);
    assert!(has_matching_extension("Icon.SVG", &exts));
    assert!(has_matching_extension("a.png", &exts));
    assert!(!has_matching_extension("a.jpg", &exts));
    assert!(!has_matching_extension("svg", &exts));
    assert!(!has_matching_extension("a.svg", &[]));
    assert!(has_matching_extension("ÄB.ÄB", &strings(&[".äb"])));
}

#[test]
fn matching_takes_the_extensions_as_they_stand() {
    assert!(!has_matching_extension("a.svg", &strings(&[".SVG"])));
}

#[test]
fn scan_filters_and_sorts() {
    let entries = strings(&["b.svg", "a.SVG", "notes.txt", "c.png", "B.svg", "a.svg"]);
    let out = select_entries(&entries, &strings(&["svg"]));
    assert_eq!(out, strings(&["B.svg", "a.SVG", "a.svg", "b.svg"]));
    for name in &out {
        assert!(entries.contains(name));
    }
}

#[test]
fn scan_with_an_empty_filter_keeps_everything() {
    let entries = strings(&["b", "a", "c.txt"]);
    assert_eq!(select_entries(&entries, &[]), strings(&["a", "b", "c.txt"]));
    assert_eq!(select_entries(&entries, &strings(&["", " "])), strings(&["a", "b", "c.txt"]));
}

#[test]
fn scan_of_nothing_is_nothing() {
    assert!(select_entries(&Vec::new(), &strings(&[".svg"])).is_empty());
    assert!(select_entries(&strings(&["a.png"]), &strings(&[".svg"])).is_empty());
}

#[test]
fn order_is_that_of_the_code_points() {
    assert!(comes_first(&cs(""), &cs("")));
    assert!(comes_first(&cs(""), &cs("a")));
    assert!(!comes_first(&cs("a"), &cs("")));
    assert!(comes_first(&cs("a"), &cs("ab")));
    assert!(!comes_first(&cs("ab"), &cs("a")));
    assert!(comes_first(&cs("Z"), &cs("a")));
    assert!(comes_first(&cs("a"), &cs("é")));
    assert!(comes_first(&cs("abc"), &cs("abc")));
    let mut names = strings(&["é", "b", "", "B", "ab", "a", "b"]);
    let items: Vec<Vec<char>> = names.iter().map(|s| cs(s)).collect();
    let sorted: Vec<String> = sort_texts(&items).into_iter().map(|v| v.into_iter().collect()).collect();
    names.sort();
    assert_eq!(sorted, names);
}

#[test]
fn characters_above_ascii_take_the_tables() {
    assert_eq!(string_of(&lowered_of(&cs("ÄB"))), "äb");
    assert_eq!(string_of(&lowered_of(&cs("MiXed-09"))), "mixed-09");
    assert_eq!(capital_of('ß'), vec!['S', 'S']);
    assert_eq!(capital_of('é'), vec!['É']);
    assert_eq!(capital_of('a'), vec!['A']);
    assert_eq!(capital_of('z'), vec!['Z']);
    assert_eq!(capital_of('{'), vec!['{']);
    assert_eq!(capital_of('`'), vec!['`']);
    assert_eq!(capital_of('1'), vec!['1']);
    assert!(is_space_char('\u{a0}'));
    assert!(is_space_char('\u{b}'));
    assert!(is_space_char(' '));
    assert!(is_space_char('\r'));
    assert!(!is_space_char('\u{1c}'));
    assert!(!is_space_char('x'));
    assert!(!is_space_char('é'));
    assert_eq!(chars_of("aé"), vec!['a', 'é']);
}

#[test]
fn ascii_paths_agree_with_the_tables() {
    for code in 0u32..128 {
        let c = char::from_u32(code).unwrap();
        assert_eq!(is_space_char(c), c.is_whitespace(), "{:?}", c);
        assert_eq!(capital_of(c), c.to_uppercase().collect::<Vec<char>>(), "{:?}", c);
        let s = c.to_string();
        assert_eq!(string_of(&lowered_of(&cs(&s))), s.to_lowercase(), "{:?}", c);
    }
}
