use cozyutils::export::{barrel_of, decimal_of, derive_export_names};
use cozyutils::naming::{make_component_name, stem_of};

#[test]
fn component_names_of_dashed_stems() {
    assert_eq!(make_component_name("icon-one"), "IconOne");
    assert_eq!(make_component_name("icon-two"), "IconTwo");
    assert_eq!(make_component_name("my icon"), "Myicon");
    assert_eq!(make_component_name("a--b-"), "AB");
    assert_eq!(make_component_name(""), "");
    assert_eq!(make_component_name("ßa"), "SSa");
}

#[test]
fn stem_stops_at_the_first_dot() {
    assert_eq!(stem_of("a.b.c"), "a");
    assert_eq!(stem_of("abc"), "abc");
    assert_eq!(stem_of(".hidden"), "");
}

#[test]
fn barrel_of_two_components() {
    let files = vec!["IconOne.tsx".to_string(), "IconTwo.tsx".to_string()];
    assert_eq!(
        barrel_of(&files),
        "export { default as IconOne } from \"./IconOne.tsx\";\nexport { default as IconTwo } from \"./IconTwo.tsx\";\n"
    );
}

#[test]
fn same_base_gets_a_number() {
    let files = vec!["Card.svg".to_string(), "card.svg".to_string()];
    assert_eq!(derive_export_names(&files), vec!["Card", "Card2"]);
}

#[test]
fn decimal_digits() {
    let s: String = decimal_of(0).into_iter().collect();
    assert_eq!(s, "0");
    let s: String = decimal_of(1203).into_iter().collect();
    assert_eq!(s, "1203");
}
