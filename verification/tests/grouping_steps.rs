use zc::changelog::{
    choose_path, drop_crate_prefix, drop_empty_lists, group_of_path, is_proptest_item, last_segment,
    outer_generics, truncate_item,
};
use zc::group::{
    choose_key, declared_kind_word, group, kind_by_case, member_kind_word, next_rewrite, trim_key,
};
use zc::model::{GroupMode, Section};

#[test]
fn the_key_comes_from_the_impl_target_the_declaration_or_the_item() {
    assert_eq!(choose_key(true, "Display for crate::Bar", false, "", ""), ("crate::Bar".to_string(), true));
    assert_eq!(choose_key(false, "ignored", true, "crate::Foo", "x"), ("crate::Foo".to_string(), true));
    assert_eq!(choose_key(false, "ignored", false, "", "crate::m::f"), ("crate::m::f".to_string(), false));
}

#[test]
fn a_truncated_key_loses_its_colon_and_a_free_item_its_leaf() {
    assert_eq!(trim_key("crate::Foo:", true), ("crate::Foo".to_string(), false));
    assert_eq!(trim_key("crate::m::f", false), ("crate::m::f".to_string(), true));
    assert_eq!(trim_key("f", false), ("f".to_string(), false));
}

#[test]
fn kinds_follow_the_pattern_answers() {
    assert_eq!(declared_kind_word(true, "pub struct Foo"), Some("struct".to_string()));
    assert_eq!(declared_kind_word(false, "pub struct Foo"), None);
    assert_eq!(member_kind_word("pub x: u8", false), Some("struct".to_string()));
    assert_eq!(member_kind_word("pub A", false), Some("enum".to_string()));
    assert_eq!(member_kind_word("pub fn f()", true), None);
    assert_eq!(member_kind_word("fn x", false), None);
    assert_eq!(kind_by_case(true), "type");
    assert_eq!(kind_by_case(false), "mod");
}

#[test]
fn flat_grouping_gives_no_records() {
    let lines = vec!["pub fn crate::f()".to_string()];
    assert_eq!(group(&lines, Section::Added, GroupMode::Flat, "crate", &Vec::new()), Some(Vec::new()));
}

#[test]
fn changelog_paths_come_from_the_impl_target_the_declaration_or_the_member() {
    assert_eq!(
        choose_path("impl Foo for crate::Bar", "Foo for crate::Bar", false, "", ""),
        ("crate::Bar".to_string(), true)
    );
    assert_eq!(choose_path("pub struct crate::S", "", true, "crate::S", "x"), ("crate::S".to_string(), true));
    assert_eq!(choose_path("pub fn crate::f()", "", false, "", "crate::m::f()"), ("crate::m::f()".to_string(), false));
    assert_eq!(group_of_path("crate::Foo::bar(&self)", false), "crate::Foo");
    assert_eq!(group_of_path("crate::Foo", true), "crate::Foo");
    assert_eq!(truncate_item("crate::X: u8"), "crate::X");
}

#[test]
fn the_crate_prefix_is_removed_everywhere() {
    assert_eq!(drop_crate_prefix("fn f(x: mycrate::A) -> mycrate::B", "mycrate"), "fn f(x: A) -> B");
    assert_eq!(drop_crate_prefix("mycrate::A", ""), "mycrate::A");
}

#[test]
fn proptest_items_are_named_or_matched() {
    assert!(is_proptest_item("pub fn proptest::x()", false, false, false));
    assert!(is_proptest_item("pub fn f()", false, true, false));
    assert!(!is_proptest_item("pub fn f()", false, false, false));
}

#[test]
fn generic_lists_and_segments_are_read_from_the_text() {
    assert_eq!(outer_generics("Vec<Option<T>>::new"), Some("<Option<T>>".to_string()));
    assert_eq!(outer_generics("Vec<T"), Some("<T".to_string()));
    assert_eq!(outer_generics("plain::path"), None);
    assert_eq!(last_segment("a::b::C"), "C");
    assert_eq!(last_segment("C"), "C");
    assert_eq!(drop_empty_lists("<T, <>>"), "<T, >");
}

#[test]
fn a_repeated_rewrite_goes_on_only_while_it_matches_and_shortens() {
    assert_eq!(next_rewrite(true, "Vec<T>", "Vec".to_string()), Some("Vec".to_string()));
    assert_eq!(next_rewrite(false, "Vec<T>", "Vec".to_string()), None);
    assert_eq!(next_rewrite(true, "Vec", "Vec".to_string()), None);
}
