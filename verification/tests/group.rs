use zc::group::group;
use zc::model::{GroupMode, GroupRecord, Section};

fn lines(lines: &[&str]) -> Vec<String> {
    lines.iter().map(|line| (*line).to_string()).collect()
}

struct Case {
    name: &'static str,
    lines: Vec<String>,
    section: Section,
    mode: GroupMode,
    expected: Vec<GroupRecord>,
}

#[test]
fn groups_public_api_items() {
    let cases = vec![
        Case {
            name: "variant under enum",
            lines: lines(&["pub enum zc_fixture::Color", "pub zc_fixture::Color::Red"]),
            section: Section::Added,
            mode: GroupMode::Mod,
            expected: vec![
                GroupRecord::ModHeader("zc_fixture".to_string()),
                GroupRecord::TypeSub {
                    name: "Color".to_string(),
                    kind: "enum".to_string(),
                },
                GroupRecord::DeepItem("pub enum Color".to_string()),
                GroupRecord::DeepItem("pub Red".to_string()),
            ],
        },
        Case {
            name: "by type keeps type prefix",
            lines: lines(&["pub enum zc_fixture::Color", "pub zc_fixture::Color::Red"]),
            section: Section::Added,
            mode: GroupMode::Type,
            expected: vec![
                GroupRecord::TypeHeader {
                    name: "zc_fixture::Color".to_string(),
                    kind: "enum".to_string(),
                },
                GroupRecord::Item("pub enum Color".to_string()),
                GroupRecord::Item("pub Color::Red".to_string()),
            ],
        },
        Case {
            name: "generic arguments on owner",
            lines: lines(&[
                "pub struct zc_fixture::Wrap<T>",
                "pub fn zc_fixture::Wrap<u32>::get(&self)",
            ]),
            section: Section::Added,
            mode: GroupMode::Mod,
            expected: vec![
                GroupRecord::ModHeader("zc_fixture".to_string()),
                GroupRecord::TypeSub {
                    name: "Wrap".to_string(),
                    kind: "struct".to_string(),
                },
                GroupRecord::DeepItem("pub struct Wrap<T>".to_string()),
                GroupRecord::DeepItem("pub fn get(&self)".to_string()),
            ],
        },
        Case {
            name: "interleaved enum items use one header",
            lines: lines(&[
                "pub enum zc_fixture::E",
                "pub zc_fixture::E::A",
                "pub zc_fixture::E::A::x: u32",
                "pub zc_fixture::E::B",
                "pub zc_fixture::E::B::y: u32",
                "pub zc_fixture::E::Other",
            ]),
            section: Section::Added,
            mode: GroupMode::Mod,
            expected: vec![
                GroupRecord::ModHeader("zc_fixture".to_string()),
                GroupRecord::TypeSub {
                    name: "E".to_string(),
                    kind: "enum".to_string(),
                },
                GroupRecord::DeepItem("pub enum E".to_string()),
                GroupRecord::DeepItem("pub A".to_string()),
                GroupRecord::DeepItem("pub B".to_string()),
                GroupRecord::DeepItem("pub Other".to_string()),
                GroupRecord::TypeSub {
                    name: "E::A".to_string(),
                    kind: "struct".to_string(),
                },
                GroupRecord::DeepItem("pub x: u32".to_string()),
                GroupRecord::TypeSub {
                    name: "E::B".to_string(),
                    kind: "struct".to_string(),
                },
                GroupRecord::DeepItem("pub y: u32".to_string()),
            ],
        },
        Case {
            name: "foreign type follows divider",
            lines: lines(&[
                "pub fn dep::Foo::name(&self)",
                "pub fn zc_fixture::Own::go(&self)",
            ]),
            section: Section::Added,
            mode: GroupMode::Mod,
            expected: vec![
                GroupRecord::ModHeader("zc_fixture".to_string()),
                GroupRecord::TypeSub {
                    name: "Own".to_string(),
                    kind: "type".to_string(),
                },
                GroupRecord::DeepItem("pub fn go(&self)".to_string()),
                GroupRecord::ExtDivider,
                GroupRecord::ModHeader("dep".to_string()),
                GroupRecord::TypeSub {
                    name: "Foo".to_string(),
                    kind: "type".to_string(),
                },
                GroupRecord::DeepItem("pub fn name(&self)".to_string()),
            ],
        },
        Case {
            name: "changed key comes from old line",
            lines: lines(&[
                "  - pub fn zc_fixture::Thing::old(&self)",
                "  + pub fn zc_fixture::Renamed::new(&self)",
            ]),
            section: Section::Changed,
            mode: GroupMode::Mod,
            expected: vec![
                GroupRecord::ModHeader("zc_fixture".to_string()),
                GroupRecord::TypeSub {
                    name: "Thing".to_string(),
                    kind: "type".to_string(),
                },
                GroupRecord::DeepItem("  - pub fn old(&self)".to_string()),
                GroupRecord::DeepItem("  + pub fn Renamed::new(&self)".to_string()),
            ],
        },
    ];

    for case in cases {
        assert_eq!(
            group(&case.lines, case.section, case.mode, "zc_fixture", &Vec::new())
                .expect("the grouping patterns compile"),
            case.expected,
            "{}",
            case.name,
        );
    }
}

#[test]
fn flat_mode_groups_nothing() {
    let grouped = group(
        &lines(&["pub fn zc_fixture::f()"]),
        Section::Added,
        GroupMode::Flat,
        "zc_fixture",
        &Vec::new(),
    )
    .expect("the grouping patterns compile");
    assert!(grouped.is_empty());
}

#[test]
fn head_source_kinds_name_types_by_their_last_segment() {
    let grouped = group(
        &lines(&["pub fn zc_fixture::Thing::go(&self)"]),
        Section::Added,
        GroupMode::Type,
        "zc_fixture",
        &vec![("Thing".to_string(), "trait".to_string())],
    )
    .expect("the grouping patterns compile");
    assert_eq!(
        grouped,
        vec![
            GroupRecord::TypeHeader {
                name: "zc_fixture::Thing".to_string(),
                kind: "trait".to_string(),
            },
            GroupRecord::Item("pub fn Thing::go(&self)".to_string()),
        ]
    );
}

#[test]
fn attributes_and_lowercase_module_items_group_under_the_module() {
    let grouped = group(
        &lines(&[
            "#[non_exhaustive] pub struct zc_fixture::inner::S",
            "pub mod zc_fixture::inner",
            "pub fn zc_fixture::inner::free()",
        ]),
        Section::Added,
        GroupMode::Mod,
        "zc_fixture",
        &Vec::new(),
    )
    .expect("the grouping patterns compile");
    assert_eq!(
        grouped,
        vec![
            GroupRecord::ModHeader("zc_fixture::inner".to_string()),
            GroupRecord::TypeSub {
                name: "S".to_string(),
                kind: "struct".to_string(),
            },
            GroupRecord::DeepItem("#[non_exhaustive] pub struct S".to_string()),
            GroupRecord::Item("pub mod inner".to_string()),
            GroupRecord::Item("pub fn free()".to_string()),
        ]
    );
}

#[test]
fn grouping_lists_every_non_blank_line_once() {
    let input = lines(&[
        "pub enum zc_fixture::Color",
        "",
        "pub zc_fixture::Color::Red",
        "pub fn zc_fixture::inner::helper()",
        "   ",
        "impl core::fmt::Display for other::Thing",
        "pub mod zc_fixture::inner",
    ]);
    for mode in [GroupMode::Mod, GroupMode::Type] {
        let records = group(&input, Section::Added, mode, "zc_fixture", &Vec::new()).expect("patterns compile");
        let items = records
            .iter()
            .filter(|r| matches!(r, GroupRecord::Item(_) | GroupRecord::DeepItem(_)))
            .count();
        assert_eq!(items, 5);
    }
}
