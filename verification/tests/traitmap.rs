use zc::traitmap::{get, parse_tsv, render_tsv, rows_to_map};

#[test]
fn deduplicates_rows_and_keeps_first_trait_on_key_collision() {
    let rows = vec![
        ("Widget".into(), "item".into(), "a::First".into()),
        ("Widget".into(), "item".into(), "a::First".into()),
        ("Widget".into(), "item".into(), "z::Second".into()),
    ];

    let map = rows_to_map(&rows);
    assert_eq!(map.len(), 1);
    assert_eq!(get(&map, "Widget", "item").as_deref(), Some("a::First"));
}

#[test]
fn parses_bash_compatible_three_column_tsv() {
    let map = parse_tsv("Widget\titem\ta::First\nWidget\titem\tz::Second\n");
    assert_eq!(get(&map, "Widget", "item").as_deref(), Some("a::First"));
}

#[test]
fn trait_rows_render_as_three_columns() {
    let rows = vec![("Widget".to_string(), "fmt".to_string(), "core::fmt::Display".to_string())];
    assert_eq!(render_tsv(&rows), "Widget\tfmt\tcore::fmt::Display\n");
    assert!(get(&parse_tsv("only\ttwo\n"), "only", "two").is_none());
}

#[test]
fn the_cached_trait_map_is_the_one_built_from_the_rows() {
    let rows = vec![
        ("Widget".to_string(), "fmt".to_string(), "core::fmt::Display".to_string()),
        ("Widget".to_string(), "fmt".to_string(), "core::fmt::Debug".to_string()),
        ("Widget".to_string(), "fmt".to_string(), "core::fmt::Display".to_string()),
        ("Gadget".to_string(), "new".to_string(), "demo::Make".to_string()),
    ];
    assert_eq!(parse_tsv(&render_tsv(&rows)), rows_to_map(&rows));
}
