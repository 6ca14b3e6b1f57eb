use zc::values::{base64, compare, parse_tsv, render_tsv, tsv_escape, DocRow, IndexRow, ValueRow};

#[test]
fn compares_only_shared_items_in_head_order_and_uses_base_type() {
    let base = vec![
        IndexRow::Value(ValueRow {
            crate_name: "demo".into(),
            path: "demo::A".into(),
            ty: "OldA".into(),
            value: "1".into(),
        }),
        IndexRow::Value(ValueRow {
            crate_name: "demo".into(),
            path: "demo::B".into(),
            ty: "OldB".into(),
            value: "2".into(),
        }),
        IndexRow::Doc(DocRow {
            crate_name: "demo".into(),
            path: "demo::A".into(),
            docs: "old".into(),
        }),
    ];
    let head = vec![
        IndexRow::Value(ValueRow {
            crate_name: "demo".into(),
            path: "demo::B".into(),
            ty: "NewB".into(),
            value: "20".into(),
        }),
        IndexRow::Value(ValueRow {
            crate_name: "demo".into(),
            path: "demo::ADDED".into(),
            ty: "Added".into(),
            value: "3".into(),
        }),
        IndexRow::Value(ValueRow {
            crate_name: "demo".into(),
            path: "demo::A".into(),
            ty: "NewA".into(),
            value: "10".into(),
        }),
        IndexRow::Doc(DocRow {
            crate_name: "demo".into(),
            path: "demo::A".into(),
            docs: "new".into(),
        }),
        IndexRow::Doc(DocRow {
            crate_name: "demo".into(),
            path: "demo::ADDED".into(),
            docs: "new item".into(),
        }),
    ];

    let (values, docs) = compare(&base, &head);
    assert_eq!(values.len(), 2);
    assert_eq!(values[0].path, "demo::B");
    assert_eq!(values[0].ty, "OldB");
    assert_eq!(values[0].old, "2");
    assert_eq!(values[0].new, "20");
    assert_eq!(values[1].path, "demo::A");
    assert_eq!(values[1].ty, "OldA");
    assert_eq!(docs.len(), 1);
    assert_eq!(docs[0].path, "demo::A");
}

#[test]
fn tsv_round_trip_keeps_escaped_fields() {
    let rows = vec![
        IndexRow::Value(ValueRow {
            crate_name: "demo".into(),
            path: "demo::A".into(),
            ty: "&str".into(),
            value: "a\tb".into(),
        }),
        IndexRow::Doc(DocRow {
            crate_name: "demo".into(),
            path: "demo::A".into(),
            docs: "ZG9j".into(),
        }),
    ];
    let tsv = render_tsv(&rows);
    assert_eq!(tsv, "V\tdemo\tdemo::A\t&str\ta\\tb\nD\tdemo\tdemo::A\tZG9j\n");
    let parsed = parse_tsv(&tsv);
    assert_eq!(parsed.len(), 2);
    assert_eq!(parsed[1], rows[1]);
    assert!(parse_tsv("X\tonly\nV\ttoo\tfew\n").is_empty());
}

#[test]
fn escapes_backslash_first_then_controls() {
    assert_eq!(tsv_escape("a\\b\tc\rd\ne"), "a\\\\b\\tc\\rd\\ne");
}

#[test]
fn base64_pads_the_last_group() {
    assert_eq!(base64(b"first docs"), "Zmlyc3QgZG9jcw==");
    assert_eq!(base64(b"ab"), "YWI=");
    assert_eq!(base64(b"abc"), "YWJj");
    assert_eq!(base64(b""), "");
}

#[test]
fn the_cached_index_gives_back_each_row_with_escaped_fields() {
    let rows = vec![
        IndexRow::Value(ValueRow {
            crate_name: "demo".into(),
            path: "demo::B".into(),
            ty: "&str".into(),
            value: "line\nbreak\r\\".into(),
        }),
        IndexRow::Doc(DocRow { crate_name: "demo".into(), path: "demo::B".into(), docs: "".into() }),
    ];
    let parsed = parse_tsv(&render_tsv(&rows));
    assert_eq!(
        parsed,
        vec![
            IndexRow::Value(ValueRow {
                crate_name: "demo".into(),
                path: "demo::B".into(),
                ty: "&str".into(),
                value: tsv_escape("line\nbreak\r\\"),
            }),
            IndexRow::Doc(DocRow { crate_name: "demo".into(), path: "demo::B".into(), docs: "".into() }),
        ]
    );
}

#[test]
fn base64_gives_four_characters_per_started_group_of_three_bytes() {
    for n in 0..10usize {
        let bytes = vec![0xabu8; n];
        assert_eq!(base64(&bytes).len(), 4 * ((n + 2) / 3), "n = {n}");
    }
    assert_eq!(base64(b"first docs"), "Zmlyc3QgZG9jcw==");
}
