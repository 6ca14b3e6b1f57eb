use zc::lock::{attribution, build_diff, extract_lock};

fn lookup<'a>(via: &'a [(String, String)], name: &str) -> &'a str {
    via.iter()
        .find(|(n, _)| n == name)
        .map(|(_, v)| v.as_str())
        .expect("the crate is attributed")
}

#[test]
fn parser_emits_a_trailing_package_without_a_blank_line() {
    let lock = "version = 3\n\n[[package]]\nname = \"alpha\"\nversion = \"1.0.0\"\n\n[[package]]\nname = \"omega\"\nversion = \"9.0.0\"";

    assert_eq!(
        extract_lock(lock),
        vec![
            ("alpha".to_string(), "1.0.0".to_string()),
            ("omega".to_string(), "9.0.0".to_string()),
        ]
    );
}

#[test]
fn attribution_deduplicates_in_first_seen_order_and_truncates() {
    let direct = vec![
        "first".to_string(),
        "second".to_string(),
        "third".to_string(),
        "fourth".to_string(),
    ];
    let tree = "0root-a v1\n1first v1\n2target v1\n0root-b v1\n1second v1\n2target v1\n0root-c v1\n1first v1\n2target v1\n1third v1\n2target v1\n0root-d v1\n1fourth v1\n2target v1\n";

    let via = attribution(tree, &direct);

    assert_eq!(lookup(&via, "target"), "first,second,third,...(+1)");
}

#[test]
fn lock_diff_groups_versions_and_suppresses_direct_dependencies() {
    let base = vec![
        ("direct".to_string(), "1.0.0".to_string()),
        ("multi".to_string(), "1.0.0".to_string()),
        ("multi".to_string(), "2.0.0".to_string()),
        ("removed".to_string(), "1.0.0".to_string()),
    ];
    let head = vec![
        ("added".to_string(), "1.0.0".to_string()),
        ("direct".to_string(), "2.0.0".to_string()),
        ("multi".to_string(), "2.0.0".to_string()),
        ("multi".to_string(), "3.0.0".to_string()),
    ];
    let direct = vec!["direct".to_string()];

    let result = build_diff(&base, &head, &direct, "");

    assert_eq!(
        result.changed,
        vec![(
            "multi".to_string(),
            "1.0.0,2.0.0".to_string(),
            "2.0.0,3.0.0".to_string(),
        )]
    );
    assert_eq!(
        result.removed,
        vec![("removed".to_string(), "1.0.0".to_string())]
    );
    assert_eq!(
        result.added,
        vec![("added".to_string(), "1.0.0".to_string())]
    );
}

#[test]
fn packages_are_sorted_and_incomplete_blocks_dropped() {
    let lock = "[[package]]\nname = \"zeta\"\nversion = \"1\"\n\n[[package]]\nname = \"alpha\"\n\n[[package]]\nname=\"beta\"\nversion  =  \"2\"\n";
    assert_eq!(
        extract_lock(lock),
        vec![
            ("beta".to_string(), "2".to_string()),
            ("zeta".to_string(), "1".to_string()),
        ]
    );
}

#[test]
fn tree_lines_without_a_depth_or_an_anchor_are_ignored() {
    let direct = vec!["d".to_string()];
    let tree = "0root v1\nx v1\n1orphan v1\n1d v1\n2t v1\n2t v1\n";
    let via = attribution(tree, &direct);
    assert_eq!(via, vec![("t".to_string(), "d".to_string())]);
}
