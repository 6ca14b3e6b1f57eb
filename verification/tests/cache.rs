use zc::cache::{
    api_fingerprint, api_json_name, append_fingerprint_line, fingerprint, is_api_json,
    rustdoc_json_file, script_hash, sha1_short, traitmap_name, values_name,
};

#[test]
fn sha1_is_lowercase_and_truncated_to_twelve_hex_digits() {
    assert_eq!(sha1_short(b""), "da39a3ee5e6b");
    assert_eq!(sha1_short(b"abc"), "a9993e364706");
}

#[test]
fn fingerprint_lines_end_with_newlines_and_stand_in_for_no_features() {
    assert_eq!(fingerprint("0.40.0", "rustc 1.80", &Vec::new()), b"0.40.0\nrustc 1.80\n\n".to_vec());
    assert_eq!(
        fingerprint("0.40.0", "rustc 1.80", &vec!["--all-features".to_string()]),
        b"0.40.0\nrustc 1.80\n--all-features\n".to_vec()
    );
    let mut fp = b"a\n".to_vec();
    append_fingerprint_line(&mut fp, "é");
    assert_eq!(fp, "a\né\n".as_bytes().to_vec());
}

#[test]
fn the_api_fingerprint_hashes_the_fingerprint_lines() {
    let features = vec!["--all-features".to_string()];
    assert_eq!(
        api_fingerprint("0.40.0", "rustc 1.80", &features),
        sha1_short(b"0.40.0\nrustc 1.80\n--all-features\n")
    );
    assert_eq!(api_fingerprint("x", "y", &features).len(), 12);
}

#[test]
fn the_script_hash_falls_back_to_the_version() {
    assert_eq!(script_hash(None, "0.1.0"), "v0.1.0");
    assert_eq!(script_hash(Some(b"abc"), "0.1.0"), "a9993e364706");
}

#[test]
fn cache_names_join_sha_fingerprint_and_crate() {
    assert_eq!(api_json_name("abc", "fp", "my-crate"), "abc.fp.my-crate.api.json");
    assert_eq!(traitmap_name("abc", "sh", "my-crate"), "abc.sh.my-crate.traitmap.tsv");
    assert_eq!(values_name("abc", "sh"), "abc.sh.values.tsv");
    assert!(is_api_json("abc.fp.c.api.json"));
    assert!(!is_api_json("abc.sh.values.tsv"));
    assert_eq!(rustdoc_json_file("my-crate"), "my_crate.json");
}
