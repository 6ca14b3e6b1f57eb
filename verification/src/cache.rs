//! Cache keys: the short SHA-1 fingerprints that tie cached rustdoc JSON, trait maps and
//! value indexes to the tools and features they were built with, and the file names built
//! from them.

use vstd::prelude::*;

use sha1::{Digest, Sha1};

use crate::model::{underscore, underscored};
use crate::text::{chars_of, ends_with, push_str_chars, string_of};

verus! {

/// The SHA-1 digest of a byte string, as `sha1::Sha1::digest` computes it.
pub uninterp spec fn sha1_digest(bytes: Seq<u8>) -> Seq<u8>;

/// `sha1::Sha1::digest`: the digest depends on the bytes alone and is 20 bytes long (the
/// hasher's output size is `U20`). Nothing else of SHA-1 is stated.
#[verifier::external_body]
fn digest(bytes: &[u8]) -> (r: Vec<u8>)
    ensures
        r@ == sha1_digest(bytes@),
        r@.len() == 20,
{
    Sha1::digest(bytes).to_vec()
}

/// The lowercase hexadecimal digit for `n < 16`.
pub open spec fn hex_digit(n: int) -> char {
    if n < 10 {
        (n + 48) as char
    } else {
        (n + 87) as char
    }
}

/// Bytes as lowercase hexadecimal, two digits per byte, high nibble first.
pub open spec fn hex_lower(b: Seq<u8>) -> Seq<char>
    decreases b.len(),
{
    if b.len() == 0 {
        Seq::empty()
    } else {
        hex_lower(b.drop_last()) + seq![hex_digit(b.last() as int / 16), hex_digit(b.last() as int % 16)]
    }
}

proof fn lemma_hex_len(b: Seq<u8>)
    ensures
        hex_lower(b).len() == 2 * b.len(),
    decreases b.len(),
{
    if b.len() > 0 {
        lemma_hex_len(b.drop_last());
    }
}

/// `hex::encode`: each byte as two lowercase hexadecimal digits, high nibble first, from
/// the table `0123456789abcdef`.
#[verifier::external_body]
fn hex_encode(bytes: &[u8]) -> (r: String)
    ensures
        r@ == hex_lower(bytes@),
{
    hex::encode(bytes)
}

/// The first twelve hexadecimal digits of the SHA-1 digest of `bytes`.
pub open spec fn spec_sha1_short(bytes: Seq<u8>) -> Seq<char> {
    hex_lower(sha1_digest(bytes)).take(12)
}

/// The first twelve lowercase hexadecimal digits of the SHA-1 digest of `bytes`.
pub fn sha1_short(bytes: &[u8]) -> (r: String)
    ensures
        r@ == spec_sha1_short(bytes@),
{
    let d = digest(bytes);
    let h = hex_encode(d.as_slice());
    proof {
        lemma_hex_len(d@);
    }
    let cs = chars_of(h.as_str());
    let short = crate::text::slice_chars(&cs, 0, 12);
    assert(short@ =~= hex_lower(sha1_digest(bytes@)).take(12));
    string_of(&short)
}

/// The lines a rustdoc-JSON fingerprint is made of: the cargo-public-api version, the
/// rustc version, then each feature argument, or one empty line when there is none.
pub open spec fn fingerprint_lines(api_version: Seq<char>, rustc_version: Seq<char>, features: Seq<Seq<char>>) -> Seq<
    Seq<char>,
> {
    seq![api_version, rustc_version] + if features.len() == 0 {
        seq![Seq::<char>::empty()]
    } else {
        features
    }
}

/// Lines as UTF-8 bytes, each ended by a newline.
pub open spec fn line_bytes(lines: Seq<Seq<char>>) -> Seq<u8>
    decreases lines.len(),
{
    if lines.len() == 0 {
        Seq::empty()
    } else {
        line_bytes(lines.drop_last()) + vstd::utf8::encode_utf8(lines.last()) + seq![10u8]
    }
}

/// Appends `value` and a newline to a fingerprint.
pub fn append_fingerprint_line(fingerprint: &mut Vec<u8>, value: &str)
    ensures
        final(fingerprint)@ == old(fingerprint)@ + vstd::utf8::encode_utf8(value@) + seq![10u8],
{
    let bytes = value.as_bytes();
    let ghost start = fingerprint@;
    let mut i: usize = 0;
    while i < bytes.len()
        invariant
            i <= bytes@.len(),
            bytes@ == vstd::utf8::encode_utf8(value@),
            fingerprint@ == start + bytes@.take(i as int),
        decreases bytes.len() - i,
    {
        fingerprint.push(bytes[i]);
        assert(bytes@.take(i + 1) =~= bytes@.take(i as int).push(bytes@[i as int]));
        i += 1;
    }
    assert(bytes@.take(bytes@.len() as int) =~= bytes@);
    fingerprint.push(10u8);
}

/// The bytes the rustdoc-JSON fingerprint hashes.
pub fn fingerprint(api_version: &str, rustc_version: &str, feature_args: &Vec<String>) -> (r: Vec<u8>)
    ensures
        r@ == line_bytes(
            fingerprint_lines(api_version@, rustc_version@, crate::api::sviews(feature_args@)),
        ),
{
    let ghost fs = crate::api::sviews(feature_args@);
    let mut out: Vec<u8> = Vec::new();
    append_fingerprint_line(&mut out, api_version);
    append_fingerprint_line(&mut out, rustc_version);
    assert(seq![api_version@, rustc_version@].drop_last() =~= seq![api_version@]);
    assert(seq![api_version@].drop_last() =~= Seq::<Seq<char>>::empty());
    assert(seq![api_version@].last() == api_version@);
    assert(seq![api_version@, rustc_version@].last() == rustc_version@);
    assert(line_bytes(Seq::<Seq<char>>::empty()) == Seq::<u8>::empty());
    assert(line_bytes(seq![api_version@]) == line_bytes(Seq::<Seq<char>>::empty()) + vstd::utf8::encode_utf8(api_version@) + seq![10u8]);
    assert(line_bytes(seq![api_version@]) =~= vstd::utf8::encode_utf8(api_version@) + seq![10u8]);
    assert(out@ =~= line_bytes(seq![api_version@, rustc_version@]));
    if feature_args.len() == 0 {
        proof {
            reveal_strlit("");
        }
        append_fingerprint_line(&mut out, "");
        assert(seq![api_version@, rustc_version@] + seq![Seq::<char>::empty()] =~= seq![
            api_version@,
            rustc_version@,
            Seq::<char>::empty(),
        ]);
        assert(seq![api_version@, rustc_version@, Seq::<char>::empty()].drop_last() =~= seq![
            api_version@,
            rustc_version@,
        ]);
    } else {
        let ghost head = seq![api_version@, rustc_version@];
        let mut i: usize = 0;
        while i < feature_args.len()
            invariant
                i <= feature_args.len(),
                fs == crate::api::sviews(feature_args@),
                head == seq![api_version@, rustc_version@],
                out@ == line_bytes(head + fs.take(i as int)),
            decreases feature_args.len() - i,
        {
            assert((head + fs.take(i + 1)).drop_last() =~= head + fs.take(i as int));
            assert((head + fs.take(i + 1)).last() == feature_args@[i as int]@);
            append_fingerprint_line(&mut out, feature_args[i].as_str());
            i += 1;
        }
        assert(fs.take(feature_args.len() as int) =~= fs);
    }
    out
}

/// The short fingerprint of the tools and features rustdoc JSON is built with.
pub fn api_fingerprint(api_version: &str, rustc_version: &str, feature_args: &Vec<String>) -> (r: String)
    ensures
        r@ == spec_sha1_short(
            line_bytes(fingerprint_lines(api_version@, rustc_version@, crate::api::sviews(feature_args@))),
        ),
{
    let bytes = fingerprint(api_version, rustc_version, feature_args);
    sha1_short(bytes.as_slice())
}

/// The short fingerprint of the running program: the hash of its executable when it can
/// be read, else `v` and the version.
pub fn script_hash(executable: Option<&[u8]>, version: &str) -> (r: String)
    ensures
        r@ == match executable {
            Some(b) => spec_sha1_short(b@),
            None => "v"@ + version@,
        },
{
    match executable {
        Some(b) => sha1_short(b),
        None => {
            let mut l = chars_of("v");
            push_str_chars(&mut l, version);
            string_of(&l)
        },
    }
}

/// The cache name of a crate's rustdoc JSON at a ref.
pub fn api_json_name(ref_sha: &str, api_fp: &str, crate_name: &str) -> (r: String)
    ensures
        r@ == ref_sha@ + "."@ + api_fp@ + "."@ + crate_name@ + ".api.json"@,
{
    let mut l = chars_of(ref_sha);
    push_str_chars(&mut l, ".");
    push_str_chars(&mut l, api_fp);
    push_str_chars(&mut l, ".");
    push_str_chars(&mut l, crate_name);
    push_str_chars(&mut l, ".api.json");
    string_of(&l)
}

/// The cache name of a crate's trait map at a ref.
pub fn traitmap_name(ref_sha: &str, script_hash: &str, crate_name: &str) -> (r: String)
    ensures
        r@ == ref_sha@ + "."@ + script_hash@ + "."@ + crate_name@ + ".traitmap.tsv"@,
{
    let mut l = chars_of(ref_sha);
    push_str_chars(&mut l, ".");
    push_str_chars(&mut l, script_hash);
    push_str_chars(&mut l, ".");
    push_str_chars(&mut l, crate_name);
    push_str_chars(&mut l, ".traitmap.tsv");
    string_of(&l)
}

/// The cache name of a ref's value and doc index.
pub fn values_name(ref_sha: &str, script_hash: &str) -> (r: String)
    ensures
        r@ == ref_sha@ + "."@ + script_hash@ + ".values.tsv"@,
{
    let mut l = chars_of(ref_sha);
    push_str_chars(&mut l, ".");
    push_str_chars(&mut l, script_hash);
    push_str_chars(&mut l, ".values.tsv");
    string_of(&l)
}

/// Whether a cache entry is rustdoc JSON, the kind that expires.
pub fn is_api_json(name: &str) -> (r: bool)
    ensures
        r == ends_with(name@, ".api.json"@),
{
    crate::text::has_suffix(&chars_of(name), &chars_of(".api.json"))
}

/// The file rustdoc writes a crate's JSON to: its name with `_` for `-`, then `.json`.
pub fn rustdoc_json_file(crate_name: &str) -> (r: String)
    ensures
        r@ == underscored(crate_name@) + ".json"@,
{
    let u = underscore(crate_name);
    let mut l = chars_of(u.as_str());
    push_str_chars(&mut l, ".json");
    string_of(&l)
}

} // verus!
