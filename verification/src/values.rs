//! Public constant, static and documentation diffs: the rows read from rustdoc JSON at each
//! ref, their TSV cache, and the comparison in head order.

use vstd::prelude::*;

use crate::api::sviews;
use crate::json_value::{
    elements, entries, field_exec, get_exec, json_text, lookup, lookup_exec, non_null, plain_text,
    plain_text_exec, text, Json,
};
use crate::model::{DocChange, ValueChange};
use crate::text::{
    chars_of, extend_chars, lines, lines_chars, push_str_chars, replace_all, replace_chars, split,
    split_chars, str_eq, string_of,
};

verus! {

/// A public constant or static: crate, path, type and value text.
#[derive(Clone, Debug, PartialEq, Eq)]
pub struct ValueRow {
    pub crate_name: String,
    pub path: String,
    pub ty: String,
    pub value: String,
}

/// A public item's documentation, base64-encoded.
#[derive(Clone, Debug, PartialEq, Eq)]
pub struct DocRow {
    pub crate_name: String,
    pub path: String,
    pub docs: String,
}

/// One row of the value and documentation index.
#[derive(Clone, Debug, PartialEq, Eq)]
pub enum IndexRow {
    Value(ValueRow),
    Doc(DocRow),
}

/// An index row as plain values.
pub enum RowView {
    Value(Seq<char>, Seq<char>, Seq<char>, Seq<char>),
    Doc(Seq<char>, Seq<char>, Seq<char>),
}

impl View for IndexRow {
    type V = RowView;

    open spec fn view(&self) -> RowView {
        match self {
            IndexRow::Value(r) => RowView::Value(r.crate_name@, r.path@, r.ty@, r.value@),
            IndexRow::Doc(r) => RowView::Doc(r.crate_name@, r.path@, r.docs@),
        }
    }
}

/// The plain values of index rows.
pub open spec fn row_views(v: Seq<IndexRow>) -> Seq<RowView> {
    v.map_values(|r: IndexRow| r@)
}

/// The baseline (type, value) of a crate's path (a later row replaces an earlier one).
pub open spec fn base_value(base: Seq<RowView>, c: Seq<char>, p: Seq<char>) -> Option<
    (Seq<char>, Seq<char>),
>
    decreases base.len(),
{
    if base.len() == 0 {
        None
    } else {
        match base.last() {
            RowView::Value(bc, bp, ty, v) => if bc == c && bp == p {
                Some((ty, v))
            } else {
                base_value(base.drop_last(), c, p)
            },
            RowView::Doc(..) => base_value(base.drop_last(), c, p),
        }
    }
}

/// The baseline documentation of a crate's path (a later row replaces an earlier one).
pub open spec fn base_doc(base: Seq<RowView>, c: Seq<char>, p: Seq<char>) -> Option<Seq<char>>
    decreases base.len(),
{
    if base.len() == 0 {
        None
    } else {
        match base.last() {
            RowView::Doc(bc, bp, d) => if bc == c && bp == p {
                Some(d)
            } else {
                base_doc(base.drop_last(), c, p)
            },
            RowView::Value(..) => base_doc(base.drop_last(), c, p),
        }
    }
}

/// A value change as plain values: crate, path, type, old and new value.
pub type ChangeView = (Seq<char>, Seq<char>, Seq<char>, Seq<char>, Seq<char>);

/// The value changes: head values also in the baseline with a different value, in head
/// order, with the baseline's type.
pub open spec fn value_changes(base: Seq<RowView>, head: Seq<RowView>) -> Seq<ChangeView>
    decreases head.len(),
{
    if head.len() == 0 {
        Seq::empty()
    } else {
        value_changes(base, head.drop_last()) + match head.last() {
            RowView::Value(c, p, _ty, v) => match base_value(base, c, p) {
                Some((ty, old)) => if old != v {
                    seq![(c, p, ty, old, v)]
                } else {
                    Seq::empty()
                },
                None => Seq::empty(),
            },
            RowView::Doc(..) => Seq::empty(),
        }
    }
}

/// The documentation changes: head docs also in the baseline with different text, in head
/// order.
pub open spec fn doc_changes(base: Seq<RowView>, head: Seq<RowView>) -> Seq<(Seq<char>, Seq<char>)>
    decreases head.len(),
{
    if head.len() == 0 {
        Seq::empty()
    } else {
        doc_changes(base, head.drop_last()) + match head.last() {
            RowView::Doc(c, p, d) => match base_doc(base, c, p) {
                Some(old) => if old != d {
                    seq![(c, p)]
                } else {
                    Seq::empty()
                },
                None => Seq::empty(),
            },
            RowView::Value(..) => Seq::empty(),
        }
    }
}

/// The plain values of value changes.
pub open spec fn change_views(v: Seq<ValueChange>) -> Seq<ChangeView> {
    v.map_values(|c: ValueChange| (c.crate_name@, c.path@, c.ty@, c.old@, c.new@))
}

/// The plain values of documentation changes.
pub open spec fn doc_views(v: Seq<DocChange>) -> Seq<(Seq<char>, Seq<char>)> {
    v.map_values(|c: DocChange| (c.crate_name@, c.path@))
}

fn find_base_value(base: &Vec<IndexRow>, c: &str, p: &str) -> (r: Option<(String, String)>)
    ensures
        match r {
            Some(x) => base_value(row_views(base@), c@, p@) == Some((x.0@, x.1@)),
            None => base_value(row_views(base@), c@, p@) is None,
        },
{
    let ghost bv = row_views(base@);
    let mut i: usize = base.len();
    assert(bv.take(i as int) =~= bv);
    while i > 0
        invariant
            i <= base.len(),
            bv == row_views(base@),
            base_value(bv, c@, p@) == base_value(bv.take(i as int), c@, p@),
        decreases i,
    {
        assert(bv.take(i as int).last() == bv[i - 1]);
        assert(bv.take(i as int).drop_last() =~= bv.take(i - 1));
        match &base[i - 1] {
            IndexRow::Value(r) => {
                if str_eq(r.crate_name.as_str(), c) && str_eq(r.path.as_str(), p) {
                    return Some((r.ty.clone(), r.value.clone()));
                }
            },
            IndexRow::Doc(_) => {},
        }
        i -= 1;
    }
    None
}

fn find_base_doc(base: &Vec<IndexRow>, c: &str, p: &str) -> (r: Option<String>)
    ensures
        match r {
            Some(x) => base_doc(row_views(base@), c@, p@) == Some(x@),
            None => base_doc(row_views(base@), c@, p@) is None,
        },
{
    let ghost bv = row_views(base@);
    let mut i: usize = base.len();
    assert(bv.take(i as int) =~= bv);
    while i > 0
        invariant
            i <= base.len(),
            bv == row_views(base@),
            base_doc(bv, c@, p@) == base_doc(bv.take(i as int), c@, p@),
        decreases i,
    {
        assert(bv.take(i as int).last() == bv[i - 1]);
        assert(bv.take(i as int).drop_last() =~= bv.take(i - 1));
        match &base[i - 1] {
            IndexRow::Doc(r) => {
                if str_eq(r.crate_name.as_str(), c) && str_eq(r.path.as_str(), p) {
                    return Some(r.docs.clone());
                }
            },
            IndexRow::Value(_) => {},
        }
        i -= 1;
    }
    None
}

/// Compares the baseline and head rows: the value and documentation changes of the items
/// present at both refs, in head order, each value change with the baseline's type.
pub fn compare(base: &Vec<IndexRow>, head: &Vec<IndexRow>) -> (r: (Vec<ValueChange>, Vec<DocChange>))
    ensures
        change_views(r.0@) == value_changes(row_views(base@), row_views(head@)),
        doc_views(r.1@) == doc_changes(row_views(base@), row_views(head@)),
{
    let ghost bv = row_views(base@);
    let ghost hv = row_views(head@);
    let mut values: Vec<ValueChange> = Vec::new();
    let mut docs: Vec<DocChange> = Vec::new();
    let mut i: usize = 0;
    assert(change_views(values@) =~= value_changes(bv, hv.take(0)));
    assert(doc_views(docs@) =~= doc_changes(bv, hv.take(0)));
    while i < head.len()
        invariant
            i <= head.len(),
            bv == row_views(base@),
            hv == row_views(head@),
            change_views(values@) == value_changes(bv, hv.take(i as int)),
            doc_views(docs@) == doc_changes(bv, hv.take(i as int)),
        decreases head.len() - i,
    {
        assert(hv.take(i + 1).drop_last() =~= hv.take(i as int));
        assert(hv.take(i + 1).last() == hv[i as int]);
        let ghost v0 = change_views(values@);
        let ghost d0 = doc_views(docs@);
        match &head[i] {
            IndexRow::Value(r) => {
                match find_base_value(base, r.crate_name.as_str(), r.path.as_str()) {
                    Some((ty, old)) => {
                        if !str_eq(old.as_str(), r.value.as_str()) {
                            let ghost before = values@;
                            values.push(
                                ValueChange {
                                    crate_name: r.crate_name.clone(),
                                    path: r.path.clone(),
                                    ty,
                                    old,
                                    new: r.value.clone(),
                                },
                            );
                            assert(change_views(values@) =~= change_views(before).push(
                                change_views(values@).last(),
                            ));
                        }
                    },
                    None => {},
                }
                assert(doc_views(docs@) =~= d0 + Seq::<(Seq<char>, Seq<char>)>::empty());
            },
            IndexRow::Doc(r) => {
                match find_base_doc(base, r.crate_name.as_str(), r.path.as_str()) {
                    Some(old) => {
                        if !str_eq(old.as_str(), r.docs.as_str()) {
                            let ghost before = docs@;
                            docs.push(DocChange { crate_name: r.crate_name.clone(), path: r.path.clone() });
                            assert(doc_views(docs@) =~= doc_views(before).push((r.crate_name@, r.path@)));
                        }
                    },
                    None => {},
                }
                assert(change_views(values@) =~= v0 + Seq::<ChangeView>::empty());
            },
        }
        assert(change_views(values@) =~= value_changes(bv, hv.take(i + 1)));
        assert(doc_views(docs@) =~= doc_changes(bv, hv.take(i + 1)));
        i += 1;
    }
    assert(hv.take(head.len() as int) =~= hv);
    (values, docs)
}

/// A TSV field: backslash, tab, carriage return and newline escaped, in that order.
pub open spec fn spec_tsv_escape(v: Seq<char>) -> Seq<char> {
    replace_all(
        replace_all(replace_all(replace_all(v, "\\"@, "\\\\"@), "\t"@, "\\t"@), "\r"@, "\\r"@),
        "\n"@,
        "\\n"@,
    )
}

/// Escapes a TSV field.
pub fn tsv_escape(value: &str) -> (r: String)
    ensures
        r@ == spec_tsv_escape(value@),
{
    proof {
        reveal_strlit("\\");
        reveal_strlit("\t");
        reveal_strlit("\r");
        reveal_strlit("\n");
    }
    let a = replace_chars(&chars_of(value), &chars_of("\\"), &chars_of("\\\\"));
    let b = replace_chars(&a, &chars_of("\t"), &chars_of("\\t"));
    let c = replace_chars(&b, &chars_of("\r"), &chars_of("\\r"));
    let d = replace_chars(&c, &chars_of("\n"), &chars_of("\\n"));
    string_of(&d)
}

/// The fields of a row: a `V` or `D` tag, then its columns.
pub open spec fn row_fields(r: RowView) -> Seq<Seq<char>> {
    match r {
        RowView::Value(c, p, t, v) => seq!["V"@, c, p, t, v],
        RowView::Doc(c, p, d) => seq!["D"@, c, p, d],
    }
}

/// Rows as TSV: escaped fields joined by tabs, a newline after each row.
pub open spec fn spec_render_tsv(rows: Seq<RowView>) -> Seq<char>
    decreases rows.len(),
{
    if rows.len() == 0 {
        Seq::empty()
    } else {
        spec_render_tsv(rows.drop_last()) + crate::text::join(
            row_fields(rows.last()).map_values(|f: Seq<char>| spec_tsv_escape(f)),
            "\t"@,
        ) + "\n"@
    }
}

/// Renders the rows as the TSV cache.
pub fn render_tsv(rows: &Vec<IndexRow>) -> (r: String)
    ensures
        r@ == spec_render_tsv(row_views(rows@)),
{
    let ghost rv = row_views(rows@);
    let mut out: Vec<char> = Vec::new();
    let mut i: usize = 0;
    assert(out@ =~= spec_render_tsv(rv.take(0)));
    while i < rows.len()
        invariant
            i <= rows.len(),
            rv == row_views(rows@),
            out@ == spec_render_tsv(rv.take(i as int)),
        decreases rows.len() - i,
    {
        assert(rv.take(i + 1).drop_last() =~= rv.take(i as int));
        assert(rv.take(i + 1).last() == rv[i as int]);
        let fields: Vec<String> = match &rows[i] {
            IndexRow::Value(r) => vec![
                tsv_escape("V"),
                tsv_escape(r.crate_name.as_str()),
                tsv_escape(r.path.as_str()),
                tsv_escape(r.ty.as_str()),
                tsv_escape(r.value.as_str()),
            ],
            IndexRow::Doc(r) => vec![
                tsv_escape("D"),
                tsv_escape(r.crate_name.as_str()),
                tsv_escape(r.path.as_str()),
                tsv_escape(r.docs.as_str()),
            ],
        };
        let joined = crate::text::join_strings(&fields, "\t");
        assert(fields@.map_values(|p: String| p@) =~= row_fields(rv[i as int]).map_values(
            |f: Seq<char>| spec_tsv_escape(f),
        ));
        push_str_chars(&mut out, joined.as_str());
        push_str_chars(&mut out, "\n");
        assert(out@ =~= spec_render_tsv(rv.take(i + 1)));
        i += 1;
    }
    assert(rv.take(rows.len() as int) =~= rv);
    string_of(&out)
}

/// The rows of TSV lines: five fields tagged `V` or four tagged `D`; other lines are
/// skipped. Fields are taken as they are, without unescaping.
pub open spec fn spec_parse_tsv(ls: Seq<Seq<char>>) -> Seq<RowView>
    decreases ls.len(),
{
    if ls.len() == 0 {
        Seq::empty()
    } else {
        let f = split(ls.last(), '\t');
        spec_parse_tsv(ls.drop_last()) + if f.len() == 5 && f[0] == "V"@ {
            seq![RowView::Value(f[1], f[2], f[3], f[4])]
        } else if f.len() == 4 && f[0] == "D"@ {
            seq![RowView::Doc(f[1], f[2], f[3])]
        } else {
            Seq::empty()
        }
    }
}

/// Reads rows from the TSV cache.
pub fn parse_tsv(contents: &str) -> (r: Vec<IndexRow>)
    ensures
        row_views(r@) == spec_parse_tsv(lines(contents@)),
{
    let ls = lines_chars(&chars_of(contents));
    let ghost lv = ls@.map_values(|l: Vec<char>| l@);
    assert(lv == lines(contents@));
    let mut rows: Vec<IndexRow> = Vec::new();
    let mut i: usize = 0;
    assert(row_views(rows@) =~= spec_parse_tsv(lv.take(0)));
    while i < ls.len()
        invariant
            i <= ls.len(),
            lv == ls@.map_values(|l: Vec<char>| l@),
            row_views(rows@) == spec_parse_tsv(lv.take(i as int)),
        decreases ls.len() - i,
    {
        assert(lv.take(i + 1).drop_last() =~= lv.take(i as int));
        assert(lv.take(i + 1).last() == ls@[i as int]@);
        let f = split_chars(&ls[i], '\t');
        let ghost before = rows@;
        if f.len() == 5 && crate::text::chars_eq(&f[0], &chars_of("V")) {
            rows.push(IndexRow::Value(ValueRow {
                crate_name: string_of(&f[1]),
                path: string_of(&f[2]),
                ty: string_of(&f[3]),
                value: string_of(&f[4]),
            }));
            assert(row_views(rows@) =~= row_views(before).push(rows@.last()@));
        } else if f.len() == 4 && crate::text::chars_eq(&f[0], &chars_of("D")) {
            rows.push(IndexRow::Doc(DocRow {
                crate_name: string_of(&f[1]),
                path: string_of(&f[2]),
                docs: string_of(&f[3]),
            }));
            assert(row_views(rows@) =~= row_views(before).push(rows@.last()@));
        } else {
            assert(row_views(rows@) =~= row_views(before) + Seq::<RowView>::empty());
        }
        i += 1;
    }
    assert(lv.take(ls.len() as int) =~= lv);
    rows
}

/// The base64 digit of a six-bit value.
pub open spec fn b64_digit(n: int) -> char {
    if n < 26 {
        (65 + n) as char
    } else if n < 52 {
        (97 + n - 26) as char
    } else if n < 62 {
        (48 + n - 52) as char
    } else if n == 62 {
        '+'
    } else {
        '/'
    }
}

/// The four base64 characters of one group of up to three bytes (`b1` and `b2` count as
/// zero where absent).
pub open spec fn chunk(b0: int, b1: int, b2: int, n: int) -> Seq<char> {
    seq![
        b64_digit(b0 / 4),
        b64_digit((b0 % 4) * 16 + b1 / 16),
        if n > 1 {
            b64_digit((b1 % 16) * 4 + b2 / 64)
        } else {
            '='
        },
        if n > 2 {
            b64_digit(b2 % 64)
        } else {
            '='
        },
    ]
}

/// Standard base64 with `=` padding: each group of three bytes as four characters, the last
/// group padded.
pub open spec fn spec_base64(b: Seq<u8>) -> Seq<char>
    decreases b.len(),
{
    if b.len() == 0 {
        Seq::empty()
    } else {
        let b1: int = if b.len() > 1 {
            b[1] as int
        } else {
            0
        };
        let b2: int = if b.len() > 2 {
            b[2] as int
        } else {
            0
        };
        chunk(b[0] as int, b1, b2, b.len() as int) + if b.len() > 3 {
            spec_base64(b.skip(3))
        } else {
            Seq::empty()
        }
    }
}

/// Base64 gives four characters for every started group of three bytes.
proof fn lemma_base64_len(b: Seq<u8>)
    ensures
        spec_base64(b).len() == 4 * ((b.len() + 2) / 3),
    decreases b.len(),
{
    if b.len() > 3 {
        lemma_base64_len(b.skip(3));
        assert((b.len() + 2) / 3 == (b.len() - 3 + 2) / 3 + 1);
    }
}

fn digit_of(n: u32) -> (r: char)
    requires
        n < 64,
    ensures
        r == b64_digit(n as int),
{
    if n < 26 {
        ((65 + n) as u8) as char
    } else if n < 52 {
        ((97 + n - 26) as u8) as char
    } else if n < 62 {
        ((48 + n - 52) as u8) as char
    } else if n == 62 {
        '+'
    } else {
        '/'
    }
}

fn push_chunk(out: &mut Vec<char>, b0: u32, b1: u32, b2: u32, n: usize)
    requires
        b0 < 256,
        b1 < 256,
        b2 < 256,
        n >= 1,
    ensures
        final(out)@ == old(out)@ + chunk(b0 as int, b1 as int, b2 as int, n as int),
{
    out.push(digit_of(b0 / 4));
    out.push(digit_of((b0 % 4) * 16 + b1 / 16));
    out.push(if n > 1 { digit_of((b1 % 16) * 4 + b2 / 64) } else { '=' });
    out.push(if n > 2 { digit_of(b2 % 64) } else { '=' });
    assert(final(out)@ =~= old(out)@ + chunk(b0 as int, b1 as int, b2 as int, n as int));
}

/// Encodes bytes as standard base64 with `=` padding: four characters for every started
/// group of three bytes.
pub fn base64(bytes: &[u8]) -> (r: String)
    ensures
        r@ == spec_base64(bytes@),
        r@.len() == 4 * ((bytes@.len() + 2) / 3),
{
    proof {
        lemma_base64_len(bytes@);
    }
    let mut out: Vec<char> = Vec::new();
    let mut i: usize = 0;
    assert(bytes@.skip(0) =~= bytes@);
    while i < bytes.len()
        invariant
            i <= bytes.len(),
            out@ + spec_base64(bytes@.skip(i as int)) == spec_base64(bytes@),
        decreases bytes.len() - i,
    {
        let ghost rest = bytes@.skip(i as int);
        let n = bytes.len() - i;
        let b0 = bytes[i] as u32;
        let b1: u32 = if n > 1 { bytes[i + 1] as u32 } else { 0 };
        let b2: u32 = if n > 2 { bytes[i + 2] as u32 } else { 0 };
        assert(rest[0] == bytes@[i as int]);
        assert(n > 1 ==> rest[1] == bytes@[i + 1]);
        assert(n > 2 ==> rest[2] == bytes@[i + 2]);
        let ghost before = out@;
        push_chunk(&mut out, b0, b1, b2, n);
        if n > 3 {
            assert(rest.skip(3) =~= bytes@.skip(i + 3));
            i += 3;
        } else {
            assert(bytes@.skip(bytes.len() as int) =~= Seq::<u8>::empty());
            i = bytes.len();
        }
    }
    string_of(&out)
}

/// The texts of a list of strings; nothing if any element is not a string.
pub open spec fn all_text(v: Seq<Json>) -> Option<Seq<Seq<char>>>
    decreases v.len(),
{
    if v.len() == 0 {
        Some(Seq::empty())
    } else {
        match (all_text(v.drop_last()), v.last()) {
            (Some(p), Json::Str(s)) => Some(p.push(s@)),
            _ => None,
        }
    }
}

/// The `::`-joined path of a `paths` entry whose `path` is a list of strings.
pub open spec fn entry_path(entry: Json) -> Option<Seq<char>> {
    match elements(crate::json_value::get(entry, "path"@)) {
        Some(v) => match all_text(v) {
            Some(ss) => Some(crate::text::join(ss, "::"@)),
            None => None,
        },
        None => None,
    }
}

/// The text of a rustdoc type: its primitive name, else the name of its resolved path, else
/// its JSON text.
pub open spec fn type_text(t: Json) -> Seq<char> {
    match non_null(crate::json_value::get(t, "primitive"@)) {
        Some(p) => plain_text(p),
        None => match non_null(crate::json_value::field(crate::json_value::get(t, "resolved_path"@), "name"@)) {
            Some(n) => plain_text(n),
            None => json_text(t),
        },
    }
}

/// The type text of an item's `type` field, `null` without one.
pub open spec fn ty_of(o: Option<Json>) -> Seq<char> {
    match o {
        Some(t) => type_text(t),
        None => "null"@,
    }
}

/// A constant's value: the `const` object's `value`, else its `expr`, else `?`.
pub open spec fn const_value(ce: Seq<(String, Json)>) -> Seq<char> {
    match entries(lookup(ce, "const"@)) {
        Some(v) => match non_null(lookup(v, "value"@)) {
            Some(x) => plain_text(x),
            None => match non_null(lookup(v, "expr"@)) {
                Some(x) => plain_text(x),
                None => "?"@,
            },
        },
        None => "?"@,
    }
}

/// A static's value: its `expr`, else `?`.
pub open spec fn static_value(se: Seq<(String, Json)>) -> Seq<char> {
    match non_null(lookup(se, "expr"@)) {
        Some(x) => plain_text(x),
        None => "?"@,
    }
}

/// The object under a field of an item's `inner` object.
pub open spec fn inner_kind(item: Json, kind: Seq<char>) -> Option<Seq<(String, Json)>> {
    match entries(crate::json_value::get(item, "inner"@)) {
        Some(ie) => entries(lookup(ie, kind)),
        None => None,
    }
}

/// The value row of a public constant or static, if the item is one.
pub open spec fn value_part(c: Seq<char>, path: Seq<char>, item: Json) -> Seq<RowView> {
    match inner_kind(item, "constant"@) {
        Some(ce) => seq![RowView::Value(c, path, ty_of(lookup(ce, "type"@)), const_value(ce))],
        None => match inner_kind(item, "static"@) {
            Some(se) => seq![RowView::Value(c, path, ty_of(lookup(se, "type"@)), static_value(se))],
            None => Seq::empty(),
        },
    }
}

/// The documentation row of an item with non-empty docs, its UTF-8 bytes base64-encoded.
pub open spec fn doc_part(c: Seq<char>, path: Seq<char>, item: Json) -> Seq<RowView> {
    match text(crate::json_value::get(item, "docs"@)) {
        Some(d) => if d.len() > 0 {
            seq![RowView::Doc(c, path, spec_base64(vstd::utf8::encode_utf8(d)))]
        } else {
            Seq::empty()
        },
        None => Seq::empty(),
    }
}

/// The rows of one `paths` entry: for a public item of the index with a string path, its
/// value row, if any, then its documentation row, if any.
pub open spec fn entry_rows(index: Seq<(String, Json)>, c: Seq<char>, id: Seq<char>, entry: Json) -> Seq<RowView> {
    match lookup(index, id) {
        Some(item) => if text(crate::json_value::get(item, "visibility"@)) == Some("public"@) {
            match entry_path(entry) {
                Some(path) => value_part(c, path, item) + doc_part(c, path, item),
                None => Seq::empty(),
            }
        } else {
            Seq::empty()
        },
        None => Seq::empty(),
    }
}

/// The rows of the `paths` entries, in their order.
pub open spec fn paths_rows(index: Seq<(String, Json)>, c: Seq<char>, paths: Seq<(String, Json)>) -> Seq<RowView>
    decreases paths.len(),
{
    if paths.len() == 0 {
        Seq::empty()
    } else {
        paths_rows(index, c, paths.drop_last()) + entry_rows(index, c, paths.last().0@, paths.last().1)
    }
}

fn type_text_exec(t: &Json) -> (r: String)
    ensures
        r@ == type_text(*t),
{
    match get_exec(t, "primitive") {
        Some(Json::Null) => {},
        Some(p) => {
            return plain_text_exec(p);
        },
        None => {},
    }
    match field_exec(get_exec(t, "resolved_path"), "name") {
        Some(Json::Null) => {},
        Some(n) => {
            return plain_text_exec(n);
        },
        None => {},
    }
    crate::json_value::compact(t)
}

fn ty_exec(o: Option<&Json>) -> (r: String)
    ensures
        r@ == ty_of(
            match o {
                Some(x) => Some(*x),
                None => None,
            },
        ),
{
    match o {
        Some(t) => type_text_exec(t),
        None => crate::text::copy_str("null"),
    }
}

fn const_value_exec(ce: &Vec<(String, Json)>) -> (r: String)
    ensures
        r@ == const_value(ce@),
{
    match lookup_exec(ce, "const") {
        Some(Json::Object(v)) => {
            match lookup_exec(v, "value") {
                Some(Json::Null) => {},
                Some(x) => {
                    return plain_text_exec(x);
                },
                None => {},
            }
            match lookup_exec(v, "expr") {
                Some(Json::Null) => crate::text::copy_str("?"),
                Some(x) => plain_text_exec(x),
                None => crate::text::copy_str("?"),
            }
        },
        _ => crate::text::copy_str("?"),
    }
}

fn static_value_exec(se: &Vec<(String, Json)>) -> (r: String)
    ensures
        r@ == static_value(se@),
{
    match lookup_exec(se, "expr") {
        Some(Json::Null) => crate::text::copy_str("?"),
        Some(x) => plain_text_exec(x),
        None => crate::text::copy_str("?"),
    }
}

fn entry_path_exec(entry: &Json) -> (r: Option<String>)
    ensures
        match r {
            Some(p) => entry_path(*entry) == Some(p@),
            None => entry_path(*entry) is None,
        },
{
    let v = match get_exec(entry, "path") {
        Some(Json::Array(v)) => v,
        _ => {
            return None;
        },
    };
    assert(elements(crate::json_value::get(*entry, "path"@)) == Some(v@));
    let mut parts: Vec<String> = Vec::new();
    let mut i: usize = 0;
    assert(v@.take(0) =~= Seq::<Json>::empty());
    while i < v.len()
        invariant
            i <= v.len(),
            elements(crate::json_value::get(*entry, "path"@)) == Some(v@),
            all_text(v@.take(i as int)) == Some(sviews(parts@)),
        decreases v.len() - i,
    {
        assert(v@.take(i + 1).drop_last() =~= v@.take(i as int));
        assert(v@.take(i + 1).last() == v@[i as int]);
        match &v[i] {
            Json::Str(s) => {
                let ghost before = parts@;
                parts.push(crate::text::copy_str(s.as_str()));
                assert(sviews(parts@) =~= sviews(before).push(s@));
            },
            _ => {
                proof {
                    lemma_all_text_none(v@, i as int);
                }
                return None;
            },
        }
        i += 1;
    }
    assert(v@.take(v.len() as int) =~= v@);
    assert(sviews(parts@) == parts@.map_values(|p: String| p@));
    Some(crate::text::join_strings(&parts, "::"))
}

proof fn lemma_all_text_none(v: Seq<Json>, i: int)
    requires
        0 <= i < v.len(),
        !(v[i] is Str),
    ensures
        all_text(v) is None,
    decreases v.len(),
{
    if i < v.len() - 1 {
        lemma_all_text_none(v.drop_last(), i);
    }
}

fn push_row(out: &mut Vec<IndexRow>, r: IndexRow)
    ensures
        row_views(final(out)@) == row_views(old(out)@).push(r@),
{
    let ghost before = out@;
    out.push(r);
    assert(row_views(out@) =~= row_views(before).push(r@));
}

fn inner_kind_exec<'a>(item: &'a Json, kind: &str) -> (r: Option<&'a Vec<(String, Json)>>)
    ensures
        match r {
            Some(es) => inner_kind(*item, kind@) == Some(es@),
            None => inner_kind(*item, kind@) is None,
        },
{
    match get_exec(item, "inner") {
        Some(Json::Object(ie)) => match lookup_exec(ie, kind) {
            Some(Json::Object(es)) => Some(es),
            _ => None,
        },
        _ => None,
    }
}

fn entry_rows_exec(out: &mut Vec<IndexRow>, index: &Vec<(String, Json)>, crate_name: &str, id: &str, entry: &Json)
    ensures
        row_views(final(out)@) == row_views(old(out)@) + entry_rows(index@, crate_name@, id@, *entry),
{
    let ghost before = row_views(out@);
    let item = match lookup_exec(index, id) {
        Some(item) => item,
        None => {
            assert(row_views(out@) =~= before + Seq::<RowView>::empty());
            return;
        },
    };
    let public = match get_exec(item, "visibility") {
        Some(Json::Str(v)) => crate::text::str_eq(v.as_str(), "public"),
        _ => false,
    };
    proof {
        reveal_strlit("public");
    }
    if !public {
        assert(row_views(out@) =~= before + Seq::<RowView>::empty());
        return;
    }
    let path = match entry_path_exec(entry) {
        Some(p) => p,
        None => {
            assert(row_views(out@) =~= before + Seq::<RowView>::empty());
            return;
        },
    };
    match inner_kind_exec(item, "constant") {
        Some(ce) => {
            let row = ValueRow {
                crate_name: crate::text::copy_str(crate_name),
                path: path.clone(),
                ty: ty_exec(lookup_exec(ce, "type")),
                value: const_value_exec(ce),
            };
            push_row(out, IndexRow::Value(row));
        },
        None => match inner_kind_exec(item, "static") {
            Some(se) => {
                let row = ValueRow {
                    crate_name: crate::text::copy_str(crate_name),
                    path: path.clone(),
                    ty: ty_exec(lookup_exec(se, "type")),
                    value: static_value_exec(se),
                };
                push_row(out, IndexRow::Value(row));
            },
            None => {},
        },
    }
    let ghost mid = row_views(out@);
    assert(mid =~= before + value_part(crate_name@, path@, *item));
    match get_exec(item, "docs") {
        Some(Json::Str(d)) => {
            if chars_of(d.as_str()).len() > 0 {
                let docs = base64(d.as_str().as_bytes());
                let row = DocRow { crate_name: crate::text::copy_str(crate_name), path, docs };
                push_row(out, IndexRow::Doc(row));
            }
        },
        _ => {},
    }
    assert(row_views(out@) =~= before + (value_part(crate_name@, path@, *item) + doc_part(
        crate_name@,
        path@,
        *item,
    )));
}

/// The value and documentation rows of a crate's rustdoc JSON, given its `index` object and
/// its `paths` entries in document order: for each path entry naming a public item of the
/// index, the item's value row if it is a constant or static, then its documentation row if
/// it has docs.
pub fn extract(index: &Vec<(String, Json)>, paths: &Vec<(String, Json)>, crate_name: &str) -> (r: Vec<IndexRow>)
    ensures
        row_views(r@) == paths_rows(index@, crate_name@, paths@),
{
    let mut out: Vec<IndexRow> = Vec::new();
    let mut i: usize = 0;
    assert(row_views(out@) =~= paths_rows(index@, crate_name@, paths@.take(0)));
    while i < paths.len()
        invariant
            i <= paths.len(),
            row_views(out@) == paths_rows(index@, crate_name@, paths@.take(i as int)),
        decreases paths.len() - i,
    {
        assert(paths@.take(i + 1).drop_last() =~= paths@.take(i as int));
        assert(paths@.take(i + 1).last() == paths@[i as int]);
        entry_rows_exec(&mut out, index, crate_name, paths[i].0.as_str(), &paths[i].1);
        i += 1;
    }
    assert(paths@.take(paths.len() as int) =~= paths@);
    out
}

/// A row with each field escaped as the TSV cache writes it.
pub open spec fn escaped_row(r: RowView) -> RowView {
    match r {
        RowView::Value(c, p, t, v) => RowView::Value(
            spec_tsv_escape(c),
            spec_tsv_escape(p),
            spec_tsv_escape(t),
            spec_tsv_escape(v),
        ),
        RowView::Doc(c, p, d) => RowView::Doc(spec_tsv_escape(c), spec_tsv_escape(p), spec_tsv_escape(d)),
    }
}

/// Text without tab, line feed or carriage return.
pub open spec fn one_field(f: Seq<char>) -> bool {
    !f.contains('\t') && !f.contains('\n') && !f.contains('\r')
}

proof fn lemma_escape_one_field(v: Seq<char>)
    ensures
        one_field(spec_tsv_escape(v)),
{
    reveal_strlit("\\");
    reveal_strlit("\\\\");
    reveal_strlit("\t");
    reveal_strlit("\\t");
    reveal_strlit("\r");
    reveal_strlit("\\r");
    reveal_strlit("\n");
    reveal_strlit("\\n");
    let bs: Seq<char> = "\\\\"@;
    let t: Seq<char> = "\\t"@;
    let r: Seq<char> = "\\r"@;
    let n: Seq<char> = "\\n"@;
    assert(!t.contains('\t') && !t.contains('\r') && !t.contains('\n')) by {
        assert(t[0] == '\\' && t[1] == 't');
    }
    assert(!r.contains('\t') && !r.contains('\r') && !r.contains('\n')) by {
        assert(r[0] == '\\' && r[1] == 'r');
    }
    assert(!n.contains('\t') && !n.contains('\r') && !n.contains('\n')) by {
        assert(n[0] == '\\' && n[1] == 'n');
    }
    assert("\t"@ =~= seq!['\t']);
    assert("\r"@ =~= seq!['\r']);
    assert("\n"@ =~= seq!['\n']);
    let v1 = replace_all(v, "\\"@, bs);
    let v2 = replace_all(v1, "\t"@, t);
    let v3 = replace_all(v2, "\r"@, r);
    let v4 = replace_all(v3, "\n"@, n);
    crate::text::lemma_replace_removes(v1, '\t', t);
    crate::text::lemma_replace_removes(v2, '\r', r);
    crate::text::lemma_replace_keeps_out(v2, "\r"@, r, '\t');
    crate::text::lemma_replace_removes(v3, '\n', n);
    crate::text::lemma_replace_keeps_out(v3, "\n"@, n, '\t');
    crate::text::lemma_replace_keeps_out(v3, "\n"@, n, '\r');
}

proof fn lemma_escape_tag(tag: Seq<char>)
    requires
        tag == "V"@ || tag == "D"@,
    ensures
        spec_tsv_escape(tag) == tag,
{
    reveal_strlit("V");
    reveal_strlit("D");
    reveal_strlit("\\");
    reveal_strlit("\t");
    reveal_strlit("\r");
    reveal_strlit("\n");
    assert(tag.len() == 1 && (tag[0] == 'V' || tag[0] == 'D'));
    assert(!tag.contains('\\') && !tag.contains('\t') && !tag.contains('\r') && !tag.contains('\n')) by {
        if tag.contains('\\') || tag.contains('\t') || tag.contains('\r') || tag.contains('\n') {
            let k = choose|k: int| 0 <= k < tag.len() && (tag[k] == '\\' || tag[k] == '\t' || tag[k] == '\r' || tag[k] == '\n');
        }
    }
    assert("\\"@ =~= seq!['\\']);
    assert("\t"@ =~= seq!['\t']);
    assert("\r"@ =~= seq!['\r']);
    assert("\n"@ =~= seq!['\n']);
    crate::text::lemma_replace_absent(tag, '\\', "\\\\"@);
    crate::text::lemma_replace_absent(tag, '\t', "\\t"@);
    crate::text::lemma_replace_absent(tag, '\r', "\\r"@);
    crate::text::lemma_replace_absent(tag, '\n', "\\n"@);
}

proof fn lemma_join_without(parts: Seq<Seq<char>>, sep: Seq<char>, d: char)
    requires
        !sep.contains(d),
        forall|i: int| 0 <= i < parts.len() ==> !(#[trigger] parts[i]).contains(d),
    ensures
        !crate::text::join(parts, sep).contains(d),
    decreases parts.len(),
{
    if parts.len() > 1 {
        let init = parts.drop_last();
        assert(forall|i: int| 0 <= i < init.len() ==> (#[trigger] init[i]) == parts[i]);
        lemma_join_without(init, sep, d);
        let j = crate::text::join(init, sep);
        let last = parts.last();
        assert(!last.contains(d)) by {
            assert(parts[parts.len() - 1] == last);
        }
        let all = j + sep + last;
        if all.contains(d) {
            let k = choose|k: int| 0 <= k < all.len() && all[k] == d;
            if k < j.len() {
                assert(j[k] == d);
            } else if k < j.len() + sep.len() {
                assert(sep[k - j.len()] == d);
            } else {
                assert(last[k - j.len() - sep.len()] == d);
            }
        }
    } else if parts.len() == 1 {
        assert(!parts[0].contains(d));
    }
}

/// A row's TSV line, without the line feed.
pub open spec fn tsv_line(r: RowView) -> Seq<char> {
    crate::text::join(row_fields(r).map_values(|f: Seq<char>| spec_tsv_escape(f)), "\t"@)
}

proof fn lemma_tsv_line(r: RowView)
    ensures
        crate::text::plain_line(tsv_line(r)),
        split(tsv_line(r), '\t') == row_fields(escaped_row(r)),
{
    reveal_strlit("\t");
    let tab: Seq<char> = "\t"@;
    assert(tab =~= seq!['\t']);
    assert(!tab.contains('\n') && !tab.contains('\r')) by {
        assert(tab[0] == '\t');
    }
    let fs = row_fields(r).map_values(|f: Seq<char>| spec_tsv_escape(f));
    assert forall|i: int| 0 <= i < fs.len() implies one_field(#[trigger] fs[i]) by {
        lemma_escape_one_field(row_fields(r)[i]);
    }
    lemma_join_without(fs, tab, '\n');
    lemma_join_without(fs, tab, '\r');
    crate::text::lemma_split_join(fs, '\t');
    match r {
        RowView::Value(c, p, t, v) => {
            lemma_escape_tag("V"@);
        },
        RowView::Doc(c, p, d) => {
            lemma_escape_tag("D"@);
        },
    }
    assert(fs =~= row_fields(escaped_row(r)));
    let line = tsv_line(r);
    if line.len() > 0 && line.last() == '\r' {
        assert(line[line.len() - 1] == '\r');
    }
}

proof fn lemma_render_joined(rows: Seq<RowView>)
    ensures
        spec_render_tsv(rows) == crate::text::joined_lines(rows.map_values(|r: RowView| tsv_line(r))),
    decreases rows.len(),
{
    reveal_strlit("\n");
    if rows.len() > 0 {
        lemma_render_joined(rows.drop_last());
        assert(rows.drop_last().map_values(|r: RowView| tsv_line(r)) =~= rows.map_values(
            |r: RowView| tsv_line(r),
        ).drop_last());
        assert("\n"@ =~= seq!['\n']);
    }
}

proof fn lemma_parse_lines(rows: Seq<RowView>)
    ensures
        spec_parse_tsv(rows.map_values(|r: RowView| tsv_line(r))) == rows.map_values(
            |r: RowView| escaped_row(r),
        ),
    decreases rows.len(),
{
    reveal_strlit("V");
    reveal_strlit("D");
    if rows.len() > 0 {
        let init = rows.drop_last();
        lemma_parse_lines(init);
        assert(rows.map_values(|r: RowView| tsv_line(r)).drop_last() =~= init.map_values(
            |r: RowView| tsv_line(r),
        ));
        let r = rows.last();
        assert(rows.map_values(|r: RowView| tsv_line(r)).last() == tsv_line(r));
        lemma_tsv_line(r);
        assert(rows.map_values(|r: RowView| escaped_row(r)) =~= init.map_values(
            |r: RowView| escaped_row(r),
        ).push(escaped_row(r)));
        match r {
            RowView::Value(c, p, t, v) => {
                assert("V"@ != "D"@) by {
                    assert("V"@[0] != "D"@[0]);
                }
            },
            RowView::Doc(c, p, d) => {},
        }
    }
}

/// What the value index cache gives back is what was written, each field escaped: every
/// row rendered to TSV and parsed again comes back in order with its fields escaped, so
/// a fresh index and a cached one are the same rows.
pub proof fn law_value_cache_round_trip(rows: Seq<RowView>)
    ensures
        spec_parse_tsv(lines(spec_render_tsv(rows))) == rows.map_values(|r: RowView| escaped_row(r)),
{
    let ls = rows.map_values(|r: RowView| tsv_line(r));
    lemma_render_joined(rows);
    assert forall|i: int| 0 <= i < ls.len() implies crate::text::plain_line(#[trigger] ls[i]) by {
        lemma_tsv_line(rows[i]);
    }
    crate::text::lemma_lines_joined(ls);
    lemma_parse_lines(rows);
}

} // verus!
