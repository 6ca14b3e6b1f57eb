//! Trait attribution for associated public API items: which trait provides a member of a
//! type, read from rustdoc JSON and cached as three-column TSV.

use vstd::prelude::*;

use crate::changelog::{trait_of, tviews, TraitRow};
use crate::group::after_last;
use crate::json_value::{
    elements, entries, field, field_exec, get_exec, lookup, lookup_exec, non_null, plain_text,
    plain_text_exec, text, Json,
};
use crate::order::{insert_key, keys_sorted, kview, kviews};
use crate::text::{chars_of, lines, lines_chars, push_str_chars, split, split_chars, str_eq, string_of};

verus! {

/// Member attribution: (type's short name, member, trait path) rows, each (type, member)
/// pair at most once.
pub type TraitMap = Vec<(String, String, String)>;

/// Whether a row with the type and member is present.
pub open spec fn has_key(rows: Seq<TraitRow>, t: Seq<char>, m: Seq<char>) -> bool {
    exists|k: int| 0 <= k < rows.len() && (#[trigger] rows[k]).0 == t && rows[k].1 == m
}

/// The rows with each (type, member) pair once, the first row of a pair kept.
pub open spec fn first_rows(rows: Seq<TraitRow>) -> Seq<TraitRow>
    decreases rows.len(),
{
    if rows.len() == 0 {
        Seq::empty()
    } else {
        let prev = first_rows(rows.drop_last());
        let r = rows.last();
        if has_key(prev, r.0, r.1) {
            prev
        } else {
            prev.push(r)
        }
    }
}

fn has_key_exec(rows: &Vec<(String, String, String)>, t: &str, m: &str) -> (r: bool)
    ensures
        r == has_key(tviews(rows@), t@, m@),
{
    let ghost rv = tviews(rows@);
    let mut i: usize = 0;
    while i < rows.len()
        invariant
            i <= rows.len(),
            rv == tviews(rows@),
            forall|k: int| 0 <= k < i ==> !((#[trigger] rv[k]).0 == t@ && rv[k].1 == m@),
        decreases rows.len() - i,
    {
        if str_eq(rows[i].0.as_str(), t) && str_eq(rows[i].1.as_str(), m) {
            assert(rv[i as int].0 == t@ && rv[i as int].1 == m@);
            return true;
        }
        i += 1;
    }
    false
}

/// The trait map of rows: the first trait of each (type, member) pair.
pub fn rows_to_map(rows: &Vec<(String, String, String)>) -> (r: TraitMap)
    ensures
        tviews(r@) == first_rows(tviews(rows@)),
{
    let ghost rv = tviews(rows@);
    let mut out: Vec<(String, String, String)> = Vec::new();
    let mut i: usize = 0;
    assert(tviews(out@) =~= first_rows(rv.take(0)));
    while i < rows.len()
        invariant
            i <= rows.len(),
            rv == tviews(rows@),
            tviews(out@) == first_rows(rv.take(i as int)),
        decreases rows.len() - i,
    {
        assert(rv.take(i + 1).drop_last() =~= rv.take(i as int));
        assert(rv.take(i + 1).last() == rv[i as int]);
        if !has_key_exec(&out, rows[i].0.as_str(), rows[i].1.as_str()) {
            let ghost before = out@;
            out.push((rows[i].0.clone(), rows[i].1.clone(), rows[i].2.clone()));
            assert(tviews(out@) =~= tviews(before).push(rv[i as int]));
        }
        i += 1;
    }
    assert(rv.take(rows.len() as int) =~= rv);
    out
}

/// The trait that provides a member of a type.
pub fn get(map: &TraitMap, self_name: &str, member: &str) -> (r: Option<String>)
    ensures
        match r {
            Some(t) => trait_of(tviews(map@), self_name@, member@) == Some(t@),
            None => trait_of(tviews(map@), self_name@, member@) is None,
        },
{
    let ghost tv = tviews(map@);
    let mut i: usize = map.len();
    assert(tv.take(i as int) =~= tv);
    while i > 0
        invariant
            i <= map.len(),
            tv == tviews(map@),
            trait_of(tv, self_name@, member@) == trait_of(tv.take(i as int), self_name@, member@),
        decreases i,
    {
        assert(tv.take(i as int).last() == tv[i - 1]);
        if str_eq(map[i - 1].0.as_str(), self_name) && str_eq(map[i - 1].1.as_str(), member) {
            return Some(map[i - 1].2.clone());
        }
        assert(tv.take(i as int).drop_last() =~= tv.take(i - 1));
        i -= 1;
    }
    None
}

/// Rows as TSV: three tab-separated columns and a newline each.
pub open spec fn tsv_of(rows: Seq<TraitRow>) -> Seq<char>
    decreases rows.len(),
{
    if rows.len() == 0 {
        Seq::empty()
    } else {
        let r = rows.last();
        tsv_of(rows.drop_last()) + r.0 + "\t"@ + r.1 + "\t"@ + r.2 + "\n"@
    }
}

/// Renders rows as three-column TSV.
pub fn render_tsv(rows: &Vec<(String, String, String)>) -> (r: String)
    ensures
        r@ == tsv_of(tviews(rows@)),
{
    let ghost rv = tviews(rows@);
    let mut out: Vec<char> = Vec::new();
    let mut i: usize = 0;
    assert(out@ =~= tsv_of(rv.take(0)));
    while i < rows.len()
        invariant
            i <= rows.len(),
            rv == tviews(rows@),
            out@ == tsv_of(rv.take(i as int)),
        decreases rows.len() - i,
    {
        assert(rv.take(i + 1).drop_last() =~= rv.take(i as int));
        assert(rv.take(i + 1).last() == rv[i as int]);
        push_str_chars(&mut out, rows[i].0.as_str());
        push_str_chars(&mut out, "\t");
        push_str_chars(&mut out, rows[i].1.as_str());
        push_str_chars(&mut out, "\t");
        push_str_chars(&mut out, rows[i].2.as_str());
        push_str_chars(&mut out, "\n");
        assert(out@ =~= tsv_of(rv.take(i + 1)));
        i += 1;
    }
    assert(rv.take(rows.len() as int) =~= rv);
    string_of(&out)
}

/// The rows of TSV lines with at least three columns (the first three kept), each distinct
/// row once.
pub open spec fn tsv_rows(ls: Seq<Seq<char>>) -> Seq<TraitRow>
    decreases ls.len(),
{
    if ls.len() == 0 {
        Seq::empty()
    } else {
        let prev = tsv_rows(ls.drop_last());
        let f = split(ls.last(), '\t');
        if f.len() >= 3 && !prev.contains((f[0], f[1], f[2])) {
            prev.push((f[0], f[1], f[2]))
        } else {
            prev
        }
    }
}

fn contains_row(rows: &Vec<(String, String, String)>, a: &Vec<char>, b: &Vec<char>, c: &Vec<char>) -> (r: bool)
    ensures
        r == tviews(rows@).contains((a@, b@, c@)),
{
    let ghost rv = tviews(rows@);
    let mut i: usize = 0;
    while i < rows.len()
        invariant
            i <= rows.len(),
            rv == tviews(rows@),
            forall|k: int| 0 <= k < i ==> rv[k] != (a@, b@, c@),
        decreases rows.len() - i,
    {
        if crate::text::chars_eq(&chars_of(rows[i].0.as_str()), a) && crate::text::chars_eq(
            &chars_of(rows[i].1.as_str()),
            b,
        ) && crate::text::chars_eq(&chars_of(rows[i].2.as_str()), c) {
            assert(rv[i as int] == (a@, b@, c@));
            return true;
        }
        i += 1;
    }
    false
}

/// Reads a trait map from its TSV cache: lines with fewer than three columns are skipped,
/// repeated rows count once, and the first trait of each (type, member) pair is kept.
pub fn parse_tsv(contents: &str) -> (r: TraitMap)
    ensures
        tviews(r@) == first_rows(tsv_rows(lines(contents@))),
{
    let ls = lines_chars(&chars_of(contents));
    let ghost lv = ls@.map_values(|l: Vec<char>| l@);
    assert(lv == lines(contents@));
    let mut rows: Vec<(String, String, String)> = Vec::new();
    let mut i: usize = 0;
    assert(tviews(rows@) =~= tsv_rows(lv.take(0)));
    while i < ls.len()
        invariant
            i <= ls.len(),
            lv == ls@.map_values(|l: Vec<char>| l@),
            tviews(rows@) == tsv_rows(lv.take(i as int)),
        decreases ls.len() - i,
    {
        assert(lv.take(i + 1).drop_last() =~= lv.take(i as int));
        assert(lv.take(i + 1).last() == ls@[i as int]@);
        let f = split_chars(&ls[i], '\t');
        let ghost fv = f@.map_values(|p: Vec<char>| p@);
        assert(fv == split(ls@[i as int]@, '\t'));
        if f.len() >= 3 {
            assert(fv[0] == f@[0]@ && fv[1] == f@[1]@ && fv[2] == f@[2]@);
            if !contains_row(&rows, &f[0], &f[1], &f[2]) {
                let ghost before = rows@;
                rows.push((string_of(&f[0]), string_of(&f[1]), string_of(&f[2])));
                assert(tviews(rows@) =~= tviews(before).push((fv[0], fv[1], fv[2])));
            }
        }
        i += 1;
    }
    assert(lv.take(ls.len() as int) =~= lv);
    rows_to_map(&rows)
}

/// The parts of an index item that is a trait impl on a named type: the type's short name
/// (its path after the last `::`), the trait's path and the impl's member ids.
pub open spec fn impl_parts(item: Json) -> Option<(Seq<char>, Seq<char>, Seq<Json>)> {
    let imp = field(crate::json_value::get(item, "inner"@), "impl"@);
    let trait_path = text(field(non_null(field(imp, "trait"@)), "path"@));
    let self_path = text(field(field(field(imp, "for"@), "resolved_path"@), "path"@));
    let items = elements(field(imp, "items"@));
    match (trait_path, self_path, items) {
        (Some(tp), Some(sp), Some(ids)) => Some((after_last(sp, "::"@), tp, ids)),
        _ => None,
    }
}

/// The rows of an impl's members: one per id that names an index entry with a name. A
/// string id is looked up as it is, any other by its JSON text.
pub open spec fn member_rows(index: Seq<(String, Json)>, ty: Seq<char>, tp: Seq<char>, ids: Seq<Json>) -> Seq<
    TraitRow,
>
    decreases ids.len(),
{
    if ids.len() == 0 {
        Seq::empty()
    } else {
        member_rows(index, ty, tp, ids.drop_last()) + match text(
            field(lookup(index, plain_text(ids.last())), "name"@),
        ) {
            Some(m) => seq![(ty, m, tp)],
            None => Seq::empty(),
        }
    }
}

/// The rows one index item contributes.
pub open spec fn item_rows(index: Seq<(String, Json)>, item: Json) -> Seq<TraitRow> {
    match impl_parts(item) {
        Some((ty, tp, ids)) => member_rows(index, ty, tp, ids),
        None => Seq::empty(),
    }
}

/// The rows of a list of index items.
pub open spec fn index_rows(index: Seq<(String, Json)>, items: Seq<(String, Json)>) -> Seq<TraitRow>
    decreases items.len(),
{
    if items.len() == 0 {
        Seq::empty()
    } else {
        index_rows(index, items.drop_last()) + item_rows(index, items.last().1)
    }
}

/// Every row of a rustdoc JSON document: those of each item of its `index` object.
pub open spec fn document_rows(root: Json) -> Seq<TraitRow> {
    match entries(crate::json_value::get(root, "index"@)) {
        Some(es) => index_rows(es, es),
        None => Seq::empty(),
    }
}

/// A row as a key of three strings.
pub open spec fn row_key(r: TraitRow) -> Seq<Seq<char>> {
    seq![r.0, r.1, r.2]
}

/// Rows as keys.
pub open spec fn row_keys(rows: Seq<TraitRow>) -> Seq<Seq<Seq<char>>> {
    rows.map_values(|r: TraitRow| row_key(r))
}

fn add_row(list: &mut Vec<Vec<Vec<char>>>, ty: &Vec<char>, m: &str, tp: &Vec<char>)
    requires
        keys_sorted(kviews(old(list)@)),
        forall|i: int| 0 <= i < old(list)@.len() ==> (#[trigger] old(list)@[i])@.len() == 3,
    ensures
        keys_sorted(kviews(final(list)@)),
        forall|i: int| 0 <= i < final(list)@.len() ==> (#[trigger] final(list)@[i])@.len() == 3,
        kviews(final(list)@).to_set() == kviews(old(list)@).to_set().insert(seq![ty@, m@, tp@]),
{
    let k: Vec<Vec<char>> = vec![crate::text::copy_chars(ty), chars_of(m), crate::text::copy_chars(tp)];
    assert(kview(k) =~= seq![ty@, m@, tp@]);
    let ghost before = list@;
    insert_key(list, k);
    assert forall|i: int| 0 <= i < list@.len() implies (#[trigger] list@[i])@.len() == 3 by {
        assert(kviews(list@).to_set().contains(kview(list@[i]))) by {
            assert(kviews(list@)[i] == kview(list@[i]));
        }
        if kview(list@[i]) != kview(k) {
            let j = choose|j: int| 0 <= j < kviews(before).len() && kviews(before)[j] == kview(list@[i]);
            assert(kview(before[j]).len() == 3);
        }
    }
}

fn add_member_rows(
    list: &mut Vec<Vec<Vec<char>>>,
    index: &Vec<(String, Json)>,
    ty: &Vec<char>,
    tp: &Vec<char>,
    ids: &Vec<Json>,
)
    requires
        keys_sorted(kviews(old(list)@)),
        forall|i: int| 0 <= i < old(list)@.len() ==> (#[trigger] old(list)@[i])@.len() == 3,
    ensures
        keys_sorted(kviews(final(list)@)),
        forall|i: int| 0 <= i < final(list)@.len() ==> (#[trigger] final(list)@[i])@.len() == 3,
        kviews(final(list)@).to_set() == kviews(old(list)@).to_set().union(
            row_keys(member_rows(index@, ty@, tp@, ids@)).to_set(),
        ),
{
    let ghost start = kviews(list@).to_set();
    let mut j: usize = 0;
    assert(row_keys(member_rows(index@, ty@, tp@, ids@.take(0))).to_set() =~= Set::empty());
    assert(start.union(Set::empty()) =~= start);
    while j < ids.len()
        invariant
            j <= ids.len(),
            keys_sorted(kviews(list@)),
            forall|i: int| 0 <= i < list@.len() ==> (#[trigger] list@[i])@.len() == 3,
            kviews(list@).to_set() == start.union(
                row_keys(member_rows(index@, ty@, tp@, ids@.take(j as int))).to_set(),
            ),
        decreases ids.len() - j,
    {
        assert(ids@.take(j + 1).drop_last() =~= ids@.take(j as int));
        assert(ids@.take(j + 1).last() == ids@[j as int]);
        let ghost prev = member_rows(index@, ty@, tp@, ids@.take(j as int));
        let key = plain_text_exec(&ids[j]);
        let name = field_exec(lookup_exec(index, key.as_str()), "name");
        match name {
            Some(Json::Str(m)) => {
                add_row(list, ty, m.as_str(), tp);
                assert(row_keys(prev + seq![(ty@, m@, tp@)]) =~= row_keys(prev).push(seq![ty@, m@, tp@]));
                proof {
                    row_keys(prev).lemma_push_to_set_commute(seq![ty@, m@, tp@]);
                }
                assert(kviews(list@).to_set() =~= start.union(
                    row_keys(member_rows(index@, ty@, tp@, ids@.take(j + 1))).to_set(),
                ));
            },
            _ => {
                assert(member_rows(index@, ty@, tp@, ids@.take(j + 1)) =~= prev);
            },
        }
        j += 1;
    }
    assert(ids@.take(ids.len() as int) =~= ids@);
}

fn triples_of(keys: &Vec<Vec<Vec<char>>>) -> (r: Vec<(String, String, String)>)
    requires
        forall|i: int| 0 <= i < keys@.len() ==> (#[trigger] keys@[i])@.len() == 3,
    ensures
        row_keys(tviews(r@)) == kviews(keys@),
{
    let mut out: Vec<(String, String, String)> = Vec::new();
    let mut i: usize = 0;
    while i < keys.len()
        invariant
            i <= keys.len(),
            forall|i: int| 0 <= i < keys@.len() ==> (#[trigger] keys@[i])@.len() == 3,
            row_keys(tviews(out@)) == kviews(keys@).take(i as int),
        decreases keys.len() - i,
    {
        let k = &keys[i];
        assert(k@.len() == 3);
        let t = (string_of(&k[0]), string_of(&k[1]), string_of(&k[2]));
        let ghost before = out@;
        out.push(t);
        assert(kview(*k) =~= seq![k@[0]@, k@[1]@, k@[2]@]);
        assert(row_keys(tviews(out@)) =~= row_keys(tviews(before)).push(row_key((t.0@, t.1@, t.2@))));
        assert(kviews(keys@).take(i + 1) =~= kviews(keys@).take(i as int).push(kviews(keys@)[i as int]));
        i += 1;
    }
    assert(kviews(keys@).take(keys.len() as int) =~= kviews(keys@));
    out
}

/// The trait-impl member rows of a rustdoc JSON document, sorted by type, member and trait,
/// each row once: for every trait impl on a named type in its `index`, the named members
/// the impl lists.
pub fn extract(root: &Json) -> (r: Vec<(String, String, String)>)
    ensures
        keys_sorted(row_keys(tviews(r@))),
        row_keys(tviews(r@)).to_set() == row_keys(document_rows(*root)).to_set(),
{
    let mut list: Vec<Vec<Vec<char>>> = Vec::new();
    let index: &Vec<(String, Json)> = match get_exec(root, "index") {
        Some(Json::Object(es)) => es,
        _ => {
            let out: Vec<(String, String, String)> = Vec::new();
            assert(row_keys(tviews(out@)) =~= Seq::<Seq<Seq<char>>>::empty());
            assert(row_keys(document_rows(*root)) =~= Seq::<Seq<Seq<char>>>::empty());
            return out;
        },
    };
    let ghost es = index@;
    let mut i: usize = 0;
    assert(row_keys(index_rows(es, es.take(0))).to_set() =~= Set::empty());
    assert(kviews(list@).to_set() =~= Set::empty());
    while i < index.len()
        invariant
            i <= index.len(),
            es == index@,
            keys_sorted(kviews(list@)),
            forall|k: int| 0 <= k < list@.len() ==> (#[trigger] list@[k])@.len() == 3,
            kviews(list@).to_set() == row_keys(index_rows(es, es.take(i as int))).to_set(),
        decreases index.len() - i,
    {
        assert(es.take(i + 1).drop_last() =~= es.take(i as int));
        assert(es.take(i + 1).last() == es[i as int]);
        let ghost prev = index_rows(es, es.take(i as int));
        let item = &index[i].1;
        let imp = field_exec(get_exec(item, "inner"), "impl");
        let tr = match field_exec(imp, "trait") {
            Some(Json::Null) => None,
            other => other,
        };
        let tp = field_exec(tr, "path");
        let sp = field_exec(field_exec(field_exec(imp, "for"), "resolved_path"), "path");
        let ids = field_exec(imp, "items");
        match (tp, sp, ids) {
            (Some(Json::Str(tp)), Some(Json::Str(sp)), Some(Json::Array(ids))) => {
                let short = crate::group::after_last_chars(&chars_of(sp.as_str()), "::");
                let tpc = chars_of(tp.as_str());
                let ghost before = kviews(list@).to_set();
                add_member_rows(&mut list, index, &short, &tpc, ids);
                assert(item_rows(es, *item) == member_rows(es, short@, tpc@, ids@));
                assert(row_keys(prev + item_rows(es, *item)) =~= row_keys(prev) + row_keys(
                    item_rows(es, *item),
                ));
                proof {
                    vstd::seq_lib::seq_to_set_distributes_over_add(row_keys(prev), row_keys(item_rows(es, *item)));
                }
                assert(kviews(list@).to_set() =~= row_keys(index_rows(es, es.take(i + 1))).to_set());
            },
            _ => {
                assert(item_rows(es, *item) =~= Seq::<TraitRow>::empty());
                assert(index_rows(es, es.take(i + 1)) =~= prev);
            },
        }
        i += 1;
    }
    assert(es.take(index.len() as int) =~= es);
    let out = triples_of(&list);
    out
}

/// A row as its TSV line, without the line feed.
pub open spec fn row_line(r: TraitRow) -> Seq<char> {
    r.0 + "\t"@ + r.1 + "\t"@ + r.2
}

/// A field the TSV cache carries unchanged: no tab, line feed or carriage return.
pub open spec fn tsv_safe(f: Seq<char>) -> bool {
    !f.contains('\t') && !f.contains('\n') && !f.contains('\r')
}

/// The rows with each repeated row dropped, first occurrences kept in order.
pub open spec fn distinct_rows(rows: Seq<TraitRow>) -> Seq<TraitRow>
    decreases rows.len(),
{
    if rows.len() == 0 {
        Seq::empty()
    } else {
        let prev = distinct_rows(rows.drop_last());
        if prev.contains(rows.last()) {
            prev
        } else {
            prev.push(rows.last())
        }
    }
}

proof fn lemma_tsv_joined(rows: Seq<TraitRow>)
    ensures
        tsv_of(rows) == crate::text::joined_lines(rows.map_values(|r: TraitRow| row_line(r))),
    decreases rows.len(),
{
    reveal_strlit("\n");
    if rows.len() > 0 {
        lemma_tsv_joined(rows.drop_last());
        assert(rows.drop_last().map_values(|r: TraitRow| row_line(r)) =~= rows.map_values(
            |r: TraitRow| row_line(r),
        ).drop_last());
        let r = rows.last();
        assert(tsv_of(rows.drop_last()) + r.0 + "\t"@ + r.1 + "\t"@ + r.2 + "\n"@ =~= tsv_of(
            rows.drop_last(),
        ) + row_line(r) + seq!['\n']);
    }
}

proof fn lemma_row_line(r: TraitRow)
    requires
        tsv_safe(r.0),
        tsv_safe(r.1),
        tsv_safe(r.2),
    ensures
        crate::text::plain_line(row_line(r)),
        split(row_line(r), '\t') == seq![r.0, r.1, r.2],
{
    reveal_strlit("\t");
    let tab: Seq<char> = "\t"@;
    assert(tab =~= seq!['\t']);
    assert(!tab.contains('\n') && !tab.contains('\r')) by {
        assert(tab[0] == '\t');
    }
    crate::text::lemma_no_char_concat(r.0, tab, '\n');
    crate::text::lemma_no_char_concat(r.0 + tab, r.1, '\n');
    crate::text::lemma_no_char_concat(r.0 + tab + r.1, tab, '\n');
    crate::text::lemma_no_char_concat(r.0 + tab + r.1 + tab, r.2, '\n');
    if row_line(r).len() > 0 && row_line(r).last() == '\r' {
        if r.2.len() > 0 {
            assert(r.2[r.2.len() - 1] == '\r');
        } else {
            assert(row_line(r).last() == '\t');
        }
    }
    crate::text::lemma_split_none(r.0, '\t');
    crate::text::lemma_split_sep(r.0, '\t');
    crate::text::lemma_split_append(r.0 + tab, r.1, '\t');
    crate::text::lemma_split_sep(r.0 + tab + r.1, '\t');
    crate::text::lemma_split_append(r.0 + tab + r.1 + tab, r.2, '\t');
    assert(seq![Seq::<char>::empty()].update(0, Seq::<char>::empty() + r.1) =~= seq![r.1]);
    assert(Seq::<char>::empty() + r.1 =~= r.1);
    assert(Seq::<char>::empty() + r.2 =~= r.2);
    assert(seq![r.0, Seq::<char>::empty()].update(1, Seq::<char>::empty() + r.1) =~= seq![r.0, r.1]);
    assert(seq![r.0, r.1, Seq::<char>::empty()].update(2, Seq::<char>::empty() + r.2) =~= seq![
        r.0,
        r.1,
        r.2,
    ]);
    assert(row_line(r) == r.0 + tab + r.1 + tab + r.2);
}

proof fn lemma_tsv_rows_lines(rows: Seq<TraitRow>)
    requires
        forall|i: int| 0 <= i < rows.len() ==> tsv_safe((#[trigger] rows[i]).0) && tsv_safe(rows[i].1)
            && tsv_safe(rows[i].2),
    ensures
        tsv_rows(rows.map_values(|r: TraitRow| row_line(r))) == distinct_rows(rows),
    decreases rows.len(),
{
    if rows.len() > 0 {
        let init = rows.drop_last();
        assert(forall|i: int| 0 <= i < init.len() ==> (#[trigger] init[i]) == rows[i]);
        lemma_tsv_rows_lines(init);
        assert(rows.map_values(|r: TraitRow| row_line(r)).drop_last() =~= init.map_values(
            |r: TraitRow| row_line(r),
        ));
        let r = rows.last();
        assert(rows[rows.len() - 1] == r);
        lemma_row_line(r);
        assert((r.0, r.1, r.2) == r);
    }
}

proof fn lemma_first_rows_keys(rows: Seq<TraitRow>, k: int)
    requires
        0 <= k < rows.len(),
    ensures
        has_key(first_rows(rows), rows[k].0, rows[k].1),
    decreases rows.len(),
{
    let prev = first_rows(rows.drop_last());
    if k < rows.len() - 1 {
        lemma_first_rows_keys(rows.drop_last(), k);
        assert(rows.drop_last()[k] == rows[k]);
        let j = choose|j: int| 0 <= j < prev.len() && (#[trigger] prev[j]).0 == rows[k].0 && prev[j].1 == rows[k].1;
        if !has_key(prev, rows.last().0, rows.last().1) {
            assert(prev.push(rows.last())[j] == prev[j]);
        }
    } else if !has_key(prev, rows.last().0, rows.last().1) {
        assert(prev.push(rows.last())[prev.len() as int] == rows.last());
    }
}

proof fn lemma_distinct_contains(rows: Seq<TraitRow>, r: TraitRow)
    requires
        distinct_rows(rows).contains(r),
    ensures
        rows.contains(r),
    decreases rows.len(),
{
    if rows.len() > 0 {
        let prev = distinct_rows(rows.drop_last());
        if prev.contains(r) {
            lemma_distinct_contains(rows.drop_last(), r);
            let k = choose|k: int| 0 <= k < rows.drop_last().len() && rows.drop_last()[k] == r;
            assert(rows[k] == r);
        } else {
            assert(r == rows.last());
            assert(rows[rows.len() - 1] == r);
        }
    }
}

proof fn lemma_first_rows_distinct(rows: Seq<TraitRow>)
    ensures
        first_rows(distinct_rows(rows)) == first_rows(rows),
    decreases rows.len(),
{
    if rows.len() > 0 {
        let init = rows.drop_last();
        let r = rows.last();
        lemma_first_rows_distinct(init);
        let d = distinct_rows(init);
        if d.contains(r) {
            lemma_distinct_contains(init, r);
            let k = choose|k: int| 0 <= k < init.len() && init[k] == r;
            lemma_first_rows_keys(init, k);
        } else {
            assert(d.push(r).drop_last() =~= d);
            assert(d.push(r).last() == r);
        }
    }
}

/// The trait map read back from the TSV cache is the one built from the rows: rendering
/// rows whose fields hold no tab, line feed or carriage return, then parsing the text,
/// keeps the first trait of each (type, member) pair, as building the map from the rows
/// does.
pub proof fn law_trait_cache_round_trip(rows: Seq<TraitRow>)
    requires
        forall|i: int| 0 <= i < rows.len() ==> tsv_safe((#[trigger] rows[i]).0) && tsv_safe(rows[i].1)
            && tsv_safe(rows[i].2),
    ensures
        first_rows(tsv_rows(lines(tsv_of(rows)))) == first_rows(rows),
{
    let ls = rows.map_values(|r: TraitRow| row_line(r));
    lemma_tsv_joined(rows);
    assert forall|i: int| 0 <= i < ls.len() implies crate::text::plain_line(#[trigger] ls[i]) by {
        lemma_row_line(rows[i]);
    }
    crate::text::lemma_lines_joined(ls);
    lemma_tsv_rows_lines(rows);
    lemma_first_rows_distinct(rows);
}

} // verus!
