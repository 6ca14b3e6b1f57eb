//! Name-keyed tables: entries sorted by name with each name once, as a `BTreeMap` keyed by
//! `String` iterates.

use vstd::prelude::*;

use crate::order::{chars_lt, lemma_lt_asymmetric, lemma_lt_irreflexive, lemma_lt_total,
    lemma_lt_transitive, seq_lt, sorted_strict};
use crate::text::{chars_of, chars_eq};

verus! {

/// The names of a table's entries.
pub open spec fn table_keys<V>(t: Seq<(String, V)>) -> Seq<Seq<char>> {
    t.map_values(|e: (String, V)| e.0@)
}

/// The entries are sorted by name, each name once.
pub open spec fn is_table<V>(t: Seq<(String, V)>) -> bool {
    sorted_strict(table_keys(t))
}

/// The value of the last entry named `name`, if any.
pub open spec fn lookup<V>(t: Seq<(String, V)>, name: Seq<char>) -> Option<V>
    decreases t.len(),
{
    if t.len() == 0 {
        None
    } else if t.last().0@ == name {
        Some(t.last().1)
    } else {
        lookup(t.drop_last(), name)
    }
}

/// `lookup` finds the entry with the name, and nothing when no entry has it.
pub proof fn lemma_lookup<V>(t: Seq<(String, V)>, name: Seq<char>)
    ensures
        (forall|k: int| 0 <= k < t.len() ==> (#[trigger] t[k]).0@ != name) ==> lookup(t, name)
            is None,
        (exists|k: int| 0 <= k < t.len() && (#[trigger] t[k]).0@ == name) ==> lookup(t, name)
            is Some,
        lookup(t, name) is Some ==> exists|k: int|
            0 <= k < t.len() && (#[trigger] t[k]).0@ == name && lookup(t, name) == Some(t[k].1),
    decreases t.len(),
{
    if t.len() > 0 {
        lemma_lookup(t.drop_last(), name);
        if t.last().0@ != name {
            assert forall|k: int| 0 <= k < t.drop_last().len() implies (#[trigger] t.drop_last()[k]) == t[k] by {}
            if exists|k: int| 0 <= k < t.len() && (#[trigger] t[k]).0@ == name {
                let k = choose|k: int| 0 <= k < t.len() && (#[trigger] t[k]).0@ == name;
                assert(k < t.len() - 1);
                assert(t.drop_last()[k].0@ == name);
            }
            if lookup(t, name) is Some {
                let k = choose|k: int| 0 <= k < t.drop_last().len() && (#[trigger] t.drop_last()[k]).0@ == name && lookup(t.drop_last(), name) == Some(t.drop_last()[k].1);
                assert(t[k] == t.drop_last()[k]);
            }
        } else {
            assert(t[t.len() - 1].0@ == name);
        }
    }
}

/// In a table, the entry at `k` is what `lookup` finds under its name.
pub proof fn lemma_table_lookup<V>(t: Seq<(String, V)>, k: int)
    requires
        is_table(t),
        0 <= k < t.len(),
    ensures
        lookup(t, t[k].0@) == Some(t[k].1),
    decreases t.len(),
{
    if k < t.len() - 1 {
        assert(table_keys(t)[k] == t[k].0@);
        assert(table_keys(t)[t.len() - 1] == t.last().0@);
        lemma_lt_irreflexive(t[k].0@);
        let d = t.drop_last();
        assert(table_keys(d) =~= table_keys(t).drop_last());
        assert(is_table(d));
        assert(d[k] == t[k]);
        lemma_table_lookup(d, k);
    }
}

/// Whether entries form a table: sorted by name, each name once.
pub fn check_table<V>(t: &Vec<(String, V)>) -> (r: bool)
    ensures
        r == is_table(t@),
{
    let ghost ks = table_keys(t@);
    if t.len() < 2 {
        assert(sorted_strict(ks));
        return true;
    }
    let mut i: usize = 1;
    while i < t.len()
        invariant
            1 <= i <= t.len(),
            ks == table_keys(t@),
            sorted_strict(ks.take(i as int)),
        decreases t.len() - i,
    {
        if !chars_lt(&chars_of(t[i - 1].0.as_str()), &chars_of(t[i].0.as_str())) {
            assert(!seq_lt(ks[i - 1], ks[i as int]));
            return false;
        }
        assert forall|x: int, y: int| 0 <= x < y < i + 1 implies seq_lt(
            #[trigger] ks.take(i + 1)[x],
            #[trigger] ks.take(i + 1)[y],
        ) by {
            if y == i && x < i - 1 {
                assert(seq_lt(ks.take(i as int)[x], ks.take(i as int)[i - 1]));
                lemma_lt_transitive(ks[x], ks[i - 1], ks[i as int]);
            } else if y < i {
                assert(ks.take(i as int)[x] == ks[x] && ks.take(i as int)[y] == ks[y]);
            }
        }
        i += 1;
    }
    assert(ks.take(t.len() as int) =~= ks);
    true
}

/// Builds a table from entries in any order; a later entry replaces an earlier one with the
/// same name (`BTreeMap::from`).
pub fn table_from<V>(entries: Vec<(String, V)>) -> (r: Vec<(String, V)>)
    ensures
        is_table(r@),
        forall|name: Seq<char>| #[trigger] lookup(r@, name) == lookup(entries@, name),
{
    let ghost all = entries@;
    assert(all.len() == entries.len());
    let mut rest = entries;
    let mut out: Vec<(String, V)> = Vec::new();
    let mut i: usize = 0;
    while rest.len() > 0
        invariant
            i + rest@.len() == all.len(),
            all.len() <= usize::MAX,
            rest@ == all.skip(i as int),
            is_table(out@),
            forall|name: Seq<char>| #[trigger] lookup(out@, name) == lookup(all.take(i as int), name),
        decreases rest.len(),
    {
        let e = rest.remove(0);
        assert(all.take(i + 1).drop_last() == all.take(i as int));
        assert(all.take(i + 1).last() == e);
        assert(rest@ == all.skip(i + 1));
        let key = chars_of(e.0.as_str());
        let ghost before = out@;
        let mut p: usize = 0;
        while p < out.len() && chars_lt(&chars_of(out[p].0.as_str()), &key)
            invariant
                p <= out.len(),
                out@ == before,
                forall|k: int| 0 <= k < p ==> seq_lt(#[trigger] table_keys(before)[k], key@),
            decreases out.len() - p,
        {
            p += 1;
        }
        proof {
            if p < out.len() {
                lemma_lt_total(table_keys(before)[p as int], key@);
            }
        }
        let same = p < out.len() && chars_eq(&chars_of(out[p].0.as_str()), &key);
        if same {
            out.set(p, e);
        } else {
            out.insert(p, e);
        }
        proof {
            let after = out@;
            let kb = table_keys(before);
            let ka = table_keys(after);
            if same {
                assert forall|x: int, y: int| 0 <= x < y < ka.len() implies seq_lt(#[trigger] ka[x], #[trigger] ka[y]) by {
                    assert(ka[x] == kb[x] && ka[y] == kb[y]);
                }
            } else {
                assert forall|x: int, y: int| 0 <= x < y < ka.len() implies seq_lt(#[trigger] ka[x], #[trigger] ka[y]) by {
                    if y < p {
                        assert(ka[x] == kb[x] && ka[y] == kb[y]);
                    } else if y == p {
                        assert(ka[x] == kb[x]);
                    } else if x == p {
                        assert(ka[y] == kb[y - 1]);
                        if y - 1 > p {
                            lemma_lt_transitive(key@, kb[p as int], kb[y - 1]);
                        }
                    } else if x < p {
                        assert(ka[x] == kb[x] && ka[y] == kb[y - 1]);
                        if y - 1 > p {
                            lemma_lt_transitive(kb[x], kb[p as int], kb[y - 1]);
                        } else {
                            lemma_lt_transitive(kb[x], key@, kb[y - 1]);
                        }
                    } else {
                        assert(ka[x] == kb[x - 1] && ka[y] == kb[y - 1]);
                    }
                }
            }
            assert(is_table(after));
            assert forall|name: Seq<char>| #[trigger] lookup(after, name) == lookup(all.take(i + 1), name) by {
                if name == key@ {
                    let k = p as int;
                    assert(after[k] == e);
                    lemma_table_lookup(after, k);
                } else {
                    // Entries other than the new one are those of `before`.
                    lemma_lookup(before, name);
                    lemma_lookup(after, name);
                    if lookup(before, name) is Some {
                        let k = choose|k: int| 0 <= k < before.len() && (#[trigger] before[k]).0@ == name && lookup(before, name) == Some(before[k].1);
                        let k2 = if same || k < p { k } else { k + 1 };
                        assert(after[k2] == before[k]);
                        lemma_table_lookup(after, k2);
                    } else {
                        assert forall|k: int| 0 <= k < after.len() implies (#[trigger] after[k]).0@ != name by {
                            if k == p {
                            } else if same || k < p {
                                assert(after[k] == before[k]);
                            } else {
                                assert(after[k] == before[k - 1]);
                            }
                        }
                    }
                }
            }
        }
        i += 1;
    }
    assert(all.take(i as int) == all);
    out
}

} // verus!
