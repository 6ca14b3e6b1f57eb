//! Lexicographic order on character sequences (the order `String`'s `Ord` gives, since UTF-8
//! byte order and code-point order agree) and sorted, duplicate-free lists under it.

use vstd::prelude::*;

verus! {

/// `a` sorts strictly before `b`.
pub open spec fn seq_lt(a: Seq<char>, b: Seq<char>) -> bool
    decreases a.len(),
{
    if a.len() == 0 {
        b.len() > 0
    } else if b.len() == 0 {
        false
    } else if a[0] != b[0] {
        a[0] < b[0]
    } else {
        seq_lt(a.skip(1), b.skip(1))
    }
}

/// No sequence sorts before itself.
pub proof fn lemma_lt_irreflexive(a: Seq<char>)
    ensures
        !seq_lt(a, a),
    decreases a.len(),
{
    if a.len() > 0 {
        lemma_lt_irreflexive(a.skip(1));
    }
}

/// The order is asymmetric.
pub proof fn lemma_lt_asymmetric(a: Seq<char>, b: Seq<char>)
    ensures
        seq_lt(a, b) ==> !seq_lt(b, a),
    decreases a.len(),
{
    if a.len() > 0 && b.len() > 0 && a[0] == b[0] {
        lemma_lt_asymmetric(a.skip(1), b.skip(1));
    }
}

/// The order is transitive.
pub proof fn lemma_lt_transitive(a: Seq<char>, b: Seq<char>, c: Seq<char>)
    requires
        seq_lt(a, b),
        seq_lt(b, c),
    ensures
        seq_lt(a, c),
    decreases a.len(),
{
    if a.len() > 0 && b.len() > 0 && c.len() > 0 && a[0] == b[0] && b[0] == c[0] {
        lemma_lt_transitive(a.skip(1), b.skip(1), c.skip(1));
    }
}

/// Two different sequences are ordered one way or the other.
pub proof fn lemma_lt_total(a: Seq<char>, b: Seq<char>)
    ensures
        a == b || seq_lt(a, b) || seq_lt(b, a),
    decreases a.len(),
{
    if a.len() > 0 && b.len() > 0 && a[0] == b[0] {
        lemma_lt_total(a.skip(1), b.skip(1));
        if a.skip(1) == b.skip(1) {
            assert(a =~= seq![a[0]] + a.skip(1));
            assert(b =~= seq![b[0]] + b.skip(1));
        }
    } else if a.len() > 0 && b.len() > 0 {
    } else if a.len() == 0 && b.len() == 0 {
        assert(a =~= b);
    }
}

/// A common prefix does not change the order.
pub proof fn lemma_lt_prefix(p: Seq<char>, a: Seq<char>, b: Seq<char>)
    ensures
        seq_lt(p + a, p + b) == seq_lt(a, b),
    decreases p.len(),
{
    if p.len() > 0 {
        assert((p + a).skip(1) =~= p.skip(1) + a);
        assert((p + b).skip(1) =~= p.skip(1) + b);
        lemma_lt_prefix(p.skip(1), a, b);
    } else {
        assert(p + a =~= a);
        assert(p + b =~= b);
    }
}

/// Executable order test.
pub fn chars_lt(a: &[char], b: &[char]) -> (r: bool)
    ensures
        r == seq_lt(a@, b@),
{
    let mut i: usize = 0;
    assert(a@.skip(0) == a@ && b@.skip(0) == b@);
    while i < a.len() && i < b.len() && a[i] == b[i]
        invariant
            i <= a.len(),
            i <= b.len(),
            seq_lt(a@, b@) == seq_lt(a@.skip(i as int), b@.skip(i as int)),
        decreases a.len() - i,
    {
        assert(a@.skip(i as int).skip(1) == a@.skip(i + 1));
        assert(b@.skip(i as int).skip(1) == b@.skip(i + 1));
        i += 1;
    }
    if i == a.len() {
        i < b.len()
    } else if i == b.len() {
        false
    } else {
        a[i] < b[i]
    }
}

/// Every element sorts strictly before every later one.
pub open spec fn sorted_strict(s: Seq<Seq<char>>) -> bool {
    forall|i: int, j: int| 0 <= i < j < s.len() ==> seq_lt(#[trigger] s[i], #[trigger] s[j])
}

/// The views of a list of character vectors.
pub open spec fn vviews(v: Seq<Vec<char>>) -> Seq<Seq<char>> {
    v.map_values(|x: Vec<char>| x@)
}

/// Inserts `x` into a strictly sorted list unless it is already there.
pub fn insert_sorted(list: &mut Vec<Vec<char>>, x: Vec<char>)
    requires
        sorted_strict(vviews(old(list)@)),
    ensures
        sorted_strict(vviews(final(list)@)),
        vviews(final(list)@).to_set() == vviews(old(list)@).to_set().insert(x@),
{
    let ghost before = vviews(list@);
    let mut p: usize = 0;
    while p < list.len() && chars_lt(&list[p], &x)
        invariant
            p <= list.len(),
            vviews(list@) == before,
            forall|i: int| 0 <= i < p ==> seq_lt(#[trigger] before[i], x@),
        decreases list.len() - p,
    {
        p += 1;
    }
    if p < list.len() && crate::text::chars_eq(&list[p], &x) {
        assert(before.to_set() == before.to_set().insert(x@)) by {
            assert(before[p as int] == x@);
        }
        return;
    }
    proof {
        if p < list.len() {
            lemma_lt_total(before[p as int], x@);
        }
    }
    list.insert(p, x);
    proof {
        let after = vviews(list@);
        assert(after =~= before.take(p as int).push(x@) + before.skip(p as int));
        assert forall|i: int, j: int| 0 <= i < j < after.len() implies seq_lt(
            #[trigger] after[i],
            #[trigger] after[j],
        ) by {
            if j < p {
                assert(after[i] == before[i] && after[j] == before[j]);
            } else if j == p {
                assert(after[i] == before[i]);
            } else if i == p {
                assert(after[j] == before[j - 1]);
                if j - 1 > p {
                    lemma_lt_transitive(x@, before[p as int], before[j - 1]);
                }
            } else if i < p {
                assert(after[i] == before[i] && after[j] == before[j - 1]);
                if i != j - 1 {
                }
            } else {
                assert(after[i] == before[i - 1] && after[j] == before[j - 1]);
            }
        }
        assert forall|e: Seq<char>| after.to_set().contains(e) <==> before.to_set().insert(
            x@,
        ).contains(e) by {
            if after.to_set().contains(e) {
                let k = choose|k: int| 0 <= k < after.len() && after[k] == e;
                if k < p {
                    assert(before[k] == e);
                } else if k > p {
                    assert(before[k - 1] == e);
                }
            }
            if before.to_set().contains(e) {
                let k = choose|k: int| 0 <= k < before.len() && before[k] == e;
                if k < p {
                    assert(after[k] == e);
                } else {
                    assert(after[k + 1] == e);
                }
            }
            if e == x@ {
                assert(after[p as int] == e);
            }
        }
        assert(after.to_set() =~= before.to_set().insert(x@));
    }
}

/// Whether `x` is in the list.
pub fn member(list: &Vec<Vec<char>>, x: &[char]) -> (r: bool)
    ensures
        r == vviews(list@).contains(x@),
{
    let mut i: usize = 0;
    while i < list.len()
        invariant
            i <= list.len(),
            forall|k: int| 0 <= k < i ==> vviews(list@)[k] != x@,
        decreases list.len() - i,
    {
        if crate::text::chars_eq(&list[i], x) {
            assert(vviews(list@)[i as int] == x@);
            return true;
        }
        i += 1;
    }
    false
}

/// The set of the non-empty strings of a list.
pub open spec fn nonempty_set(v: Seq<String>) -> Set<Seq<char>> {
    Set::new(|s: Seq<char>| s.len() > 0 && exists|i: int| 0 <= i < v.len() && (#[trigger] v[i])@ == s)
}

/// The non-empty strings of a list, sorted and without duplicates.
pub fn sorted_nonempty(v: &[String]) -> (r: Vec<Vec<char>>)
    ensures
        sorted_strict(vviews(r@)),
        vviews(r@).to_set() == nonempty_set(v@),
{
    let mut out: Vec<Vec<char>> = Vec::new();
    let mut i: usize = 0;
    assert(vviews(out@).to_set() =~= Set::empty());
    while i < v.len()
        invariant
            i <= v.len(),
            sorted_strict(vviews(out@)),
            vviews(out@).to_set() == nonempty_set(v@.take(i as int)),
        decreases v.len() - i,
    {
        let x = crate::text::chars_of(v[i].as_str());
        let ghost before = vviews(out@).to_set();
        if x.len() > 0 {
            insert_sorted(&mut out, x);
        }
        proof {
            assert forall|s: Seq<char>| #[trigger] nonempty_set(v@.take(i + 1)).contains(s) <==> (if v@[i as int]@.len() > 0 { before.insert(v@[i as int]@) } else { before }).contains(s) by {
                if nonempty_set(v@.take(i + 1)).contains(s) {
                    let k = choose|k: int| 0 <= k < i + 1 && (#[trigger] v@.take(i + 1)[k])@ == s;
                    if k < i {
                        assert(v@.take(i as int)[k]@ == s);
                    }
                }
                if before.contains(s) {
                    let k = choose|k: int| 0 <= k < i && (#[trigger] v@.take(i as int)[k])@ == s;
                    assert(v@.take(i + 1)[k]@ == s);
                }
                if v@[i as int]@.len() > 0 && s == v@[i as int]@ {
                    assert(v@.take(i + 1)[i as int]@ == s);
                }
            }
            assert(nonempty_set(v@.take(i + 1)) =~= (if v@[i as int]@.len() > 0 { before.insert(v@[i as int]@) } else { before }));
        }
        i += 1;
    }
    assert(v@.take(v.len() as int) == v@);
    out
}

/// The elements of a sorted list that are not in `other`, in order.
pub fn sorted_minus(list: &Vec<Vec<char>>, other: &Vec<Vec<char>>) -> (r: Vec<Vec<char>>)
    requires
        sorted_strict(vviews(list@)),
    ensures
        sorted_strict(vviews(r@)),
        vviews(r@).to_set() == vviews(list@).to_set().difference(vviews(other@).to_set()),
{
    let ghost l = vviews(list@);
    let mut out: Vec<Vec<char>> = Vec::new();
    let mut i: usize = 0;
    while i < list.len()
        invariant
            i <= list.len(),
            l == vviews(list@),
            sorted_strict(l),
            sorted_strict(vviews(out@)),
            forall|a: int| 0 <= a < out@.len() ==> exists|k: int| 0 <= k < i && #[trigger] vviews(out@)[a] == l[k],
            vviews(out@).to_set() == l.take(i as int).to_set().difference(vviews(other@).to_set()),
        decreases list.len() - i,
    {
        let ghost before = vviews(out@);
        if !member(other, &list[i]) {
            let item = crate::text::copy_chars(&list[i]);
            assert(item@ == l[i as int]);
            out.push(item);
            proof {
                let after = vviews(out@);
                assert(after =~= before.push(l[i as int]));
                assert forall|a: int, b: int| 0 <= a < b < after.len() implies seq_lt(#[trigger] after[a], #[trigger] after[b]) by {
                    if b == after.len() - 1 {
                        let k = choose|k: int| 0 <= k < i && #[trigger] before[a] == l[k];
                        assert(after[a] == before[a]);
                    } else {
                        assert(after[a] == before[a] && after[b] == before[b]);
                    }
                }
                assert forall|a: int| 0 <= a < after.len() implies exists|k: int| 0 <= k < i + 1 && #[trigger] after[a] == l[k] by {
                    if a == after.len() - 1 {
                        assert(after[a] == l[i as int]);
                    } else {
                        assert(after[a] == before[a]);
                        let k = choose|k: int| 0 <= k < i && #[trigger] before[a] == l[k];
                        assert(after[a] == l[k]);
                    }
                }
            }
        }
        proof {
            let after = vviews(out@);
            assert(l.take(i + 1) == l.take(i as int).push(l[i as int]));
            l.take(i as int).lemma_push_to_set_commute(l[i as int]);
            if !vviews(other@).contains(l[i as int]) {
                assert(after =~= before.push(l[i as int]));
                before.lemma_push_to_set_commute(l[i as int]);
            } else {
                assert(after =~= before);
            }
            assert(after.to_set() =~= l.take(i + 1).to_set().difference(vviews(other@).to_set()));
        }
        i += 1;
    }
    assert(l.take(list.len() as int) == l);
    out
}

/// A strictly sorted list is determined by its set of elements.
pub proof fn lemma_sorted_unique(a: Seq<Seq<char>>, b: Seq<Seq<char>>)
    requires
        sorted_strict(a),
        sorted_strict(b),
        a.to_set() == b.to_set(),
    ensures
        a == b,
    decreases a.len(),
{
    if a.len() == 0 {
        if b.len() > 0 {
            assert(b.to_set().contains(b[0]));
        }
        assert(a =~= b);
    } else if b.len() == 0 {
        assert(a.to_set().contains(a[0]));
    } else {
        assert(b.to_set().contains(a[0]));
        assert(a.to_set().contains(b[0]));
        let ka = choose|k: int| 0 <= k < b.len() && b[k] == a[0];
        let kb = choose|k: int| 0 <= k < a.len() && a[k] == b[0];
        if a[0] != b[0] {
            assert(ka > 0 && kb > 0);
            assert(seq_lt(b[0], b[ka]));
            assert(seq_lt(a[0], a[kb]));
            lemma_lt_asymmetric(a[0], b[0]);
            assert(false);
        }
        let ta = a.skip(1);
        let tb = b.skip(1);
        assert forall|i: int, j: int| 0 <= i < j < ta.len() implies seq_lt(#[trigger] ta[i], #[trigger] ta[j]) by {
            assert(ta[i] == a[i + 1] && ta[j] == a[j + 1]);
        }
        assert forall|i: int, j: int| 0 <= i < j < tb.len() implies seq_lt(#[trigger] tb[i], #[trigger] tb[j]) by {
            assert(tb[i] == b[i + 1] && tb[j] == b[j + 1]);
        }
        assert forall|e: Seq<char>| #[trigger] ta.to_set().contains(e) <==> tb.to_set().contains(e) by {
            if ta.to_set().contains(e) {
                let k = choose|k: int| 0 <= k < ta.len() && ta[k] == e;
                assert(a[k + 1] == e);
                assert(seq_lt(a[0], e));
                lemma_lt_irreflexive(e);
                assert(b.to_set().contains(e));
                let m = choose|m: int| 0 <= m < b.len() && b[m] == e;
                assert(m != 0);
                assert(tb[m - 1] == e);
            }
            if tb.to_set().contains(e) {
                let k = choose|k: int| 0 <= k < tb.len() && tb[k] == e;
                assert(b[k + 1] == e);
                assert(seq_lt(b[0], e));
                lemma_lt_irreflexive(e);
                assert(a.to_set().contains(e));
                let m = choose|m: int| 0 <= m < a.len() && a[m] == e;
                assert(m != 0);
                assert(ta[m - 1] == e);
            }
        }
        assert(ta.to_set() =~= tb.to_set());
        lemma_sorted_unique(ta, tb);
        assert(a =~= seq![a[0]] + ta);
        assert(b =~= seq![b[0]] + tb);
    }
}

/// The strictly sorted list of a finite set's elements.
pub open spec fn sorted_of(s: Set<Seq<char>>) -> Seq<Seq<char>> {
    choose|q: Seq<Seq<char>>| sorted_strict(q) && q.to_set() == s
}

/// A strictly sorted list is `sorted_of` its elements.
pub proof fn lemma_sorted_of(q: Seq<Seq<char>>)
    requires
        sorted_strict(q),
    ensures
        sorted_of(q.to_set()) == q,
{
    let r = sorted_of(q.to_set());
    assert(sorted_strict(r) && r.to_set() == q.to_set());
    lemma_sorted_unique(r, q);
}

/// A strictly sorted list with one more element that it lacks can be sorted again.
proof fn lemma_sorted_insert_exists(r: Seq<Seq<char>>, x: Seq<char>)
    requires
        sorted_strict(r),
        !r.contains(x),
    ensures
        exists|r2: Seq<Seq<char>>| sorted_strict(r2) && r2.to_set() == r.to_set().insert(x),
    decreases r.len(),
{
    if r.len() == 0 {
        let r2 = seq![x];
        assert(r2.to_set() =~= r.to_set().insert(x)) by {
            assert forall|e: Seq<char>| r2.to_set().contains(e) <==> r.to_set().insert(x).contains(e) by {
                if r2.to_set().contains(e) {
                    let k = choose|k: int| 0 <= k < r2.len() && r2[k] == e;
                    assert(k == 0);
                }
                if e == x {
                    assert(r2[0] == x);
                }
            }
        }
    } else {
        lemma_lt_total(x, r[0]);
        assert(r[0] != x);
        if seq_lt(x, r[0]) {
            let r2 = seq![x] + r;
            assert forall|i: int, j: int| 0 <= i < j < r2.len() implies seq_lt(#[trigger] r2[i], #[trigger] r2[j]) by {
                if i == 0 {
                    if j > 1 {
                        lemma_lt_transitive(x, r[0], r[j - 1]);
                    }
                } else {
                    assert(r2[i] == r[i - 1] && r2[j] == r[j - 1]);
                }
            }
            assert forall|e: Seq<char>| r2.to_set().contains(e) <==> r.to_set().insert(x).contains(e) by {
                if r2.to_set().contains(e) {
                    let k = choose|k: int| 0 <= k < r2.len() && r2[k] == e;
                    if k > 0 {
                        assert(r[k - 1] == e);
                    }
                }
                if r.to_set().contains(e) {
                    let k = choose|k: int| 0 <= k < r.len() && r[k] == e;
                    assert(r2[k + 1] == e);
                }
                if e == x {
                    assert(r2[0] == x);
                }
            }
            assert(r2.to_set() =~= r.to_set().insert(x));
        } else {
            let t = r.skip(1);
            assert forall|i: int, j: int| 0 <= i < j < t.len() implies seq_lt(#[trigger] t[i], #[trigger] t[j]) by {
                assert(t[i] == r[i + 1] && t[j] == r[j + 1]);
            }
            assert(!t.contains(x)) by {
                if t.contains(x) {
                    let k = choose|k: int| 0 <= k < t.len() && t[k] == x;
                    assert(r[k + 1] == x);
                }
            }
            lemma_sorted_insert_exists(t, x);
            let t2 = choose|r2: Seq<Seq<char>>| sorted_strict(r2) && r2.to_set() == t.to_set().insert(x);
            let r2 = seq![r[0]] + t2;
            assert forall|i: int, j: int| 0 <= i < j < r2.len() implies seq_lt(#[trigger] r2[i], #[trigger] r2[j]) by {
                if i == 0 {
                    assert(r2[j] == t2[j - 1]);
                    assert(t2.to_set().contains(t2[j - 1]));
                    if t2[j - 1] != x {
                        assert(t.to_set().contains(t2[j - 1]));
                        let k = choose|k: int| 0 <= k < t.len() && t[k] == t2[j - 1];
                        assert(r[k + 1] == t2[j - 1]);
                    }
                } else {
                    assert(r2[i] == t2[i - 1] && r2[j] == t2[j - 1]);
                }
            }
            assert forall|e: Seq<char>| r2.to_set().contains(e) <==> r.to_set().insert(x).contains(e) by {
                if r2.to_set().contains(e) {
                    let k = choose|k: int| 0 <= k < r2.len() && r2[k] == e;
                    if k > 0 {
                        assert(t2[k - 1] == e);
                        assert(t2.to_set().contains(e));
                        if e != x {
                            assert(t.to_set().contains(e));
                            let m = choose|m: int| 0 <= m < t.len() && t[m] == e;
                            assert(r[m + 1] == e);
                        }
                    } else {
                        assert(r[0] == e);
                    }
                }
                if r.to_set().insert(x).contains(e) {
                    if e == r[0] {
                        assert(r2[0] == e);
                    } else {
                        if e != x {
                            let m = choose|m: int| 0 <= m < r.len() && r[m] == e;
                            assert(m > 0);
                            assert(t[m - 1] == e);
                            assert(t.to_set().contains(e));
                        }
                        assert(t2.to_set().contains(e));
                        let k = choose|k: int| 0 <= k < t2.len() && t2[k] == e;
                        assert(r2[k + 1] == e);
                    }
                }
            }
            assert(r2.to_set() =~= r.to_set().insert(x));
        }
    }
}

/// The elements of any list have a strictly sorted enumeration, and `sorted_of` is one.
pub proof fn lemma_sorted_of_seq(q: Seq<Seq<char>>)
    ensures
        sorted_strict(sorted_of(q.to_set())),
        sorted_of(q.to_set()).to_set() == q.to_set(),
    decreases q.len(),
{
    if q.len() == 0 {
        let e: Seq<Seq<char>> = Seq::empty();
        assert(e.to_set() =~= q.to_set());
        assert(sorted_strict(e));
    } else {
        let d = q.drop_last();
        let x = q.last();
        lemma_sorted_of_seq(d);
        let r = sorted_of(d.to_set());
        assert(q.to_set() =~= d.to_set().insert(x)) by {
            assert forall|e: Seq<char>| q.to_set().contains(e) <==> d.to_set().insert(x).contains(e) by {
                if q.to_set().contains(e) {
                    let k = choose|k: int| 0 <= k < q.len() && q[k] == e;
                    if k < q.len() - 1 {
                        assert(d[k] == e);
                    }
                }
                if d.to_set().contains(e) {
                    let k = choose|k: int| 0 <= k < d.len() && d[k] == e;
                    assert(q[k] == e);
                }
                if e == x {
                    assert(q[q.len() - 1] == x);
                }
            }
        }
        if r.contains(x) {
            assert(r.to_set().contains(x));
            assert(d.to_set().insert(x) =~= d.to_set());
        } else {
            lemma_sorted_insert_exists(r, x);
        }
    }
}

/// Tuples of strings compared component by component (the derived order of a tuple).
pub open spec fn key_lt(a: Seq<Seq<char>>, b: Seq<Seq<char>>) -> bool
    decreases a.len(),
{
    if a.len() == 0 {
        b.len() > 0
    } else if b.len() == 0 {
        false
    } else if a[0] != b[0] {
        seq_lt(a[0], b[0])
    } else {
        key_lt(a.skip(1), b.skip(1))
    }
}

/// No key sorts before itself.
pub proof fn lemma_key_irreflexive(a: Seq<Seq<char>>)
    ensures
        !key_lt(a, a),
    decreases a.len(),
{
    if a.len() > 0 {
        lemma_key_irreflexive(a.skip(1));
    }
}

/// The key order is transitive.
pub proof fn lemma_key_transitive(a: Seq<Seq<char>>, b: Seq<Seq<char>>, c: Seq<Seq<char>>)
    requires
        key_lt(a, b),
        key_lt(b, c),
    ensures
        key_lt(a, c),
    decreases a.len(),
{
    if a.len() > 0 && b.len() > 0 && c.len() > 0 {
        if a[0] == b[0] && b[0] == c[0] {
            lemma_key_transitive(a.skip(1), b.skip(1), c.skip(1));
        } else if a[0] == b[0] {
        } else if b[0] == c[0] {
        } else {
            lemma_lt_transitive(a[0], b[0], c[0]);
            if a[0] == c[0] {
                lemma_lt_asymmetric(a[0], b[0]);
            }
        }
    }
}

/// Two different keys are ordered one way or the other.
pub proof fn lemma_key_total(a: Seq<Seq<char>>, b: Seq<Seq<char>>)
    ensures
        a == b || key_lt(a, b) || key_lt(b, a),
    decreases a.len(),
{
    if a.len() > 0 && b.len() > 0 && a[0] == b[0] {
        lemma_key_total(a.skip(1), b.skip(1));
        if a.skip(1) == b.skip(1) {
            assert(a =~= seq![a[0]] + a.skip(1));
            assert(b =~= seq![b[0]] + b.skip(1));
        }
    } else if a.len() > 0 && b.len() > 0 {
        lemma_lt_total(a[0], b[0]);
    } else if a.len() == 0 && b.len() == 0 {
        assert(a =~= b);
    }
}

/// Every key sorts strictly before every later one.
pub open spec fn keys_sorted(s: Seq<Seq<Seq<char>>>) -> bool {
    forall|i: int, j: int| 0 <= i < j < s.len() ==> key_lt(#[trigger] s[i], #[trigger] s[j])
}

/// The view of a key.
pub open spec fn kview(k: Vec<Vec<char>>) -> Seq<Seq<char>> {
    k@.map_values(|x: Vec<char>| x@)
}

/// The views of a list of keys.
pub open spec fn kviews(v: Seq<Vec<Vec<char>>>) -> Seq<Seq<Seq<char>>> {
    v.map_values(|k: Vec<Vec<char>>| kview(k))
}

/// Executable key order test.
pub fn keys_lt(a: &Vec<Vec<char>>, b: &Vec<Vec<char>>) -> (r: bool)
    ensures
        r == key_lt(kview(*a), kview(*b)),
{
    let ghost ka = kview(*a);
    let ghost kb = kview(*b);
    let mut i: usize = 0;
    assert(ka.skip(0) == ka && kb.skip(0) == kb);
    while i < a.len() && i < b.len() && crate::text::chars_eq(&a[i], &b[i])
        invariant
            i <= a.len(),
            i <= b.len(),
            ka == kview(*a),
            kb == kview(*b),
            key_lt(ka, kb) == key_lt(ka.skip(i as int), kb.skip(i as int)),
        decreases a.len() - i,
    {
        assert(ka.skip(i as int).skip(1) == ka.skip(i + 1));
        assert(kb.skip(i as int).skip(1) == kb.skip(i + 1));
        i += 1;
    }
    if i == a.len() {
        i < b.len()
    } else if i == b.len() {
        false
    } else {
        chars_lt(&a[i], &b[i])
    }
}

/// Key equality.
pub fn keys_eq(a: &Vec<Vec<char>>, b: &Vec<Vec<char>>) -> (r: bool)
    ensures
        r == (kview(*a) == kview(*b)),
{
    if a.len() != b.len() {
        assert(kview(*a).len() != kview(*b).len());
        return false;
    }
    let mut i: usize = 0;
    while i < a.len()
        invariant
            a.len() == b.len(),
            i <= a.len(),
            forall|j: int| 0 <= j < i ==> kview(*a)[j] == kview(*b)[j],
        decreases a.len() - i,
    {
        if !crate::text::chars_eq(&a[i], &b[i]) {
            assert(kview(*a)[i as int] != kview(*b)[i as int]);
            return false;
        }
        i += 1;
    }
    assert(kview(*a) =~= kview(*b));
    true
}

/// Inserts `x` into a strictly sorted list of keys unless it is already there.
pub fn insert_key(list: &mut Vec<Vec<Vec<char>>>, x: Vec<Vec<char>>)
    requires
        keys_sorted(kviews(old(list)@)),
    ensures
        keys_sorted(kviews(final(list)@)),
        kviews(final(list)@).to_set() == kviews(old(list)@).to_set().insert(kview(x)),
{
    let ghost before = kviews(list@);
    let ghost xv = kview(x);
    let mut p: usize = 0;
    while p < list.len() && keys_lt(&list[p], &x)
        invariant
            p <= list.len(),
            kviews(list@) == before,
            xv == kview(x),
            forall|i: int| 0 <= i < p ==> key_lt(#[trigger] before[i], xv),
        decreases list.len() - p,
    {
        p += 1;
    }
    if p < list.len() && keys_eq(&list[p], &x) {
        assert(before.to_set() == before.to_set().insert(xv)) by {
            assert(before[p as int] == xv);
        }
        return;
    }
    proof {
        if p < list.len() {
            lemma_key_total(before[p as int], xv);
        }
    }
    list.insert(p, x);
    proof {
        let after = kviews(list@);
        assert(after =~= before.take(p as int).push(xv) + before.skip(p as int));
        assert forall|i: int, j: int| 0 <= i < j < after.len() implies key_lt(
            #[trigger] after[i],
            #[trigger] after[j],
        ) by {
            if j < p {
                assert(after[i] == before[i] && after[j] == before[j]);
            } else if j == p {
                assert(after[i] == before[i]);
            } else if i == p {
                assert(after[j] == before[j - 1]);
                if j - 1 > p {
                    lemma_key_transitive(xv, before[p as int], before[j - 1]);
                }
            } else if i < p {
                assert(after[i] == before[i] && after[j] == before[j - 1]);
            } else {
                assert(after[i] == before[i - 1] && after[j] == before[j - 1]);
            }
        }
        assert forall|e: Seq<Seq<char>>| #[trigger] after.to_set().contains(e) <==> before.to_set().insert(
            xv,
        ).contains(e) by {
            if after.to_set().contains(e) {
                let k = choose|k: int| 0 <= k < after.len() && after[k] == e;
                if k < p {
                    assert(before[k] == e);
                } else if k > p {
                    assert(before[k - 1] == e);
                }
            }
            if before.to_set().contains(e) {
                let k = choose|k: int| 0 <= k < before.len() && before[k] == e;
                if k < p {
                    assert(after[k] == e);
                } else {
                    assert(after[k + 1] == e);
                }
            }
            if e == xv {
                assert(after[p as int] == e);
            }
        }
        assert(after.to_set() =~= before.to_set().insert(xv));
    }
}

} // verus!
