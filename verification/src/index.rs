//! Keyed lists: a sequence of (key, list) entries with distinct keys and
//! non-empty lists without repeats, as used by the two indexes of the
//! subscription manager.
use vstd::prelude::*;

verus! {

/// The position of the entry of key `k`, if any.
pub open spec fn ix_pos<K, V>(ix: Seq<(K, Seq<V>)>, k: K) -> Option<int> {
    if exists|i: int| 0 <= i < ix.len() && ix[i].0 == k {
        Some(choose|i: int| 0 <= i < ix.len() && ix[i].0 == k)
    } else {
        None
    }
}

/// The list of key `k` (empty when it has no entry).
pub open spec fn ix_get<K, V>(ix: Seq<(K, Seq<V>)>, k: K) -> Seq<V> {
    match ix_pos(ix, k) {
        Some(i) => ix[i].1,
        None => Seq::empty(),
    }
}

/// Keys are distinct, lists are non-empty and without repeats.
pub open spec fn ix_ok<K, V>(ix: Seq<(K, Seq<V>)>) -> bool {
    &&& forall|i: int, j: int| 0 <= i < j < ix.len() ==> #[trigger] ix[i].0 != #[trigger] ix[j].0
    &&& forall|i: int| 0 <= i < ix.len() ==> #[trigger] ix[i].1.len() > 0
    &&& forall|i: int| 0 <= i < ix.len() ==> #[trigger] ix[i].1.no_duplicates()
}

/// `l` without the element `x`, in order.
pub open spec fn without<V>(l: Seq<V>, x: V) -> Seq<V>
    decreases l.len(),
{
    if l.len() == 0 {
        Seq::empty()
    } else {
        let rest = without(l.drop_last(), x);
        if l.last() != x {
            rest.push(l.last())
        } else {
            rest
        }
    }
}

/// The index after `v` joins the list of `k` (at its end, unless already there).
pub open spec fn ix_insert<K, V>(ix: Seq<(K, Seq<V>)>, k: K, v: V) -> Seq<(K, Seq<V>)> {
    match ix_pos(ix, k) {
        Some(i) => if ix[i].1.contains(v) {
            ix
        } else {
            ix.update(i, (k, ix[i].1.push(v)))
        },
        None => ix.push((k, seq![v])),
    }
}

/// The index after `v` leaves the list of `k`; a list left empty goes.
pub open spec fn ix_remove<K, V>(ix: Seq<(K, Seq<V>)>, k: K, v: V) -> Seq<(K, Seq<V>)> {
    match ix_pos(ix, k) {
        Some(i) => if without(ix[i].1, v).len() == 0 {
            ix.remove(i)
        } else {
            ix.update(i, (k, without(ix[i].1, v)))
        },
        None => ix,
    }
}

/// The index after `v` leaves every list; lists left empty go.
pub open spec fn ix_drop_value<K, V>(ix: Seq<(K, Seq<V>)>, v: V) -> Seq<(K, Seq<V>)>
    decreases ix.len(),
{
    if ix.len() == 0 {
        Seq::empty()
    } else {
        let rest = ix_drop_value(ix.drop_last(), v);
        let l = without(ix.last().1, v);
        if l.len() == 0 {
            rest
        } else {
            rest.push((ix.last().0, l))
        }
    }
}

/// The index without the entry of `k`.
pub open spec fn ix_remove_key<K, V>(ix: Seq<(K, Seq<V>)>, k: K) -> Seq<(K, Seq<V>)> {
    match ix_pos(ix, k) {
        Some(i) => ix.remove(i),
        None => ix,
    }
}

/// The total length of all lists.
pub open spec fn ix_total<K, V>(ix: Seq<(K, Seq<V>)>) -> nat
    decreases ix.len(),
{
    if ix.len() == 0 {
        0
    } else {
        ix_total(ix.drop_last()) + ix.last().1.len()
    }
}

/// With distinct keys, the entry of `k` is at `i` when `ix[i]` has key `k`.
pub proof fn lemma_ix_pos_at<K, V>(ix: Seq<(K, Seq<V>)>, k: K, i: int)
    requires
        forall|a: int, b: int| 0 <= a < b < ix.len() ==> #[trigger] ix[a].0 != #[trigger] ix[b].0,
        0 <= i < ix.len(),
        ix[i].0 == k,
    ensures
        ix_pos(ix, k) == Some(i),
        ix_get(ix, k) == ix[i].1,
{
    let j = choose|j: int| 0 <= j < ix.len() && ix[j].0 == k;
    if j < i {
        assert(ix[j].0 != ix[i].0);
    } else if j > i {
        assert(ix[i].0 != ix[j].0);
    }
}

/// The list of `y`, found at any position holding key `y`, or empty when none does.
pub proof fn lemma_ix_get_found<K, V>(ix: Seq<(K, Seq<V>)>, y: K)
    requires
        ix_ok(ix),
    ensures
        forall|i: int| 0 <= i < ix.len() && ix[i].0 == y ==> ix_get(ix, y) == #[trigger] ix[i].1,
        (forall|i: int| 0 <= i < ix.len() ==> #[trigger] ix[i].0 != y) ==> ix_get(ix, y)
            == Seq::<V>::empty(),
{
    assert forall|i: int| 0 <= i < ix.len() && ix[i].0 == y implies ix_get(ix, y)
        == #[trigger] ix[i].1 by {
        lemma_ix_pos_at(ix, y, i);
    }
}

/// `without` keeps exactly the other elements, keeps lists free of
/// repeats, and removes at least one element exactly when `x` was there.
pub proof fn lemma_without<V>(l: Seq<V>, x: V)
    ensures
        forall|y: V| #[trigger] without(l, x).contains(y) <==> (l.contains(y) && y != x),
        l.no_duplicates() ==> without(l, x).no_duplicates(),
        without(l, x).len() <= l.len(),
        without(l, x).len() < l.len() <==> l.contains(x),
        !l.contains(x) ==> without(l, x) == l,
    decreases l.len(),
{
    if l.len() > 0 {
        let d = l.drop_last();
        lemma_without(d, x);
        let w = without(d, x);
        let r = without(l, x);
        assert forall|y: V| #[trigger] r.contains(y) <==> (l.contains(y) && y != x) by {
            if r.contains(y) {
                let k = choose|k: int| 0 <= k < r.len() && r[k] == y;
                if k < w.len() {
                    assert(w[k] == y);
                    assert(w.contains(y));
                    let j = choose|j: int| 0 <= j < d.len() && d[j] == y;
                    assert(l[j] == y);
                } else {
                    assert(l[l.len() - 1] == y);
                }
            }
            if l.contains(y) && y != x {
                let k = choose|k: int| 0 <= k < l.len() && l[k] == y;
                if k < l.len() - 1 {
                    assert(d[k] == y);
                    assert(w.contains(y));
                    let j = choose|j: int| 0 <= j < w.len() && w[j] == y;
                    assert(r[j] == y);
                } else {
                    assert(r[w.len() as int] == y);
                }
            }
        }
        if l.no_duplicates() {
            assert(d.no_duplicates());
            if l.last() != x {
                assert(!w.contains(l.last())) by {
                    if w.contains(l.last()) {
                        let j = choose|j: int| 0 <= j < d.len() && d[j] == l.last();
                        assert(l[j] == l[l.len() - 1]);
                    }
                }
            }
        }
        if l.contains(x) {
            if l.last() != x {
                let k = choose|k: int| 0 <= k < l.len() && l[k] == x;
                assert(d[k] == x);
            }
        }
        if d.contains(x) {
            let k = choose|k: int| 0 <= k < d.len() && d[k] == x;
            assert(l[k] == x);
        }
        if !l.contains(x) {
            assert(l.last() != x) by {
                assert(l[l.len() - 1] == l.last());
            }
            assert(!d.contains(x)) by {
                if d.contains(x) {
                    let k = choose|k: int| 0 <= k < d.len() && d[k] == x;
                    assert(l[k] == x);
                }
            }
            assert(d.push(l.last()) =~= l);
        }
    }
}

/// After `v` joins the list of `k`, that list holds `v` (added at the end
/// when new); other lists stay.
pub proof fn lemma_ix_insert<K, V>(ix: Seq<(K, Seq<V>)>, k: K, v: V, y: K)
    requires
        ix_ok(ix),
    ensures
        ix_ok(ix_insert(ix, k, v)),
        ix_get(ix_insert(ix, k, v), y) == if y == k {
            if ix_get(ix, k).contains(v) {
                ix_get(ix, k)
            } else {
                ix_get(ix, k).push(v)
            }
        } else {
            ix_get(ix, y)
        },
{
    let d = ix_insert(ix, k, v);
    lemma_ix_get_found(ix, y);
    lemma_ix_get_found(ix, k);
    match ix_pos(ix, k) {
        Some(i) => {
            assert(ix[i].0 == k);
            if !ix[i].1.contains(v) {
                assert(ix_ok(d)) by {
                    assert forall|a: int, b: int| 0 <= a < b < d.len() implies #[trigger] d[a].0
                        != #[trigger] d[b].0 by {
                        assert(d[a].0 == ix[a].0 && d[b].0 == ix[b].0);
                    }
                    assert(d[i].1.no_duplicates()) by {
                        assert(ix[i].1.no_duplicates());
                        assert forall|a: int, b: int| 0 <= a < b < d[i].1.len() implies d[i].1[a]
                            != d[i].1[b] by {
                            if b == ix[i].1.len() {
                                assert(ix[i].1.contains(ix[i].1[a]));
                            }
                        }
                    }
                }
                lemma_ix_get_found(d, y);
                assert(d[i].0 == k);
                if y != k {
                    assert forall|a: int| 0 <= a < d.len() && d[a].0 == y implies d[a] == ix[a] by {}
                }
            }
        },
        None => {
            assert(ix_ok(d)) by {
                assert forall|a: int, b: int| 0 <= a < b < d.len() implies #[trigger] d[a].0
                    != #[trigger] d[b].0 by {
                    if b == ix.len() {
                        assert(d[a] == ix[a]);
                    }
                }
            }
            lemma_ix_get_found(d, y);
            assert(d[ix.len() as int].0 == k);
            assert(seq![v] =~= Seq::<V>::empty().push(v));
            if y != k {
                assert forall|a: int| 0 <= a < d.len() && d[a].0 == y implies d[a] == ix[a] by {}
            }
        },
    }
}

/// Removing the entry at `i` keeps the index well formed, and the lists of
/// the other keys.
proof fn lemma_ix_remove_at<K, V>(ix: Seq<(K, Seq<V>)>, i: int, y: K)
    requires
        ix_ok(ix),
        0 <= i < ix.len(),
    ensures
        ix_ok(ix.remove(i)),
        ix_get(ix.remove(i), y) == if y == ix[i].0 {
            Seq::<V>::empty()
        } else {
            ix_get(ix, y)
        },
{
    let d = ix.remove(i);
    lemma_ix_get_found(ix, y);
    assert forall|a: int| 0 <= a < d.len() implies #[trigger] d[a] == ix[if a < i {
        a
    } else {
        a + 1
    }] by {}
    assert(ix_ok(d)) by {
        assert forall|a: int, b: int| 0 <= a < b < d.len() implies #[trigger] d[a].0
            != #[trigger] d[b].0 by {
            let a2 = if a < i { a } else { a + 1 };
            let b2 = if b < i { b } else { b + 1 };
            assert(d[a] == ix[a2] && d[b] == ix[b2]);
        }
        assert forall|a: int| 0 <= a < d.len() implies #[trigger] d[a].1.len() > 0 by {
            let a2 = if a < i { a } else { a + 1 };
            assert(d[a] == ix[a2]);
        }
        assert forall|a: int| 0 <= a < d.len() implies #[trigger] d[a].1.no_duplicates() by {
            let a2 = if a < i { a } else { a + 1 };
            assert(d[a] == ix[a2]);
        }
    }
    lemma_ix_get_found(d, y);
    if y == ix[i].0 {
        assert forall|a: int| 0 <= a < d.len() implies #[trigger] d[a].0 != y by {
            let a2 = if a < i { a } else { a + 1 };
            assert(d[a] == ix[a2]);
            if a2 < i {
                assert(ix[a2].0 != ix[i].0);
            } else {
                assert(ix[i].0 != ix[a2].0);
            }
        }
    } else {
        if let Some(j) = ix_pos(ix, y) {
            assert(ix[j].0 == y);
            let j2 = if j < i { j } else { j - 1 };
            assert(d[j2] == ix[j]);
        } else {
            assert forall|a: int| 0 <= a < d.len() implies #[trigger] d[a].0 != y by {
                let a2 = if a < i { a } else { a + 1 };
                assert(d[a] == ix[a2]);
            }
        }
    }
}

/// After `v` leaves the list of `k`, that list is the others; other lists stay.
pub proof fn lemma_ix_remove<K, V>(ix: Seq<(K, Seq<V>)>, k: K, v: V, y: K)
    requires
        ix_ok(ix),
    ensures
        ix_ok(ix_remove(ix, k, v)),
        ix_get(ix_remove(ix, k, v), y) == if y == k {
            without(ix_get(ix, k), v)
        } else {
            ix_get(ix, y)
        },
{
    let d = ix_remove(ix, k, v);
    lemma_ix_get_found(ix, y);
    lemma_ix_get_found(ix, k);
    match ix_pos(ix, k) {
        Some(i) => {
            assert(ix[i].0 == k);
            let w = without(ix[i].1, v);
            lemma_without(ix[i].1, v);
            if w.len() == 0 {
                lemma_ix_remove_at(ix, i, y);
                if y == k {
                    assert(w =~= Seq::<V>::empty());
                }
            } else {
                assert(ix_ok(d)) by {
                    assert forall|a: int, b: int| 0 <= a < b < d.len() implies #[trigger] d[a].0
                        != #[trigger] d[b].0 by {
                        assert(d[a].0 == ix[a].0 && d[b].0 == ix[b].0);
                    }
                }
                lemma_ix_get_found(d, y);
                assert(d[i].0 == k);
                if y != k {
                    assert forall|a: int| 0 <= a < d.len() && d[a].0 == y implies d[a] == ix[a] by {}
                }
            }
        },
        None => {
            if y == k {
                assert(without(Seq::<V>::empty(), v) =~= Seq::<V>::empty());
            }
        },
    }
}

/// After the entry of `k` goes, `k` has an empty list; other lists stay.
pub proof fn lemma_ix_remove_key<K, V>(ix: Seq<(K, Seq<V>)>, k: K, y: K)
    requires
        ix_ok(ix),
    ensures
        ix_ok(ix_remove_key(ix, k)),
        ix_get(ix_remove_key(ix, k), y) == if y == k {
            Seq::<V>::empty()
        } else {
            ix_get(ix, y)
        },
{
    lemma_ix_get_found(ix, y);
    lemma_ix_get_found(ix, k);
    if let Some(i) = ix_pos(ix, k) {
        assert(ix[i].0 == k);
        lemma_ix_remove_at(ix, i, y);
    }
}

/// After `v` leaves every list, each list is its others.
pub proof fn lemma_ix_drop_value<K, V>(ix: Seq<(K, Seq<V>)>, v: V, y: K)
    requires
        ix_ok(ix),
    ensures
        ix_ok(ix_drop_value(ix, v)),
        forall|a: int| 0 <= a < ix_drop_value(ix, v).len() ==> exists|b: int|
            0 <= b < ix.len() && ix[b].0 == #[trigger] ix_drop_value(ix, v)[a].0,
        ix_get(ix_drop_value(ix, v), y) == without(ix_get(ix, y), v),
    decreases ix.len(),
{
    let r = ix_drop_value(ix, v);
    lemma_ix_get_found(ix, y);
    if ix.len() == 0 {
        assert(without(Seq::<V>::empty(), v) =~= Seq::<V>::empty());
        lemma_ix_get_found(r, y);
    } else {
        let d = ix.drop_last();
        let last = ix.last();
        assert(ix_ok(d)) by {
            assert forall|a: int, b: int| 0 <= a < b < d.len() implies #[trigger] d[a].0
                != #[trigger] d[b].0 by {
                assert(d[a] == ix[a] && d[b] == ix[b]);
            }
            assert forall|a: int| 0 <= a < d.len() implies #[trigger] d[a].1.len() > 0 by {
                assert(d[a] == ix[a]);
            }
            assert forall|a: int| 0 <= a < d.len() implies #[trigger] d[a].1.no_duplicates() by {
                assert(d[a] == ix[a]);
            }
        }
        lemma_ix_drop_value(d, v, y);
        let e = ix_drop_value(d, v);
        let l = without(last.1, v);
        lemma_without(last.1, v);
        assert(ix[ix.len() - 1] == last);
        assert forall|a: int| 0 <= a < e.len() implies #[trigger] e[a].0 != last.0 by {
            let b = choose|b: int| 0 <= b < d.len() && d[b].0 == e[a].0;
            assert(ix[b] == d[b]);
            assert(ix[b].0 != ix[ix.len() - 1].0);
        }
        assert forall|a: int| 0 <= a < r.len() implies exists|b: int|
            0 <= b < ix.len() && ix[b].0 == #[trigger] r[a].0 by {
            if a < e.len() {
                assert(r[a] == e[a]);
                let b = choose|b: int| 0 <= b < d.len() && d[b].0 == e[a].0;
                assert(ix[b] == d[b]);
            } else {
                assert(r[a].0 == ix[ix.len() - 1].0);
            }
        }
        assert(ix_ok(r)) by {
            assert forall|a: int, b: int| 0 <= a < b < r.len() implies #[trigger] r[a].0
                != #[trigger] r[b].0 by {
                assert(r[a] == e[a]);
                if b < e.len() {
                    assert(r[b] == e[b]);
                } else {
                    assert(r[b].0 == last.0);
                }
            }
            assert forall|a: int| 0 <= a < r.len() implies #[trigger] r[a].1.len() > 0 by {
                if a < e.len() {
                    assert(r[a] == e[a]);
                }
            }
            assert forall|a: int| 0 <= a < r.len() implies #[trigger] r[a].1.no_duplicates() by {
                if a < e.len() {
                    assert(r[a] == e[a]);
                }
            }
        }
        lemma_ix_get_found(e, y);
        lemma_ix_get_found(r, y);
        lemma_ix_get_found(d, y);
        if y == last.0 {
            assert forall|a: int| 0 <= a < d.len() implies #[trigger] d[a].0 != y by {
                assert(d[a] == ix[a]);
                assert(ix[a].0 != ix[ix.len() - 1].0);
            }
            assert(ix_get(ix, y) == last.1);
            if l.len() == 0 {
                assert forall|a: int| 0 <= a < r.len() implies #[trigger] r[a].0 != y by {
                    assert(r[a] == e[a]);
                }
                assert(l =~= Seq::<V>::empty());
            } else {
                assert(r[e.len() as int] == (last.0, l));
            }
        } else {
            assert forall|a: int| 0 <= a < ix.len() && ix[a].0 == y implies a < d.len()
                && #[trigger] d[a] == ix[a] by {}
            if let Some(j) = ix_pos(d, y) {
                assert(d[j].0 == y);
                assert(ix[j] == d[j]);
            } else {
                assert forall|a: int| 0 <= a < ix.len() implies #[trigger] ix[a].0 != y by {
                    if a < d.len() {
                        assert(d[a] == ix[a]);
                    }
                }
            }
            if let Some(j) = ix_pos(e, y) {
                assert(e[j].0 == y);
                assert(r[j] == e[j]);
            } else {
                assert forall|a: int| 0 <= a < r.len() implies #[trigger] r[a].0 != y by {
                    if a < e.len() {
                        assert(r[a] == e[a]);
                    }
                }
            }
        }
    }
}

} // verus!
