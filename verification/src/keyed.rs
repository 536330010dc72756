//! Small tables held as a vector of (key, value) pairs with no two keys
//! alike, read as a map from key text to value view.
use vstd::prelude::*;

verus! {

/// Whether some entry of `s` has key text `k`.
pub open spec fn holds<K: View<V = Seq<char>>, V>(s: Seq<(K, V)>, k: Seq<char>) -> bool {
    exists|i: int| 0 <= i < s.len() && (#[trigger] s[i]).0@ == k
}

/// No two entries of `s` have the same key text.
pub open spec fn distinct<K: View<V = Seq<char>>, V>(s: Seq<(K, V)>) -> bool {
    forall|i: int, j: int|
        0 <= i < s.len() && 0 <= j < s.len() && i != j ==> (#[trigger] s[i]).0@ != (#[trigger] s[j]).0@
}

/// The entries as a map from key text to value view.
pub open spec fn table_view<K: View<V = Seq<char>>, V: View>(s: Seq<(K, V)>) -> Map<Seq<char>, V::V> {
    Map::new(
        |k: Seq<char>| holds(s, k),
        |k: Seq<char>| s[choose|i: int| 0 <= i < s.len() && (#[trigger] s[i]).0@ == k].1@,
    )
}

pub proof fn lemma_view_at<K: View<V = Seq<char>>, V: View>(s: Seq<(K, V)>, i: int)
    requires
        distinct(s),
        0 <= i < s.len(),
    ensures
        table_view(s).contains_key(s[i].0@),
        table_view(s)[s[i].0@] == s[i].1@,
{
    let k = s[i].0@;
    assert(holds(s, k));
    let j = choose|j: int| 0 <= j < s.len() && (#[trigger] s[j]).0@ == k;
    assert(j == i);
}

pub proof fn lemma_view_update<K: View<V = Seq<char>>, V: View>(s: Seq<(K, V)>, i: int, key: K, v: V)
    requires
        distinct(s),
        0 <= i < s.len(),
        key@ == s[i].0@,
    ensures
        distinct(s.update(i, (key, v))),
        table_view(s.update(i, (key, v))) =~= table_view(s).insert(key@, v@),
{
    let t = s.update(i, (key, v));
    assert forall|a: int, b: int|
        0 <= a < t.len() && 0 <= b < t.len() && a != b implies (#[trigger] t[a]).0@ != (#[trigger] t[b]).0@ by {
        assert(t[a].0@ == s[a].0@);
        assert(t[b].0@ == s[b].0@);
    }
    assert forall|k: Seq<char>| holds(t, k) <==> holds(s, k) by {
        if holds(t, k) {
            let j = choose|j: int| 0 <= j < t.len() && (#[trigger] t[j]).0@ == k;
            assert(s[j].0@ == k);
        }
        if holds(s, k) {
            let j = choose|j: int| 0 <= j < s.len() && (#[trigger] s[j]).0@ == k;
            assert(t[j].0@ == k);
        }
    }
    assert forall|k: Seq<char>| #[trigger] table_view(t).contains_key(k) implies table_view(t)[k]
        == table_view(s).insert(key@, v@)[k] by {
        let j = choose|j: int| 0 <= j < t.len() && (#[trigger] t[j]).0@ == k;
        if k == key@ {
            assert(j == i);
        } else {
            assert(j != i);
            assert(s[j].0@ == k);
            lemma_view_at(s, j);
        }
    }
}

pub proof fn lemma_view_push<K: View<V = Seq<char>>, V: View>(s: Seq<(K, V)>, key: K, v: V)
    requires
        distinct(s),
        !holds(s, key@),
    ensures
        distinct(s.push((key, v))),
        table_view(s.push((key, v))) =~= table_view(s).insert(key@, v@),
{
    let t = s.push((key, v));
    assert forall|a: int, b: int|
        0 <= a < t.len() && 0 <= b < t.len() && a != b implies (#[trigger] t[a]).0@ != (#[trigger] t[b]).0@ by {
        if a < s.len() && b < s.len() {
            assert(t[a] == s[a]);
            assert(t[b] == s[b]);
        } else if a < s.len() {
            assert(t[a] == s[a]);
        } else {
            assert(t[b] == s[b]);
        }
    }
    assert forall|k: Seq<char>| holds(t, k) <==> (holds(s, k) || k == key@) by {
        if holds(t, k) {
            let j = choose|j: int| 0 <= j < t.len() && (#[trigger] t[j]).0@ == k;
            if j < s.len() {
                assert(s[j] == t[j]);
            }
        }
        if holds(s, k) {
            let j = choose|j: int| 0 <= j < s.len() && (#[trigger] s[j]).0@ == k;
            assert(t[j] == s[j]);
        }
        if k == key@ {
            assert(t[s.len() as int].0@ == k);
        }
    }
    assert forall|k: Seq<char>| #[trigger] table_view(t).contains_key(k) implies table_view(t)[k]
        == table_view(s).insert(key@, v@)[k] by {
        let j = choose|j: int| 0 <= j < t.len() && (#[trigger] t[j]).0@ == k;
        if k == key@ {
            assert(j == s.len());
        } else {
            assert(j < s.len());
            assert(s[j] == t[j]);
            lemma_view_at(s, j);
        }
    }
}

pub proof fn lemma_view_remove<K: View<V = Seq<char>>, V: View>(s: Seq<(K, V)>, i: int)
    requires
        distinct(s),
        0 <= i < s.len(),
    ensures
        distinct(s.remove(i)),
        table_view(s.remove(i)) =~= table_view(s).remove(s[i].0@),
{
    let t = s.remove(i);
    let key = s[i].0@;
    assert forall|a: int| 0 <= a < t.len() implies #[trigger] t[a] == (if a < i { s[a] } else { s[a + 1] }) by {}
    assert forall|a: int, b: int|
        0 <= a < t.len() && 0 <= b < t.len() && a != b implies (#[trigger] t[a]).0@ != (#[trigger] t[b]).0@ by {
        let sa = if a < i { a } else { a + 1 };
        let sb = if b < i { b } else { b + 1 };
        assert(t[a] == s[sa]);
        assert(t[b] == s[sb]);
    }
    assert forall|k: Seq<char>| holds(t, k) <==> (holds(s, k) && k != key) by {
        if holds(t, k) {
            let j = choose|j: int| 0 <= j < t.len() && (#[trigger] t[j]).0@ == k;
            let sj = if j < i { j } else { j + 1 };
            assert(t[j] == s[sj]);
            assert(s[sj].0@ == k);
        }
        if holds(s, k) && k != key {
            let j = choose|j: int| 0 <= j < s.len() && (#[trigger] s[j]).0@ == k;
            assert(j != i);
            let tj = if j < i { j } else { j - 1 };
            assert(t[tj] == s[j]);
        }
    }
    assert forall|k: Seq<char>| #[trigger] table_view(t).contains_key(k) implies table_view(t)[k]
        == table_view(s).remove(key)[k] by {
        let j = choose|j: int| 0 <= j < t.len() && (#[trigger] t[j]).0@ == k;
        let sj = if j < i { j } else { j + 1 };
        assert(t[j] == s[sj]);
        lemma_view_at(s, sj);
    }
}

} // verus!
