use vstd::prelude::*;

verus! {

/// The sequence is ordered by nondecreasing key.
pub open spec fn keys_ascending<T>(s: Seq<T>, key: spec_fn(T) -> int) -> bool {
    forall|i: int, j: int| 0 <= i <= j < s.len() ==> key(s[i]) <= key(s[j])
}

/// Inserts `x` into a key-ordered sequence after every element whose key is
/// not greater than that of `x`.
pub open spec fn stable_insert<T>(s: Seq<T>, x: T, key: spec_fn(T) -> int) -> Seq<T>
    decreases s.len(),
{
    if s.len() == 0 {
        seq![x]
    } else if key(s.last()) <= key(x) {
        s.push(x)
    } else {
        stable_insert(s.drop_last(), x, key).push(s.last())
    }
}

/// The stable sort of a sequence by key: elements with equal keys keep their
/// relative order.
pub open spec fn stable_sort<T>(s: Seq<T>, key: spec_fn(T) -> int) -> Seq<T>
    decreases s.len(),
{
    if s.len() == 0 {
        Seq::empty()
    } else {
        stable_insert(stable_sort(s.drop_last(), key), s.last(), key)
    }
}

/// Inserting at the first position after which every key is larger.
pub proof fn lemma_stable_insert_at<T>(s: Seq<T>, x: T, key: spec_fn(T) -> int, j: int)
    requires
        keys_ascending(s, key),
        0 <= j <= s.len(),
        forall|i: int| j <= i < s.len() ==> key(#[trigger] s[i]) > key(x),
        j == 0 || key(s[j - 1]) <= key(x),
    ensures
        stable_insert(s, x, key) == s.insert(j, x),
        keys_ascending(s.insert(j, x), key),
    decreases s.len(),
{
    if s.len() == 0 {
        assert(s.insert(j, x) =~= seq![x]);
    } else if j == s.len() {
        assert(s.insert(j, x) =~= s.push(x));
    } else {
        assert(key(s.last()) > key(x));
        let t = s.drop_last();
        assert(keys_ascending(t, key));
        lemma_stable_insert_at(t, x, key, j);
        assert(t.insert(j, x).push(s.last()) =~= s.insert(j, x));
    }
    let r = s.insert(j, x);
    assert forall|a: int, b: int| 0 <= a <= b < r.len() implies key(r[a]) <= key(r[b]) by {
        if a < j && b > j {
            assert(r[a] == s[a]);
            assert(r[b] == s[b - 1]);
        } else if a < j && b == j {
            assert(r[a] == s[a]);
            assert(key(s[a]) <= key(s[j - 1]));
        } else if a == j && b > j {
            assert(r[b] == s[b - 1]);
        } else if a > j {
            assert(r[a] == s[a - 1]);
            assert(r[b] == s[b - 1]);
        }
    }
}

/// A stable sort is ordered and keeps the length.
pub proof fn lemma_stable_sort_ascending<T>(s: Seq<T>, key: spec_fn(T) -> int)
    ensures
        keys_ascending(stable_sort(s, key), key),
        stable_sort(s, key).len() == s.len(),
    decreases s.len(),
{
    if s.len() > 0 {
        let t = stable_sort(s.drop_last(), key);
        lemma_stable_sort_ascending(s.drop_last(), key);
        let x = s.last();
        lemma_insert_position(t, x, key);
        let j = insert_position(t, x, key);
        lemma_stable_insert_at(t, x, key, j);
    }
}

/// The number of leading elements whose key is not greater than that of `x`,
/// in a key-ordered sequence.
pub open spec fn insert_position<T>(s: Seq<T>, x: T, key: spec_fn(T) -> int) -> int
    decreases s.len(),
{
    if s.len() == 0 {
        0
    } else if key(s.last()) <= key(x) {
        s.len() as int
    } else {
        insert_position(s.drop_last(), x, key)
    }
}

pub proof fn lemma_insert_position<T>(s: Seq<T>, x: T, key: spec_fn(T) -> int)
    requires
        keys_ascending(s, key),
    ensures
        0 <= insert_position(s, x, key) <= s.len(),
        forall|i: int| insert_position(s, x, key) <= i < s.len() ==> key(#[trigger] s[i]) > key(x),
        insert_position(s, x, key) == 0 || key(s[insert_position(s, x, key) - 1]) <= key(x),
    decreases s.len(),
{
    if s.len() > 0 && key(s.last()) > key(x) {
        let t = s.drop_last();
        lemma_insert_position(t, x, key);
        let j = insert_position(t, x, key);
        assert forall|i: int| j <= i < s.len() implies key(#[trigger] s[i]) > key(x) by {
            if i < s.len() - 1 {
                assert(s[i] == t[i]);
            }
        }
    }
}

/// Appends the elements of `s` in order, skipping those already present.
pub open spec fn append_new<T>(acc: Seq<T>, s: Seq<T>) -> Seq<T>
    decreases s.len(),
{
    if s.len() == 0 {
        acc
    } else {
        let prev = append_new(acc, s.drop_last());
        if prev.contains(s.last()) {
            prev
        } else {
            prev.push(s.last())
        }
    }
}

/// Appending two sequences one after the other.
pub proof fn lemma_append_new_concat<T>(acc: Seq<T>, a: Seq<T>, b: Seq<T>)
    ensures
        append_new(acc, a + b) == append_new(append_new(acc, a), b),
    decreases b.len(),
{
    if b.len() == 0 {
        assert(a + b =~= a);
    } else {
        assert((a + b).drop_last() =~= a + b.drop_last());
        assert((a + b).last() == b.last());
        lemma_append_new_concat(acc, a, b.drop_last());
    }
}

/// Sorting an already ordered sequence leaves it as it is.
pub proof fn lemma_stable_sort_sorted<T>(s: Seq<T>, key: spec_fn(T) -> int)
    requires
        keys_ascending(s, key),
    ensures
        stable_sort(s, key) == s,
    decreases s.len(),
{
    if s.len() > 0 {
        let t = s.drop_last();
        assert(keys_ascending(t, key));
        lemma_stable_sort_sorted(t, key);
        if t.len() == 0 {
            assert(seq![s.last()] =~= s);
        } else {
            assert(key(t.last()) <= key(s.last()));
            assert(t.push(s.last()) =~= s);
        }
    }
}

} // verus!
