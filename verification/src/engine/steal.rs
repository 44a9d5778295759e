//! Choosing extreme elements: the first element of least key and the last
//! element of greatest key among those a mask selects.

use vstd::prelude::*;

verus! {

/// `i` is the first of the selected elements among the first `n` whose key is least.
pub open spec fn first_min_within<T>(
    s: Seq<T>,
    n: int,
    key: spec_fn(T) -> int,
    mask: spec_fn(T) -> bool,
    i: int,
) -> bool {
    &&& 0 <= i < n <= s.len()
    &&& mask(s[i])
    &&& forall|j: int| #![trigger s[j]] 0 <= j < n && mask(s[j]) ==> key(s[i]) <= key(s[j])
    &&& forall|j: int| #![trigger s[j]] 0 <= j < i && mask(s[j]) ==> key(s[i]) < key(s[j])
}

/// `i` is the last of the selected elements among the first `n` whose key is greatest.
pub open spec fn last_max_within<T>(
    s: Seq<T>,
    n: int,
    key: spec_fn(T) -> int,
    mask: spec_fn(T) -> bool,
    i: int,
) -> bool {
    &&& 0 <= i < n <= s.len()
    &&& mask(s[i])
    &&& forall|j: int| #![trigger s[j]] 0 <= j < n && mask(s[j]) ==> key(s[j]) <= key(s[i])
}

/// Whether the mask selects some element.
pub open spec fn any_selected<T>(s: Seq<T>, mask: spec_fn(T) -> bool) -> bool {
    exists|j: int| #![trigger s[j]] 0 <= j < s.len() && mask(s[j])
}

/// The index of the first selected element of least key, if any is selected.
pub open spec fn first_min<T>(s: Seq<T>, key: spec_fn(T) -> int, mask: spec_fn(T) -> bool) -> Option<int> {
    if any_selected(s, mask) {
        Some(choose|i: int| #[trigger] first_min_within(s, s.len() as int, key, mask, i))
    } else {
        None
    }
}

/// The index of the last selected element of greatest key, if any is selected.
pub open spec fn last_max<T>(s: Seq<T>, key: spec_fn(T) -> int, mask: spec_fn(T) -> bool) -> Option<int> {
    if any_selected(s, mask) {
        Some(choose|i: int| last_max_within(s, s.len() as int, key, mask, i)
            && forall|j: int| #![trigger s[j]] i < j < s.len() && mask(s[j]) ==> key(s[j]) < key(s[i]))
    } else {
        None
    }
}

/// At most one index is the first of least key.
pub proof fn lemma_first_min_unique<T>(
    s: Seq<T>,
    n: int,
    key: spec_fn(T) -> int,
    mask: spec_fn(T) -> bool,
    i: int,
    k: int,
)
    requires
        first_min_within(s, n, key, mask, i),
        first_min_within(s, n, key, mask, k),
    ensures
        i == k,
{
    if i < k {
        assert(key(s[k]) < key(s[i]));
    } else if k < i {
        assert(key(s[i]) < key(s[k]));
    }
}

/// A witness of the first least element is the one `first_min` names.
pub proof fn lemma_first_min_is<T>(s: Seq<T>, key: spec_fn(T) -> int, mask: spec_fn(T) -> bool, i: int)
    requires
        first_min_within(s, s.len() as int, key, mask, i),
    ensures
        first_min(s, key, mask) == Some(i),
{
    assert(s[i] == s[i]);
    assert(any_selected(s, mask));
    let c = choose|c: int| first_min_within(s, s.len() as int, key, mask, c);
    lemma_first_min_unique(s, s.len() as int, key, mask, i, c);
}

/// A witness of the last greatest element is the one `last_max` names.
pub proof fn lemma_last_max_is<T>(s: Seq<T>, key: spec_fn(T) -> int, mask: spec_fn(T) -> bool, i: int)
    requires
        last_max_within(s, s.len() as int, key, mask, i),
        forall|j: int| #![trigger s[j]] i < j < s.len() && mask(s[j]) ==> key(s[j]) < key(s[i]),
    ensures
        last_max(s, key, mask) == Some(i),
{
    assert(s[i] == s[i]);
    assert(any_selected(s, mask));
    let c = choose|c: int| last_max_within(s, s.len() as int, key, mask, c)
        && forall|j: int| #![trigger s[j]] c < j < s.len() && mask(s[j]) ==> key(s[j]) < key(s[c]);
    if c < i {
        assert(key(s[i]) < key(s[c]));
    } else if i < c {
        assert(key(s[c]) < key(s[i]));
    }
}

/// With nothing selected, there is no extreme element.
pub proof fn lemma_none_selected<T>(s: Seq<T>, key: spec_fn(T) -> int, mask: spec_fn(T) -> bool)
    requires
        forall|j: int| #![trigger s[j]] 0 <= j < s.len() ==> !mask(s[j]),
    ensures
        first_min(s, key, mask) is None,
        last_max(s, key, mask) is None,
{
}


/// `i` is the last selected element of greatest key among the first `n`.
pub open spec fn last_max_at<T>(s: Seq<T>, n: int, key: spec_fn(T) -> int, mask: spec_fn(T) -> bool, i: int) -> bool {
    &&& last_max_within(s, n, key, mask, i)
    &&& forall|j: int| #![trigger s[j]] i < j < n && mask(s[j]) ==> key(s[j]) < key(s[i])
}

/// Among finitely many selected elements there is a first one of least key.
pub proof fn lemma_first_min_exists<T>(s: Seq<T>, n: int, key: spec_fn(T) -> int, mask: spec_fn(T) -> bool)
    requires
        0 <= n <= s.len(),
        exists|j: int| #![trigger s[j]] 0 <= j < n && mask(s[j]),
    ensures
        exists|i: int| #[trigger] first_min_within(s, n, key, mask, i),
    decreases n,
{
    if exists|j: int| #![trigger s[j]] 0 <= j < n - 1 && mask(s[j]) {
        lemma_first_min_exists(s, n - 1, key, mask);
        let i = choose|i: int| #[trigger] first_min_within(s, n - 1, key, mask, i);
        if mask(s[n - 1]) && key(s[n - 1]) < key(s[i]) {
            assert(first_min_within(s, n, key, mask, n - 1));
        } else {
            assert(first_min_within(s, n, key, mask, i));
        }
    } else {
        assert(mask(s[n - 1]));
        assert(first_min_within(s, n, key, mask, n - 1));
    }
}

/// Among finitely many selected elements there is a last one of greatest key.
pub proof fn lemma_last_max_exists<T>(s: Seq<T>, n: int, key: spec_fn(T) -> int, mask: spec_fn(T) -> bool)
    requires
        0 <= n <= s.len(),
        exists|j: int| #![trigger s[j]] 0 <= j < n && mask(s[j]),
    ensures
        exists|i: int| #[trigger] last_max_at(s, n, key, mask, i),
    decreases n,
{
    if exists|j: int| #![trigger s[j]] 0 <= j < n - 1 && mask(s[j]) {
        lemma_last_max_exists(s, n - 1, key, mask);
        let i = choose|i: int| #[trigger] last_max_at(s, n - 1, key, mask, i);
        if mask(s[n - 1]) && key(s[n - 1]) >= key(s[i]) {
            assert(last_max_at(s, n, key, mask, n - 1));
        } else {
            assert(last_max_at(s, n, key, mask, i));
        }
    } else {
        assert(mask(s[n - 1]));
        assert(last_max_at(s, n, key, mask, n - 1));
    }
}

/// When something is selected, both choices name a selected element.
pub proof fn lemma_choice_found<T>(s: Seq<T>, key: spec_fn(T) -> int, mask: spec_fn(T) -> bool)
    requires
        any_selected(s, mask),
    ensures
        first_min(s, key, mask) matches Some(i) && 0 <= i < s.len() && mask(s[i]),
        last_max(s, key, mask) matches Some(i) && 0 <= i < s.len() && mask(s[i]),
{
    let j = choose|j: int| #![trigger s[j]] 0 <= j < s.len() && mask(s[j]);
    lemma_first_min_exists(s, s.len() as int, key, mask);
    lemma_last_max_exists(s, s.len() as int, key, mask);
}

} // verus!
