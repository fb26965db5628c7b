//! Stable sorting by text keys.
use crate::text::{texts, to_chars};
use vstd::prelude::*;

verus! {

/// Whether a text comes before another in dictionary order of its characters.
pub open spec fn text_before(a: Seq<char>, b: Seq<char>) -> bool
    decreases a.len(),
{
    if b.len() == 0 {
        false
    } else if a.len() == 0 {
        true
    } else if a[0] == b[0] {
        text_before(a.skip(1), b.skip(1))
    } else {
        a[0] < b[0]
    }
}

proof fn lemma_text_before_total(a: Seq<char>, b: Seq<char>)
    ensures
        text_before(a, b) || text_before(b, a) || a == b,
        !(text_before(a, b) && text_before(b, a)),
        !text_before(a, a),
    decreases a.len(),
{
    if a.len() > 0 && b.len() > 0 {
        lemma_text_before_total(a.skip(1), b.skip(1));
        if a[0] == b[0] && a.skip(1) == b.skip(1) {
            assert(a =~= seq![a[0]] + a.skip(1));
            assert(b =~= seq![b[0]] + b.skip(1));
        }
    } else if a.len() == 0 && b.len() == 0 {
        assert(a =~= b);
    }
    if a.len() > 0 {
        lemma_text_before_total(a.skip(1), a.skip(1));
    }
}

proof fn lemma_text_before_trans(a: Seq<char>, b: Seq<char>, c: Seq<char>)
    requires
        text_before(a, b),
        text_before(b, c),
    ensures
        text_before(a, c),
    decreases a.len(),
{
    if a.len() > 0 {
        if a[0] == b[0] && b[0] == c[0] {
            lemma_text_before_trans(a.skip(1), b.skip(1), c.skip(1));
        }
    }
}

pub fn is_text_before(a: &Vec<char>, b: &Vec<char>) -> (r: bool)
    ensures
        r == text_before(a@, b@),
{
    let mut i: usize = 0;
    assert(a@.skip(0) =~= a@);
    assert(b@.skip(0) =~= b@);
    while i < a.len() && i < b.len() && a[i] == b[i]
        invariant
            i <= a@.len(),
            i <= b@.len(),
            text_before(a@, b@) == text_before(a@.skip(i as int), b@.skip(i as int)),
        ensures
            i <= a@.len(),
            i <= b@.len(),
            i < a@.len() && i < b@.len() ==> a@[i as int] != b@[i as int],
            text_before(a@, b@) == text_before(a@.skip(i as int), b@.skip(i as int)),
        decreases a@.len() - i,
    {
        assert(a@.skip(i as int).skip(1) =~= a@.skip(i + 1));
        assert(b@.skip(i as int).skip(1) =~= b@.skip(i + 1));
        i += 1;
    }
    if i >= b.len() {
        false
    } else if i >= a.len() {
        true
    } else {
        assert(a@.skip(i as int)[0] == a@[i as int]);
        assert(b@.skip(i as int)[0] == b@[i as int]);
        a[i] < b[i]
    }
}

/// Whether item `i` stands before item `j`: by its key, and for equal keys by
/// its place.
pub open spec fn stands_before(keys: Seq<Seq<char>>, i: usize, j: usize) -> bool {
    text_before(keys[i as int], keys[j as int]) || keys[i as int] == keys[j as int] && i < j
}

/// The order of a stable sort: every position once, smaller keys first, and
/// equal keys in the order that they had.
pub open spec fn stable_sort(keys: Seq<Seq<char>>, order: Seq<usize>) -> bool {
    &&& order.len() == keys.len()
    &&& forall|i: int| 0 <= i < order.len() ==> (#[trigger] order[i]) < keys.len()
    &&& forall|i: int, j: int|
        0 <= i < j < order.len() ==> stands_before(keys, #[trigger] order[i], #[trigger] order[j])
}

/// No position occurs twice in the order of a stable sort, so none is lost.
pub proof fn stable_sort_is_a_permutation(keys: Seq<Seq<char>>, order: Seq<usize>)
    requires
        stable_sort(keys, order),
    ensures
        order.no_duplicates(),
{
    assert forall|i: int, j: int| 0 <= i < order.len() && 0 <= j < order.len() && i
        != j implies order[i] != order[j] by {
        lemma_text_before_total(keys[order[i] as int], keys[order[i] as int]);
        if i < j {
            assert(stands_before(keys, order[i], order[j]));
        } else {
            assert(stands_before(keys, order[j], order[i]));
        }
    }
}

/// There is one order only: sorting decides every place.
pub proof fn stable_sort_is_unique(keys: Seq<Seq<char>>, a: Seq<usize>, b: Seq<usize>, k: int)
    requires
        stable_sort(keys, a),
        stable_sort(keys, b),
        forall|x: usize| a.contains(x) <==> b.contains(x),
        0 <= k < a.len(),
    ensures
        a[k] == b[k],
    decreases k,
{
    assert forall|i: int| 0 <= i < k implies a[i] == b[i] by {
        stable_sort_is_unique(keys, a, b, i);
    }
    stable_sort_is_a_permutation(keys, a);
    stable_sort_is_a_permutation(keys, b);
    if a[k] != b[k] {
        assert(a.contains(a[k]) && b.contains(b[k]));
        let i = choose|i: int| 0 <= i < b.len() && b[i] == a[k];
        let j = choose|j: int| 0 <= j < a.len() && a[j] == b[k];
        assert(i > k) by {
            if i < k {
                assert(a[i] == b[i]);
            }
        }
        assert(j > k) by {
            if j < k {
                assert(a[j] == b[j]);
            }
        }
        assert(stands_before(keys, b[k], b[i]));
        assert(stands_before(keys, a[k], a[j]));
        lemma_text_before_total(keys[a[k] as int], keys[b[k] as int]);
    }
}

/// The order of a stable sort by text keys.
pub fn stable_order(keys: &Vec<String>) -> (r: Vec<usize>)
    ensures
        stable_sort(texts(keys@), r@),
        forall|x: usize| x < keys@.len() ==> r@.contains(x),
{
    let ghost all = texts(keys@);
    let mut order: Vec<usize> = Vec::new();
    let mut i: usize = 0;
    while i < keys.len()
        invariant
            i <= keys@.len(),
            all == texts(keys@),
            order@.len() == i,
            forall|k: int| 0 <= k < order@.len() ==> (#[trigger] order@[k]) < i,
            forall|x: usize| x < i ==> order@.contains(x),
            forall|a: int, b: int|
                0 <= a < b < order@.len() ==> stands_before(
                    all,
                    #[trigger] order@[a],
                    #[trigger] order@[b],
                ),
        decreases keys@.len() - i,
    {
        let key = to_chars(keys[i].as_str());
        let mut at: usize = order.len();
        assert(all[i as int] == key@);
        while at > 0 && is_text_before(&key, &to_chars(keys[order[at - 1]].as_str()))
            invariant
                i < keys@.len(),
                all == texts(keys@),
                key@ == all[i as int],
                at <= order@.len(),
                order@.len() == i,
                forall|k: int| 0 <= k < order@.len() ==> (#[trigger] order@[k]) < i,
                forall|k: int|
                    at <= k < order@.len() ==> text_before(key@, all[(#[trigger] order@[k]) as int]),
            ensures
                at <= order@.len(),
                at > 0 ==> !text_before(key@, all[order@[at - 1] as int]),
                forall|k: int|
                    at <= k < order@.len() ==> text_before(key@, all[(#[trigger] order@[k]) as int]),
            decreases at,
        {
            at -= 1;
        }
        let ghost before = order@;
        order.insert(at, i);
        proof {
            let after = order@;
            assert(after == before.insert(at as int, i));
            assert forall|x: usize| x < i + 1 implies after.contains(x) by {
                if x == i {
                    assert(after[at as int] == i);
                } else {
                    assert(before.contains(x));
                    let k = choose|k: int| 0 <= k < before.len() && before[k] == x;
                    if k < at {
                        assert(after[k] == x);
                    } else {
                        assert(after[k + 1] == x);
                    }
                }
            }
            assert forall|a: int, b: int| 0 <= a < b < after.len() implies stands_before(
                all,
                #[trigger] after[a],
                #[trigger] after[b],
            ) by {
                if a != at && b != at {
                    let a0 = if a < at {
                        a
                    } else {
                        a - 1
                    };
                    let b0 = if b < at {
                        b
                    } else {
                        b - 1
                    };
                    assert(after[a] == before[a0] && after[b] == before[b0]);
                } else if a == at {
                    assert(after[b] == before[b - 1]);
                    assert(text_before(key@, all[before[b - 1] as int]));
                } else {
                    assert(after[a] == before[a]);
                    let last = before[at - 1];
                    let mine = before[a];
                    lemma_text_before_total(key@, all[last as int]);
                    if a < at - 1 {
                        assert(stands_before(all, before[a], before[at - 1]));
                        if text_before(all[mine as int], all[last as int]) && text_before(
                            all[last as int],
                            key@,
                        ) {
                            lemma_text_before_trans(
                                all[mine as int],
                                all[last as int],
                                key@,
                            );
                        }
                    }
                }
            }
        }
        i += 1;
    }
    order
}

/// One text stands before another where it is the start of it, or where it is
/// smaller at the first place at which they differ.
pub proof fn texts_are_ordered_by_their_first_difference(a: Seq<char>, b: Seq<char>, k: int)
    requires
        0 <= k <= a.len(),
        k <= b.len(),
        a.take(k) == b.take(k),
        k == a.len() || k == b.len() || a[k] != b[k],
    ensures
        text_before(a, b) == if k < a.len() && k < b.len() {
            a[k] < b[k]
        } else {
            a.len() < b.len()
        },
    decreases a.len(),
{
    if k > 0 {
        assert(a.take(k)[0] == a[0] && b.take(k)[0] == b[0]);
        assert(a.skip(1).take(k - 1) =~= a.take(k).skip(1));
        assert(b.skip(1).take(k - 1) =~= b.take(k).skip(1));
        texts_are_ordered_by_their_first_difference(a.skip(1), b.skip(1), k - 1);
    }
}

/// A sorted list holds every item once, smaller keys first, and equal keys in the
/// order in which they came.
pub proof fn sorted_items_ascend(keys: Seq<Seq<char>>, order: Seq<usize>, i: int, j: int)
    requires
        stable_sort(keys, order),
        0 <= i < j < order.len(),
    ensures
        order.len() == keys.len(),
        order[i] < keys.len(),
        text_before(keys[order[i] as int], keys[order[j] as int]) || keys[order[i] as int]
            == keys[order[j] as int] && order[i] < order[j],
{
    assert(stands_before(keys, order[i], order[j]));
}

} // verus!
