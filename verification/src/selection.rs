//! Sets of selected items.
use std::collections::HashSet;
use std::hash::Hash;
use vstd::prelude::*;
use vstd::std_specs::hash::obeys_key_model;

verus! {

broadcast use vstd::std_specs::hash::group_hash_axioms;

/// Whether every item is selected.
pub open spec fn all_selected<T>(selected: Set<T>, items: Seq<T>) -> bool {
    forall|i: int| 0 <= i < items.len() ==> selected.contains(#[trigger] items[i])
}

/// The selection after all of some items were toggled together: if all of them
/// are selected none stays so, else all become so.
pub open spec fn toggled_all<T>(selected: Set<T>, items: Seq<T>) -> Set<T> {
    if all_selected(selected, items) {
        selected.difference(items.to_set())
    } else {
        selected.union(items.to_set())
    }
}

/// The selection after one item was toggled.
pub open spec fn toggled<T>(selected: Set<T>, item: T) -> Set<T> {
    if selected.contains(item) {
        selected.remove(item)
    } else {
        selected.insert(item)
    }
}

pub proof fn lemma_to_set_push<T>(items: Seq<T>, n: int)
    requires
        0 <= n < items.len(),
    ensures
        items.take(n + 1).to_set() == items.take(n).to_set().insert(items[n]),
{
    let a = items.take(n + 1);
    let b = items.take(n);
    assert forall|x: T| a.to_set().contains(x) <==> b.to_set().insert(items[n]).contains(x) by {
        if a.contains(x) && x != items[n] {
            let k = choose|k: int| 0 <= k < a.len() && a[k] == x;
            assert(b[k] == x);
        }
        if b.contains(x) {
            let k = choose|k: int| 0 <= k < b.len() && b[k] == x;
            assert(a[k] == x);
        }
        assert(a[n] == items[n]);
    }
    assert(a.to_set() =~= b.to_set().insert(items[n]));
}

pub fn toggle_all<T: Eq + Hash>(selected: &mut HashSet<T>, matches: Vec<T>)
    requires
        obeys_key_model::<T>(),
    ensures
        final(selected)@ == toggled_all(old(selected)@, matches@),
{
    let total: usize = matches.len();
    let mut all = true;
    let mut i: usize = 0;
    while i < total && all
        invariant
            i <= total,
            total == matches@.len(),
            obeys_key_model::<T>(),
            selected@ == old(selected)@,
            all ==> forall|k: int| 0 <= k < i ==> selected@.contains(#[trigger] matches@[k]),
            !all ==> !all_selected(selected@, matches@),
        decreases total - i + (if all {
            1int
        } else {
            0int
        }),
    {
        if selected.contains(&matches[i]) {
            i += 1;
        } else {
            all = false;
            assert(!selected@.contains(matches@[i as int]));
        }
    }
    let ghost items = matches@;
    let ghost before = selected@;
    let mut rest = matches;
    let mut n: usize = total;
    assert(items.take(total as int) =~= items);
    assert(items.skip(total as int) =~= Seq::<T>::empty());
    assert(items.skip(total as int).to_set() =~= Set::<T>::empty());
    assert(all ==> selected@ =~= before.difference(items.skip(total as int).to_set()));
    assert(!all ==> selected@ =~= before.union(items.skip(total as int).to_set()));
    while n > 0
        invariant
            n <= total,
            total == items.len(),
            rest@ == items.take(n as int),
            obeys_key_model::<T>(),
            all ==> selected@ =~= before.difference(items.skip(n as int).to_set()),
            !all ==> selected@ =~= before.union(items.skip(n as int).to_set()),
        decreases n,
    {
        let popped = rest.pop();
        n -= 1;
        proof {
            assert(rest@ =~= items.take(n as int));
            assert(popped == Some(items[n as int]));
            let a = items.skip(n as int);
            let b = items.skip(n + 1);
            assert forall|x: T| a.to_set().contains(x) <==> b.to_set().insert(
                items[n as int],
            ).contains(x) by {
                if a.contains(x) && x != items[n as int] {
                    let k = choose|k: int| 0 <= k < a.len() && a[k] == x;
                    assert(b[k - 1] == x);
                }
                if b.contains(x) {
                    let k = choose|k: int| 0 <= k < b.len() && b[k] == x;
                    assert(a[k + 1] == x);
                }
                assert(a[0] == items[n as int]);
            }
            assert(a.to_set() =~= b.to_set().insert(items[n as int]));
        }
        if let Some(item) = popped {
            if all {
                selected.remove(&item);
            } else {
                selected.insert(item);
            }
        }
    }
    assert(items.skip(0) =~= items);
    assert(selected@ =~= toggled_all(before, items));
}

/// Toggling items that are not all selected selects all of them, toggling them
/// again deselects exactly them, and other items never change.
pub proof fn toggle_all_selects_then_deselects<T>(selected: Set<T>, items: Seq<T>)
    requires
        !all_selected(selected, items),
    ensures
        all_selected(toggled_all(selected, items), items),
        toggled_all(toggled_all(selected, items), items) == selected.difference(items.to_set()),
        forall|x: T|
            !items.contains(x) ==> (#[trigger] toggled_all(selected, items).contains(x)
                == selected.contains(x)),
{
    let once = toggled_all(selected, items);
    assert forall|i: int| 0 <= i < items.len() implies once.contains(#[trigger] items[i]) by {
        assert(items.to_set().contains(items[i]));
    }
    assert(toggled_all(once, items) =~= selected.difference(items.to_set()));
}

/// Toggling an item twice changes nothing.
pub proof fn toggle_twice_changes_nothing<T>(selected: Set<T>, item: T)
    ensures
        toggled(toggled(selected, item), item) == selected,
{
    assert(toggled(toggled(selected, item), item) =~= selected);
}

/// Toggles a position.
pub fn toggle_index(selected: &mut HashSet<usize>, index: usize)
    ensures
        final(selected)@ == toggled(old(selected)@, index),
{
    let ghost before = selected@;
    if !selected.remove(&index) {
        selected.insert(index);
    }
    assert(selected@ =~= toggled(before, index));
}

/// Toggles the key of an item.
pub fn toggle_key(selected: &mut HashSet<u64>, key: u64)
    ensures
        final(selected)@ == toggled(old(selected)@, key),
{
    let ghost before = selected@;
    if !selected.remove(&key) {
        selected.insert(key);
    }
    assert(selected@ =~= toggled(before, key));
}

/// Positions in ascending order, each once.
pub open spec fn ascending(s: Seq<usize>) -> bool {
    forall|i: int, j: int| 0 <= i < j < s.len() ==> (#[trigger] s[i]) < (#[trigger] s[j])
}

/// Puts a position into an ascending list that lacks it.
fn insert_ascending(list: &mut Vec<usize>, value: usize)
    requires
        ascending(old(list)@),
        !old(list)@.contains(value),
    ensures
        ascending(final(list)@),
        final(list)@.to_set() == old(list)@.to_set().insert(value),
{
    let ghost before = list@;
    let mut at: usize = list.len();
    while at > 0 && list[at - 1] > value
        invariant
            at <= list@.len(),
            list@ == before,
            forall|k: int| at <= k < before.len() ==> value < #[trigger] before[k],
        ensures
            at <= list@.len(),
            list@ == before,
            at > 0 ==> before[at - 1] <= value,
            forall|k: int| at <= k < before.len() ==> value < #[trigger] before[k],
        decreases at,
    {
        at -= 1;
    }
    list.insert(at, value);
    proof {
        let after = list@;
        assert(after == before.insert(at as int, value));
        if at > 0 {
            assert(before.contains(before[at - 1]));
        }
        assert forall|i: int, j: int| 0 <= i < j < after.len() implies (#[trigger] after[i]) < (
        #[trigger] after[j]) by {
            if j < at {
                assert(after[i] == before[i] && after[j] == before[j]);
            } else if j == at {
                assert(after[i] == before[i]);
                if i < at - 1 {
                    assert(before[i] < before[at - 1]);
                }
            } else {
                assert(after[j] == before[j - 1]);
                if i < at {
                    assert(after[i] == before[i]);
                } else if i > at {
                    assert(after[i] == before[i - 1]);
                }
            }
        }
        assert forall|x: usize| after.to_set().contains(x) <==> before.to_set().insert(
            value,
        ).contains(x) by {
            if before.contains(x) {
                let k = choose|k: int| 0 <= k < before.len() && before[k] == x;
                if k < at {
                    assert(after[k] == x);
                } else {
                    assert(after[k + 1] == x);
                }
            }
            if after.contains(x) && x != value {
                let k = choose|k: int| 0 <= k < after.len() && after[k] == x;
                if k < at {
                    assert(before[k] == x);
                } else {
                    assert(before[k - 1] == x);
                }
            }
            assert(after[at as int] == value);
        }
        assert(after.to_set() =~= before.to_set().insert(value));
    }
}

/// The selected channels in ascending order, or the highlighted one where none
/// is selected.
pub fn selected_or_highlighted_channel_indexes(selected: &HashSet<usize>, highlighted: usize) -> (r:
    Vec<usize>)
    ensures
        ascending(r@),
        r@.to_set() == if selected@.is_empty() {
            set![highlighted]
        } else {
            selected@
        },
{
    if selected.is_empty() {
        let mut one: Vec<usize> = Vec::new();
        one.push(highlighted);
        assert(selected@ =~= Set::<usize>::empty());
        assert(one@[0] == highlighted);
        assert(one@.to_set() =~= set![highlighted]);
        return one;
    }
    let mut indexes: Vec<usize> = Vec::new();
    assert(indexes@.to_set() =~= Set::<usize>::empty());
    for item in it: selected.iter()
        invariant
            ascending(indexes@),
            it.seq().no_duplicates(),
            it.seq().unref().to_set() == selected@,
            indexes@.to_set() == it.seq().unref().take(it.index() as int).to_set(),
            it.index() == it.seq().len() ==> indexes@.to_set() == selected@,
    {
        let value: usize = *item;
        let ghost n = it.index() as int;
        proof {
            assert(it.seq().unref()[n] == value);
            if indexes@.contains(value) {
                assert(indexes@.to_set().contains(value));
                assert(it.seq().unref().take(n).contains(value));
                assert(exists|k: int| 0 <= k < n && it.seq().unref().take(n)[k] == value);
                assert(exists|k: int| 0 <= k < n && *it.seq()[k] == value);
                assert(*it.seq()[n] == value);
            }
            lemma_to_set_push(it.seq().unref(), n);
            assert(n + 1 == it.seq().len() ==> it.seq().unref().take(n + 1) =~= it.seq().unref());
        }
        insert_ascending(&mut indexes, value);
    }
    indexes
}

/// The matches that are not locked, in their order.
pub open spec fn unlocked(matches: Seq<usize>, saved: Set<usize>) -> Seq<usize>
    decreases matches.len(),
{
    if matches.len() == 0 {
        seq![]
    } else {
        let before = unlocked(matches.drop_last(), saved);
        if saved.contains(matches.last()) {
            before
        } else {
            before.push(matches.last())
        }
    }
}

pub fn selectable_private_channel_matches(matches: &[usize], saved: &HashSet<usize>) -> (r: Vec<
    usize,
>)
    ensures
        r@ == unlocked(matches@, saved@),
{
    let mut out: Vec<usize> = Vec::new();
    let mut i: usize = 0;
    assert(matches@.take(0) =~= seq![]);
    while i < matches.len()
        invariant
            i <= matches@.len(),
            out@ == unlocked(matches@.take(i as int), saved@),
        decreases matches@.len() - i,
    {
        assert(matches@.take(i + 1).drop_last() =~= matches@.take(i as int));
        if !saved.contains(&matches[i]) {
            out.push(matches[i]);
        }
        i += 1;
    }
    assert(matches@.take(i as int) =~= matches@);
    out
}

/// Toggling changes one item, and no other.
pub proof fn toggling_changes_one_item<T>(selected: Set<T>, item: T, other: T)
    ensures
        toggled(selected, item).contains(item) == !selected.contains(item),
        other != item ==> toggled(selected, item).contains(other) == selected.contains(other),
{
}

/// The matches that can be selected are those that are not saved, in their order.
pub proof fn saved_matches_are_left_out(matches: Seq<usize>, saved: Set<usize>)
    ensures
        unlocked(matches, saved) == matches.filter(|i: usize| !saved.contains(i)),
    decreases matches.len(),
{
    reveal(Seq::filter);
    if matches.len() > 0 {
        saved_matches_are_left_out(matches.drop_last(), saved);
    }
}

/// Toggling all of some items selects them all, unless they all were selected;
/// other items keep what they had.
pub proof fn toggling_all_selects_or_clears<T>(selected: Set<T>, items: Seq<T>, item: T)
    ensures
        !items.contains(item) ==> toggled_all(selected, items).contains(item) == selected.contains(
            item,
        ),
        items.contains(item) && (forall|i: int|
            0 <= i < items.len() ==> selected.contains(#[trigger] items[i])) ==> !toggled_all(
            selected,
            items,
        ).contains(item),
        items.contains(item) && (exists|i: int|
            0 <= i < items.len() && !selected.contains(#[trigger] items[i])) ==> toggled_all(
            selected,
            items,
        ).contains(item),
{
}

} // verus!
