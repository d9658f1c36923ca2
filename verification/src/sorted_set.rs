//! Strictly ascending vectors used as ordered sets, with binary search.
use vstd::prelude::*;

verus! {

/// A strict total order on a copyable value type.
pub trait StrictOrder: Sized + Copy {
    spec fn ordered_before(self, other: Self) -> bool;

    proof fn ordered_before_transitive(a: Self, b: Self, c: Self)
        requires
            a.ordered_before(b),
            b.ordered_before(c),
        ensures
            a.ordered_before(c),
    ;

    proof fn ordered_before_trichotomy(a: Self, b: Self)
        ensures
            a.ordered_before(b) || b.ordered_before(a) || a == b,
            !(a.ordered_before(b) && b.ordered_before(a)),
            !a.ordered_before(a),
    ;

    fn comes_before(&self, other: &Self) -> (before: bool)
        ensures
            before == self.ordered_before(*other),
    ;
}

/// Every element comes strictly before every later one.
pub open spec fn strictly_ascending<T: StrictOrder>(items: Seq<T>) -> bool {
    forall|i: int, j: int| 0 <= i < j < items.len() ==> (#[trigger] items[i]).ordered_before(
        #[trigger] items[j],
    )
}

/// Where `target` stands in a strictly ascending sequence: `Ok(i)` when
/// `items[i] == target`, else `Err(i)` with every element before `i` coming
/// before `target` and every element from `i` on coming after it.
pub fn search_sorted<T: StrictOrder>(items: &Vec<T>, target: &T) -> (found: Result<usize, usize>)
    requires
        strictly_ascending(items@),
    ensures
        match found {
            Ok(index) => index < items@.len() && items@[index as int] == *target,
            Err(index) => {
                &&& index <= items@.len()
                &&& !items@.contains(*target)
                &&& forall|i: int| 0 <= i < index ==> (#[trigger] items@[i]).ordered_before(*target)
                &&& forall|i: int|
                    index <= i < items@.len() ==> target.ordered_before(#[trigger] items@[i])
            },
        },
{
    let mut low: usize = 0;
    let mut high: usize = items.len();
    while low < high
        invariant
            low <= high <= items@.len(),
            strictly_ascending(items@),
            forall|i: int| 0 <= i < low ==> (#[trigger] items@[i]).ordered_before(*target),
            forall|i: int| high <= i < items@.len() ==> target.ordered_before(#[trigger] items@[i]),
        decreases high - low,
    {
        let mid = low + (high - low) / 2;
        let probe = items[mid];
        if probe.comes_before(target) {
            proof {
                assert forall|i: int| 0 <= i <= mid implies (#[trigger] items@[i]).ordered_before(
                    *target,
                ) by {
                    if i < mid {
                        T::ordered_before_transitive(items@[i], probe, *target);
                    }
                }
            }
            low = mid + 1;
        } else if target.comes_before(&probe) {
            proof {
                assert forall|i: int| mid <= i < items@.len() implies target.ordered_before(
                    #[trigger] items@[i],
                ) by {
                    if i > mid {
                        T::ordered_before_transitive(*target, probe, items@[i]);
                    }
                }
            }
            high = mid;
        } else {
            proof {
                T::ordered_before_trichotomy(probe, *target);
            }
            return Ok(mid);
        }
    }
    proof {
        if items@.contains(*target) {
            let k = choose|k: int| 0 <= k < items@.len() && items@[k] == *target;
            T::ordered_before_trichotomy(*target, *target);
            if k < low {
                assert(items@[k].ordered_before(*target));
            } else {
                assert(target.ordered_before(items@[k]));
            }
        }
    }
    Err(low)
}

/// Adds `item` to a strictly ascending vector unless it is already there.
pub fn insert_sorted<T: StrictOrder>(items: &mut Vec<T>, item: T)
    requires
        strictly_ascending(old(items)@),
    ensures
        strictly_ascending(final(items)@),
        final(items)@.to_set() == old(items)@.to_set().insert(item),
        old(items)@.contains(item) ==> final(items)@ == old(items)@,
{
    match search_sorted(items, &item) {
        Ok(_) => {
            proof {
                assert(old(items)@.to_set().insert(item) =~= old(items)@.to_set());
            }
        },
        Err(index) => {
            items.insert(index, item);
            proof {
                let before = old(items)@;
                let after = items@;
                assert(after =~= before.insert(index as int, item));
                assert forall|i: int, j: int| 0 <= i < j < after.len() implies (
                #[trigger] after[i]).ordered_before(#[trigger] after[j]) by {
                    if j < index {
                        assert(after[i] == before[i] && after[j] == before[j]);
                    } else if j == index {
                        assert(after[i] == before[i]);
                    } else if i < index {
                        assert(after[i] == before[i] && after[j] == before[j - 1]);
                        T::ordered_before_transitive(before[i], item, before[j - 1]);
                    } else if i == index {
                        assert(after[j] == before[j - 1]);
                    } else {
                        assert(after[i] == before[i - 1] && after[j] == before[j - 1]);
                    }
                }
                assert forall|x: T| after.to_set().contains(x) <==> before.to_set().insert(
                    item,
                ).contains(x) by {
                    if after.contains(x) {
                        let k = choose|k: int| 0 <= k < after.len() && after[k] == x;
                        if k < index {
                            assert(before[k] == x);
                        } else if k > index {
                            assert(before[k - 1] == x);
                        }
                    }
                    if before.contains(x) {
                        let k = choose|k: int| 0 <= k < before.len() && before[k] == x;
                        if k < index {
                            assert(after[k] == x);
                        } else {
                            assert(after[k + 1] == x);
                        }
                    }
                    if x == item {
                        assert(after[index as int] == x);
                    }
                }
                assert(after.to_set() =~= before.to_set().insert(item));
            }
        },
    }
}

/// Dropping the greatest element of a strictly ascending sequence removes
/// exactly that element from its set.
proof fn lemma_drop_last_set<T: StrictOrder>(items: Seq<T>)
    requires
        strictly_ascending(items),
        items.len() > 0,
    ensures
        items.drop_last().to_set() == items.to_set().remove(items.last()),
{
    let shorter = items.drop_last();
    assert forall|x: T| shorter.to_set().contains(x) == items.to_set().remove(items.last()).contains(x) by {
        if shorter.contains(x) {
            let i = choose|i: int| 0 <= i < shorter.len() && shorter[i] == x;
            assert(items[i] == x);
            assert(items[i].ordered_before(items[items.len() - 1]));
            T::ordered_before_trichotomy(x, items.last());
        }
        if items.contains(x) && x != items.last() {
            let i = choose|i: int| 0 <= i < items.len() && items[i] == x;
            assert(shorter[i] == x);
        }
    }
    assert(shorter.to_set() =~= items.to_set().remove(items.last()));
}

/// A strictly ascending sequence is determined by its set of elements.
pub proof fn lemma_ascending_determined_by_set<T: StrictOrder>(a: Seq<T>, b: Seq<T>)
    requires
        strictly_ascending(a),
        strictly_ascending(b),
        a.to_set() == b.to_set(),
    ensures
        a == b,
    decreases a.len(),
{
    if a.len() == 0 {
        if b.len() > 0 {
            assert(b.to_set().contains(b[0]));
        }
        assert(a =~= b);
    } else if b.len() == 0 {
        assert(a.to_set().contains(a[0]));
    } else {
        let x = a.last();
        let y = b.last();
        assert(a.to_set().contains(x));
        assert(b.to_set().contains(y));
        if x != y {
            let i = choose|i: int| 0 <= i < b.len() && b[i] == x;
            let j = choose|j: int| 0 <= j < a.len() && a[j] == y;
            assert(i < b.len() - 1 && j < a.len() - 1);
            assert(b[i].ordered_before(b[b.len() - 1]));
            assert(a[j].ordered_before(a[a.len() - 1]));
            T::ordered_before_trichotomy(x, y);
        }
        lemma_drop_last_set(a);
        lemma_drop_last_set(b);
        lemma_ascending_determined_by_set(a.drop_last(), b.drop_last());
        assert(a =~= a.drop_last().push(x));
        assert(b =~= b.drop_last().push(y));
    }
}

} // verus!
