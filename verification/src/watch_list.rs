//! The watch-list of the rigid bodies that report contacts: a list of keys
//! kept strictly increasing, so that a key is found by bisection.

use crate::storage::StoreKey;
use vstd::prelude::*;

verus! {

/// Whether `list` is strictly increasing in the order of keys.
pub open spec fn sorted(list: Seq<StoreKey>) -> bool {
    forall|i: int, j: int| 0 <= i < j < list.len() ==> (#[trigger] list[i]).spec_lt(#[trigger] list[j])
}

/// Whether `p` splits `list` at `key`: the keys before `p` come before
/// `key`, the keys from `p` on do not.
pub open spec fn splits(list: Seq<StoreKey>, key: StoreKey, p: int) -> bool {
    &&& 0 <= p <= list.len()
    &&& forall|i: int| 0 <= i < p ==> (#[trigger] list[i]).spec_lt(key)
    &&& forall|i: int| p <= i < list.len() ==> !(#[trigger] list[i]).spec_lt(key)
}

/// The place of `key` in a sorted list: the number of keys that come before
/// it.
pub open spec fn rank(list: Seq<StoreKey>, key: StoreKey) -> int {
    choose|p: int| splits(list, key, p)
}

/// The watch-list after a rigid body with the key `key` was found to report
/// `count` contacts: the key leaves the list when the count is zero, and
/// enters it at its place when the count is not zero.
pub open spec fn watch_updated(list: Seq<StoreKey>, key: StoreKey, count: usize) -> Seq<StoreKey> {
    if list.contains(key) {
        if count == 0 {
            list.remove(list.index_of(key))
        } else {
            list
        }
    } else {
        if count != 0 {
            list.insert(rank(list, key), key)
        } else {
            list
        }
    }
}

/// A list is split at a key in one place only.
pub proof fn lemma_split_unique(list: Seq<StoreKey>, key: StoreKey, p: int, q: int)
    requires
        splits(list, key, p),
        splits(list, key, q),
    ensures
        p == q,
{
    if p < q {
        assert(list[p].spec_lt(key));
    }
    if q < p {
        assert(list[q].spec_lt(key));
    }
}

/// The updated watch-list is sorted, and holds the keys that it held
/// before, with `key` if and only if the count is not zero.
pub proof fn lemma_watch_updated(list: Seq<StoreKey>, key: StoreKey, count: usize)
    requires
        sorted(list),
    ensures
        sorted(watch_updated(list, key, count)),
        forall|k: StoreKey|
            #[trigger] watch_updated(list, key, count).contains(k) <==> (if k == key {
                count != 0
            } else {
                list.contains(k)
            }),
{
    let after = watch_updated(list, key, count);
    if list.contains(key) {
        let at = list.index_of(key);
        assert(0 <= at < list.len() && list[at] == key);
        if count == 0 {
            assert forall|i: int, j: int| 0 <= i < j < after.len() implies (#[trigger] after[i]).spec_lt(
                #[trigger] after[j],
            ) by {
                let a = if i < at {
                    i
                } else {
                    i + 1
                };
                let b = if j < at {
                    j
                } else {
                    j + 1
                };
                assert(after[i] == list[a] && after[j] == list[b]);
            }
            assert forall|k: StoreKey| #[trigger] after.contains(k) <==> (if k == key {
                count != 0
            } else {
                list.contains(k)
            }) by {
                if after.contains(k) {
                    let i = choose|i: int| 0 <= i < after.len() && after[i] == k;
                    let a = if i < at {
                        i
                    } else {
                        i + 1
                    };
                    assert(after[i] == list[a]);
                    if k == key {
                        if a < at {
                            assert(list[a].spec_lt(list[at]));
                        } else {
                            assert(list[at].spec_lt(list[a]));
                        }
                    }
                }
                if k != key && list.contains(k) {
                    let a = choose|a: int| 0 <= a < list.len() && list[a] == k;
                    let i = if a < at {
                        a
                    } else {
                        a - 1
                    };
                    assert(after[i] == k);
                }
            }
        }
    } else if count != 0 {
        lemma_split_exists(list, key);
        let p = rank(list, key);
        assert(splits(list, key, p));
        assert forall|i: int| p <= i < list.len() implies key.spec_lt(#[trigger] list[i]) by {
            assert(!list[i].spec_lt(key));
            assert(list.contains(list[i]));
        }
        assert forall|i: int, j: int| 0 <= i < j < after.len() implies (#[trigger] after[i]).spec_lt(
            #[trigger] after[j],
        ) by {
            let a = if i < p {
                i
            } else {
                i - 1
            };
            let b = if j < p {
                j
            } else {
                j - 1
            };
            if i == p {
                assert(after[i] == key && after[j] == list[b]);
            } else if j == p {
                assert(after[j] == key && after[i] == list[a]);
            } else {
                assert(after[i] == list[a] && after[j] == list[b]);
            }
        }
        assert forall|k: StoreKey| #[trigger] after.contains(k) <==> (if k == key {
            count != 0
        } else {
            list.contains(k)
        }) by {
            if k == key {
                assert(after[p] == key);
            } else {
                if after.contains(k) {
                    let i = choose|i: int| 0 <= i < after.len() && after[i] == k;
                    let a = if i < p {
                        i
                    } else {
                        i - 1
                    };
                    assert(after[i] == list[a]);
                }
                if list.contains(k) {
                    let a = choose|a: int| 0 <= a < list.len() && list[a] == k;
                    let i = if a < p {
                        a
                    } else {
                        a + 1
                    };
                    assert(after[i] == k);
                }
            }
        }
    }
}

/// Every sorted list is split at every key.
pub proof fn lemma_split_exists(list: Seq<StoreKey>, key: StoreKey)
    requires
        sorted(list),
    ensures
        splits(list, key, rank(list, key)),
    decreases list.len(),
{
    if list.len() == 0 {
        assert(splits(list, key, 0));
    } else {
        let front = list.drop_last();
        assert forall|i: int, j: int| 0 <= i < j < front.len() implies (#[trigger] front[i]).spec_lt(
            #[trigger] front[j],
        ) by {
            assert(front[i] == list[i] && front[j] == list[j]);
        }
        lemma_split_exists(front, key);
        let p = rank(front, key);
        if list.last().spec_lt(key) {
            assert forall|i: int| 0 <= i < list.len() implies (#[trigger] list[i]).spec_lt(key) by {
                if i < list.len() - 1 {
                    assert(list[i].spec_lt(list[list.len() - 1]));
                }
            }
            assert(splits(list, key, list.len() as int));
        } else {
            assert forall|i: int| 0 <= i < p implies (#[trigger] list[i]).spec_lt(key) by {
                assert(front[i] == list[i]);
            }
            assert forall|i: int| p <= i < list.len() implies !(#[trigger] list[i]).spec_lt(key) by {
                if i < list.len() - 1 {
                    assert(front[i] == list[i]);
                }
            }
            assert(splits(list, key, p));
        }
    }
}

/// Finds `key` in the sorted list `list` by bisection: whether it is there,
/// and the place where it is or would be.
pub fn find_watched(list: &Vec<StoreKey>, key: StoreKey) -> (found: (bool, usize))
    requires
        sorted(list@),
    ensures
        found.0 == list@.contains(key),
        found.0 ==> found.1 < list.len() && list[found.1 as int] == key && found.1
            == list@.index_of(key),
        !found.0 ==> found.1 == rank(list@, key),
        splits(list@, key, found.1 as int),
{
    let mut low: usize = 0;
    let mut high: usize = list.len();
    while low < high
        invariant
            sorted(list@),
            low <= high <= list.len(),
            forall|i: int| 0 <= i < low ==> (#[trigger] list[i]).spec_lt(key),
            forall|i: int| high <= i < list.len() ==> !(#[trigger] list[i]).spec_lt(key),
        decreases high - low,
    {
        let mid: usize = low + (high - low) / 2;
        if list[mid].lt(key) {
            proof {
                assert forall|i: int| 0 <= i < mid + 1 implies (#[trigger] list[i]).spec_lt(key) by {
                    if i < mid {
                        assert(list[i].spec_lt(list[mid as int]));
                    }
                }
            }
            low = mid + 1;
        } else {
            proof {
                assert forall|i: int| mid <= i < list.len() implies !(#[trigger] list[i]).spec_lt(
                    key,
                ) by {
                    if mid < i {
                        assert(list[mid as int].spec_lt(list[i]));
                    }
                }
            }
            high = mid;
        }
    }
    let here: bool = low < list.len() && list[low] == key;
    proof {
        assert(splits(list@, key, low as int));
        lemma_split_exists(list@, key);
        lemma_split_unique(list@, key, low as int, rank(list@, key));
        if list@.contains(key) {
            let at = list@.index_of(key);
            assert(0 <= at < list.len() && list[at] == key);
            if at < low {
                assert(list[at].spec_lt(key));
            }
            if at > low {
                assert(!list[low as int].spec_lt(key));
                assert(list[low as int].spec_lt(list[at]));
            }
        }
        if here {
            assert(list@.contains(key));
        }
    }
    (here, low)
}

} // verus!
