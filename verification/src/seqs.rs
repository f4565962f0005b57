//! Dropping elements from a sequence while keeping the order of the rest.

use vstd::prelude::*;
use crate::models::Id;

verus! {

/// Those of the first `n` elements of `s` that `drop` does not name, in order.
pub open spec fn kept<T>(s: Seq<T>, drop: spec_fn(T) -> bool, n: nat) -> Seq<T>
    decreases n,
{
    if n == 0 || n > s.len() {
        Seq::empty()
    } else if drop(s[n - 1]) {
        kept(s, drop, (n - 1) as nat)
    } else {
        kept(s, drop, (n - 1) as nat).push(s[n - 1])
    }
}

/// What is kept of a sequence whose keys grow: the keys still grow, and
/// each element kept is one of the first `n` that `drop` does not name.
pub proof fn lemma_kept_increasing<T>(
    s: Seq<T>,
    drop: spec_fn(T) -> bool,
    key: spec_fn(T) -> Id,
    n: nat,
)
    requires
        n <= s.len(),
        forall|i: int, j: int| 0 <= i < j < s.len() ==> key(#[trigger] s[i]) < key(#[trigger] s[j]),
    ensures
        kept(s, drop, n).len() <= n,
        forall|a: int, b: int|
            0 <= a < b < kept(s, drop, n).len() ==> key(#[trigger] kept(s, drop, n)[a]) < key(
                #[trigger] kept(s, drop, n)[b],
            ),
        forall|a: int|
            0 <= a < kept(s, drop, n).len() ==> exists|j: int|
                0 <= j < n && s[j] == #[trigger] kept(s, drop, n)[a] && !drop(s[j]),
    decreases n,
{
    if n > 0 {
        lemma_kept_increasing(s, drop, key, (n - 1) as nat);
        let prev = kept(s, drop, (n - 1) as nat);
        let cur = kept(s, drop, n);
        assert forall|a: int| 0 <= a < cur.len() implies exists|j: int|
            0 <= j < n && s[j] == #[trigger] cur[a] && !drop(s[j]) by {
            if a < prev.len() {
                let j = choose|j: int| 0 <= j < n - 1 && s[j] == prev[a] && !drop(s[j]);
                assert(s[j] == cur[a]);
            } else {
                assert(s[n - 1] == cur[a]);
            }
        }
        assert forall|a: int, b: int| 0 <= a < b < cur.len() implies key(#[trigger] cur[a]) < key(
            #[trigger] cur[b],
        ) by {
            if b < prev.len() {
                assert(cur[a] == prev[a] && cur[b] == prev[b]);
            } else {
                let j = choose|j: int| 0 <= j < n - 1 && s[j] == prev[a] && !drop(s[j]);
                assert(cur[b] == s[n - 1]);
                assert(key(s[j]) < key(s[n - 1]));
            }
        }
    }
}

/// An element that `drop` does not name is kept, and one that it names is not.
pub proof fn lemma_kept_members<T>(s: Seq<T>, drop: spec_fn(T) -> bool, n: nat, j: int)
    requires
        0 <= j < n <= s.len(),
    ensures
        !drop(s[j]) ==> kept(s, drop, n).contains(s[j]),
    decreases n,
{
    if j == n - 1 {
        if !drop(s[j]) {
            let k = kept(s, drop, n);
            assert(k[k.len() - 1] == s[j]);
        }
    } else {
        lemma_kept_members(s, drop, (n - 1) as nat, j);
        if !drop(s[j]) {
            let prev = kept(s, drop, (n - 1) as nat);
            let i = choose|i: int| 0 <= i < prev.len() && prev[i] == s[j];
            assert(kept(s, drop, n)[i] == s[j]);
        }
    }
}

/// Whether `id` is one of `ids`.
pub fn contains_id(ids: &Vec<Id>, id: Id) -> (r: bool)
    ensures
        r == ids@.contains(id),
{
    let mut i: usize = 0;
    while i < ids.len()
        invariant
            i <= ids@.len(),
            forall|j: int| 0 <= j < i ==> ids@[j] != id,
        decreases ids@.len() - i,
    {
        if ids[i] == id {
            return true;
        }
        i += 1;
    }
    false
}

} // verus!
