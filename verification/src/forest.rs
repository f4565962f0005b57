//! Why the directories stay a forest: facts about walking from a
//! directory to its parents.

use vstd::prelude::*;
use crate::models::{DirectoryView, Id};
use crate::store::{acyclic, dir_pos, ends_within, has_dir, parents_known};

verus! {

/// The ids of `dirs` grow with the position.
pub open spec fn dirs_increasing(dirs: Seq<DirectoryView>) -> bool {
    forall|i: int, j: int|
        0 <= i < j < dirs.len() ==> (#[trigger] dirs[i]).id < (#[trigger] dirs[j]).id
}

/// Where ids grow, the directory at a position is the one that its id names.
pub proof fn lemma_dir_at(dirs: Seq<DirectoryView>, i: int)
    requires
        dirs_increasing(dirs),
        0 <= i < dirs.len(),
    ensures
        has_dir(dirs, dirs[i].id),
        dir_pos(dirs, dirs[i].id) == i,
{
    let j = dir_pos(dirs, dirs[i].id);
    if j < i {
        assert(dirs[j].id < dirs[i].id);
    } else if i < j {
        assert(dirs[i].id < dirs[j].id);
    }
}

/// Whether the walk from `start` to its parents meets `target` within `steps` steps.
pub open spec fn meets(dirs: Seq<DirectoryView>, start: Id, target: Id, steps: nat) -> bool
    decreases steps,
{
    start == target || (steps > 0 && has_dir(dirs, start) && match dirs[dir_pos(
        dirs,
        start,
    )].parent_id {
        Some(p) => meets(dirs, p, target, (steps - 1) as nat),
        None => false,
    })
}

/// Whether `start` is `target` or lies below it.
pub open spec fn lies_under(dirs: Seq<DirectoryView>, start: Id, target: Id) -> bool {
    exists|k: nat| meets(dirs, start, target, k)
}

/// A walk that ends within some steps ends within more.
pub proof fn lemma_ends_later(dirs: Seq<DirectoryView>, id: Id, k: nat, m: nat)
    requires
        ends_within(dirs, id, k),
    ensures
        ends_within(dirs, id, k + m),
    decreases k,
{
    if has_dir(dirs, id) && k > 0 {
        match dirs[dir_pos(dirs, id)].parent_id {
            Some(p) => {
                lemma_ends_later(dirs, p, (k - 1) as nat, m);
            },
            None => {},
        }
    }
}

/// Where every directory of `new` is one of `old` with the same parent, a
/// walk that ends in `old` ends in `new`.
pub proof fn lemma_walk_preserved(old_dirs: Seq<DirectoryView>, new_dirs: Seq<DirectoryView>, id: Id, k: nat)
    requires
        dirs_increasing(old_dirs),
        dirs_increasing(new_dirs),
        forall|a: int|
            0 <= a < new_dirs.len() ==> exists|j: int|
                0 <= j < old_dirs.len() && old_dirs[j].id == (#[trigger] new_dirs[a]).id
                    && old_dirs[j].parent_id == new_dirs[a].parent_id,
        ends_within(old_dirs, id, k),
    ensures
        ends_within(new_dirs, id, k),
    decreases k,
{
    if has_dir(new_dirs, id) {
        let a = dir_pos(new_dirs, id);
        let j = choose|j: int|
            0 <= j < old_dirs.len() && old_dirs[j].id == new_dirs[a].id && old_dirs[j].parent_id
                == new_dirs[a].parent_id;
        lemma_dir_at(old_dirs, j);
        match new_dirs[a].parent_id {
            Some(p) => {
                lemma_walk_preserved(old_dirs, new_dirs, p, (k - 1) as nat);
            },
            None => {},
        }
    }
}

/// Directories taken from a forest, with their parents unchanged, are a forest.
pub proof fn lemma_part_of_forest(old_dirs: Seq<DirectoryView>, new_dirs: Seq<DirectoryView>)
    requires
        dirs_increasing(old_dirs),
        dirs_increasing(new_dirs),
        acyclic(old_dirs),
        forall|a: int|
            0 <= a < new_dirs.len() ==> exists|j: int|
                0 <= j < old_dirs.len() && old_dirs[j].id == (#[trigger] new_dirs[a]).id
                    && old_dirs[j].parent_id == new_dirs[a].parent_id,
    ensures
        acyclic(new_dirs),
{
    assert forall|a: int| 0 <= a < new_dirs.len() implies exists|k: nat|
        ends_within(new_dirs, (#[trigger] new_dirs[a]).id, k) by {
        let j = choose|j: int|
            0 <= j < old_dirs.len() && old_dirs[j].id == new_dirs[a].id && old_dirs[j].parent_id
                == new_dirs[a].parent_id;
        let k = choose|k: nat| ends_within(old_dirs, old_dirs[j].id, k);
        lemma_walk_preserved(old_dirs, new_dirs, new_dirs[a].id, k);
    }
}

/// A walk among ids below `d.id`, none of which names `d.id` as a parent,
/// is not changed by adding `d`.
pub proof fn lemma_walk_below_new(dirs: Seq<DirectoryView>, d: DirectoryView, id: Id, k: nat)
    requires
        dirs_increasing(dirs),
        forall|i: int| 0 <= i < dirs.len() ==> (#[trigger] dirs[i]).id < d.id,
        parents_known(dirs, d.id),
        id < d.id,
        ends_within(dirs, id, k),
    ensures
        ends_within(dirs.push(d), id, k),
    decreases k,
{
    let new_dirs = dirs.push(d);
    assert(dirs_increasing(new_dirs)) by {
        assert forall|i: int, j: int| 0 <= i < j < new_dirs.len() implies (
        #[trigger] new_dirs[i]).id < (#[trigger] new_dirs[j]).id by {
            if j < dirs.len() {
                assert(dirs[i].id < dirs[j].id);
            } else {
                assert(dirs[i].id < d.id);
            }
        }
    }
    if has_dir(new_dirs, id) {
        let a = dir_pos(new_dirs, id);
        assert(a < dirs.len());
        assert(new_dirs[a] == dirs[a]);
        lemma_dir_at(dirs, a);
        match dirs[a].parent_id {
            Some(p) => {
                lemma_walk_below_new(dirs, d, p, (k - 1) as nat);
            },
            None => {},
        }
    }
}

/// A forest with one more directory, whose id is new and whose parent is an
/// older id or none, is a forest.
pub proof fn lemma_forest_grows(dirs: Seq<DirectoryView>, d: DirectoryView)
    requires
        dirs_increasing(dirs),
        acyclic(dirs),
        forall|i: int| 0 <= i < dirs.len() ==> (#[trigger] dirs[i]).id < d.id,
        parents_known(dirs, d.id),
        match d.parent_id {
            Some(p) => p < d.id,
            None => true,
        },
    ensures
        dirs_increasing(dirs.push(d)),
        acyclic(dirs.push(d)),
{
    let new_dirs = dirs.push(d);
    assert(dirs_increasing(new_dirs)) by {
        assert forall|i: int, j: int| 0 <= i < j < new_dirs.len() implies (
        #[trigger] new_dirs[i]).id < (#[trigger] new_dirs[j]).id by {
            if j < dirs.len() {
                assert(dirs[i].id < dirs[j].id);
            } else {
                assert(dirs[i].id < d.id);
            }
        }
    }
    assert forall|a: int| 0 <= a < new_dirs.len() implies exists|k: nat|
        ends_within(new_dirs, (#[trigger] new_dirs[a]).id, k) by {
        if a < dirs.len() {
            assert(new_dirs[a] == dirs[a]);
            let k = choose|k: nat| ends_within(dirs, dirs[a].id, k);
            lemma_walk_below_new(dirs, d, dirs[a].id, k);
        } else {
            lemma_dir_at(new_dirs, a);
            match d.parent_id {
                Some(p) => {
                    if has_dir(dirs, p) {
                        let j = dir_pos(dirs, p);
                        let k = choose|k: nat| ends_within(dirs, dirs[j].id, k);
                        lemma_walk_below_new(dirs, d, p, k);
                        assert(ends_within(new_dirs, d.id, k + 1));
                    } else {
                        assert(ends_within(dirs, p, 0));
                        lemma_walk_below_new(dirs, d, p, 0);
                        assert(ends_within(new_dirs, d.id, 1));
                    }
                },
                None => {
                    assert(ends_within(new_dirs, d.id, 1));
                },
            }
        }
    }
}

/// A walk that never meets the moved directory is not changed by the move.
pub proof fn lemma_walk_avoiding(dirs: Seq<DirectoryView>, pos: int, d: DirectoryView, id: Id, k: nat)
    requires
        dirs_increasing(dirs),
        0 <= pos < dirs.len(),
        d.id == dirs[pos].id,
        !lies_under(dirs, id, d.id),
        ends_within(dirs, id, k),
    ensures
        ends_within(dirs.update(pos, d), id, k),
    decreases k,
{
    let new_dirs = dirs.update(pos, d);
    lemma_update_increasing(dirs, pos, d);
    assert(!meets(dirs, id, d.id, 0));
    if has_dir(new_dirs, id) {
        let a = dir_pos(new_dirs, id);
        assert(a != pos);
        assert(new_dirs[a] == dirs[a]);
        lemma_dir_at(dirs, a);
        match dirs[a].parent_id {
            Some(p) => {
                assert(!lies_under(dirs, p, d.id)) by {
                    if lies_under(dirs, p, d.id) {
                        let m = choose|m: nat| meets(dirs, p, d.id, m);
                        assert(meets(dirs, id, d.id, m + 1));
                    }
                }
                lemma_walk_avoiding(dirs, pos, d, p, (k - 1) as nat);
            },
            None => {},
        }
    }
}

/// Replacing a directory by one of the same id keeps the ids growing.
pub proof fn lemma_update_increasing(dirs: Seq<DirectoryView>, pos: int, d: DirectoryView)
    requires
        dirs_increasing(dirs),
        0 <= pos < dirs.len(),
        d.id == dirs[pos].id,
    ensures
        dirs_increasing(dirs.update(pos, d)),
{
    let new_dirs = dirs.update(pos, d);
    assert forall|i: int, j: int| 0 <= i < j < new_dirs.len() implies (#[trigger] new_dirs[i]).id
        < (#[trigger] new_dirs[j]).id by {
        assert(dirs[i].id < dirs[j].id);
    }
}

/// Once the walk from the moved directory ends, every walk ends.
pub proof fn lemma_walk_after_move(
    dirs: Seq<DirectoryView>,
    pos: int,
    d: DirectoryView,
    id: Id,
    k: nat,
    m: nat,
)
    requires
        dirs_increasing(dirs),
        0 <= pos < dirs.len(),
        d.id == dirs[pos].id,
        ends_within(dirs, id, k),
        ends_within(dirs.update(pos, d), d.id, m),
    ensures
        ends_within(dirs.update(pos, d), id, k + m),
    decreases k,
{
    let new_dirs = dirs.update(pos, d);
    lemma_update_increasing(dirs, pos, d);
    if has_dir(new_dirs, id) {
        let a = dir_pos(new_dirs, id);
        if a == pos {
            lemma_ends_later(new_dirs, d.id, m, k);
        } else {
            assert(new_dirs[a] == dirs[a]);
            lemma_dir_at(dirs, a);
            match dirs[a].parent_id {
                Some(p) => {
                    lemma_walk_after_move(dirs, pos, d, p, (k - 1) as nat, m);
                },
                None => {},
            }
        }
    }
}

/// A forest stays a forest when a directory is put under a parent that
/// does not lie under it, or is given other fields than its parent.
pub proof fn lemma_forest_after_move(dirs: Seq<DirectoryView>, pos: int, d: DirectoryView)
    requires
        dirs_increasing(dirs),
        acyclic(dirs),
        0 <= pos < dirs.len(),
        d.id == dirs[pos].id,
        d.parent_id == dirs[pos].parent_id || match d.parent_id {
            Some(p) => !lies_under(dirs, p, d.id),
            None => true,
        },
    ensures
        dirs_increasing(dirs.update(pos, d)),
        acyclic(dirs.update(pos, d)),
{
    let new_dirs = dirs.update(pos, d);
    lemma_update_increasing(dirs, pos, d);
    lemma_dir_at(new_dirs, pos);
    lemma_dir_at(dirs, pos);
    let m: nat = match d.parent_id {
        Some(p) => {
            if !lies_under(dirs, p, d.id) {
                if has_dir(dirs, p) {
                    let j = dir_pos(dirs, p);
                    let k = choose|k: nat| ends_within(dirs, dirs[j].id, k);
                    lemma_walk_avoiding(dirs, pos, d, p, k);
                    assert(ends_within(new_dirs, d.id, k + 1));
                    k + 1
                } else {
                    assert(ends_within(dirs, p, 0));
                    lemma_walk_avoiding(dirs, pos, d, p, 0);
                    assert(ends_within(new_dirs, d.id, 1));
                    1
                }
            } else {
                // the parent is the one it had: it lies above, so its walk avoids `d`
                let k = choose|k: nat| ends_within(dirs, dirs[pos].id, k);
                assert(k > 0);
                assert(ends_within(dirs, p, (k - 1) as nat));
                lemma_same_parent_walk(dirs, pos, d, p, (k - 1) as nat);
                assert(ends_within(new_dirs, d.id, k));
                k
            }
        },
        None => {
            assert(ends_within(new_dirs, d.id, 1));
            1
        },
    };
    assert forall|a: int| 0 <= a < new_dirs.len() implies exists|k: nat|
        ends_within(new_dirs, (#[trigger] new_dirs[a]).id, k) by {
        let k = choose|k: nat| ends_within(dirs, dirs[a].id, k);
        lemma_walk_after_move(dirs, pos, d, dirs[a].id, k, m);
    }
}

/// Where the directory at `pos` keeps its parent, a walk that ends in
/// `dirs` ends in the updated directories.
pub proof fn lemma_same_parent_walk(
    dirs: Seq<DirectoryView>,
    pos: int,
    d: DirectoryView,
    id: Id,
    k: nat,
)
    requires
        dirs_increasing(dirs),
        0 <= pos < dirs.len(),
        d.id == dirs[pos].id,
        d.parent_id == dirs[pos].parent_id,
        ends_within(dirs, id, k),
    ensures
        ends_within(dirs.update(pos, d), id, k),
    decreases k,
{
    let new_dirs = dirs.update(pos, d);
    lemma_update_increasing(dirs, pos, d);
    if has_dir(new_dirs, id) {
        let a = dir_pos(new_dirs, id);
        lemma_dir_at(dirs, a);
        match dirs[a].parent_id {
            Some(p) => {
                lemma_same_parent_walk(dirs, pos, d, p, (k - 1) as nat);
            },
            None => {},
        }
    }
}

/// A walk that ends within `k` steps and meets `b` on its way ends within
/// `k` steps from `b` too.
pub proof fn lemma_ends_along(dirs: Seq<DirectoryView>, a: Id, b: Id, j: nat, k: nat)
    requires
        ends_within(dirs, a, k),
        meets(dirs, a, b, j),
    ensures
        ends_within(dirs, b, k),
    decreases j,
{
    if a != b {
        let p = dirs[dir_pos(dirs, a)].parent_id.unwrap();
        lemma_ends_along(dirs, p, b, (j - 1) as nat, (k - 1) as nat);
        lemma_ends_later(dirs, b, (k - 1) as nat, 1);
    }
}

/// A walk that comes to an end never comes back to where it began.
pub proof fn lemma_no_return(dirs: Seq<DirectoryView>, x: Id, y: Id, j: nat, k: nat)
    requires
        has_dir(dirs, x),
        dirs[dir_pos(dirs, x)].parent_id == Some(y),
        meets(dirs, y, x, j),
    ensures
        !ends_within(dirs, x, k),
    decreases k,
{
    if ends_within(dirs, x, k) {
        lemma_ends_along(dirs, y, x, j, (k - 1) as nat);
        lemma_no_return(dirs, x, y, j, (k - 1) as nat);
    }
}

/// Whether every directory that the walk from `x` meets stands at one of
/// the positions `within`.
pub open spec fn walk_stays(dirs: Seq<DirectoryView>, x: Id, within: Set<int>) -> bool {
    forall|z: Id, j: nat|
        #[trigger] meets(dirs, x, z, j) && has_dir(dirs, z) ==> within.contains(dir_pos(dirs, z))
}

/// A walk that comes to an end, and meets directories at finitely many
/// positions only, ends within as many steps as there are positions.
pub proof fn lemma_walk_bounded(dirs: Seq<DirectoryView>, x: Id, k: nat, within: Set<int>)
    requires
        dirs_increasing(dirs),
        within.finite(),
        ends_within(dirs, x, k),
        walk_stays(dirs, x, within),
    ensures
        ends_within(dirs, x, within.len()),
    decreases k,
{
    if has_dir(dirs, x) {
        let p = dir_pos(dirs, x);
        assert(meets(dirs, x, x, 0));
        assert(within.contains(p));
        match dirs[p].parent_id {
            None => {},
            Some(y) => {
                let rest = within.remove(p);
                assert forall|z: Id, j: nat| #[trigger]
                    meets(dirs, y, z, j) && has_dir(dirs, z) implies rest.contains(
                    dir_pos(dirs, z),
                ) by {
                    assert(meets(dirs, x, z, j + 1));
                    if dir_pos(dirs, z) == p {
                        assert(z == x);
                        lemma_no_return(dirs, x, y, j, k);
                    }
                }
                lemma_walk_bounded(dirs, y, (k - 1) as nat, rest);
            },
        }
    }
}

/// In a forest the walk from any directory ends within as many steps as
/// there are directories.
pub proof fn lemma_forest_depth(dirs: Seq<DirectoryView>, x: Id)
    requires
        dirs_increasing(dirs),
        acyclic(dirs),
    ensures
        ends_within(dirs, x, dirs.len()),
{
    if has_dir(dirs, x) {
        let p = dir_pos(dirs, x);
        let k = choose|k: nat| ends_within(dirs, dirs[p].id, k);
        let all = vstd::set_lib::set_int_range(0, dirs.len() as int);
        vstd::set_lib::lemma_int_range(0, dirs.len() as int);
        assert forall|z: Id, j: nat| #[trigger]
            meets(dirs, x, z, j) && has_dir(dirs, z) implies all.contains(dir_pos(dirs, z)) by {}
        lemma_walk_bounded(dirs, x, k, all);
    }
}

} // verus!
