//! The task repository: a model of the backing table — rows ordered by
//! descending id, plus the auto-increment counter — and the CRUD
//! operations over it.

use vstd::prelude::*;

use crate::task::{task_done, task_id, Task};

verus! {

/// Failure of a repository operation.
#[derive(Clone, Copy, Debug, PartialEq, Eq, Structural)]
pub enum StoreError {
    /// A point query found no row with the requested id.
    NotFound,
    /// The id counter cannot grow any further, so no fresh id is left
    /// for a new row.
    IdExhausted,
}

/// The task table: all rows, newest first, and the id the next insert
/// will assign.
pub struct TaskStore {
    rows: Vec<Task>,
    next_id: i32,
}

impl View for TaskStore {
    type V = Seq<Task>;

    /// The rows of the table, ordered by descending id.
    closed spec fn view(&self) -> Seq<Task> {
        self.rows@
    }
}

/// A persisted row whose id lies below the id counter `bound`.
pub open spec fn row_wf(t: Task, bound: int) -> bool {
    &&& t.id is Some
    &&& 1 <= task_id(t) < bound
}

/// Whether some row of `s` carries the id `id`.
pub open spec fn has_id(s: Seq<Task>, id: int) -> bool {
    exists|i: int| 0 <= i < s.len() && task_id(#[trigger] s[i]) == id
}

/// What a successful insert did: one new row at the front, carrying the
/// previously fresh id, the given description and an explicit `false`
/// flag; every old row kept, in order, behind it; the id counter
/// advanced past the id just used.
pub open spec fn inserted(pre: TaskStore, post: TaskStore, descr: Seq<char>) -> bool {
    &&& post@.len() == pre@.len() + 1
    &&& post@[0].id == Some(pre.fresh_id() as i32)
    &&& post@[0].description@ == descr
    &&& post@[0].completed == Some(false)
    &&& post@.skip(1) == pre@
    &&& post.fresh_id() == pre.fresh_id() + 1
}

/// What a successful toggle did to the rows: every row carrying another
/// id is untouched; the row carrying `id` keeps its id and description
/// and now holds the negation of the flag it was read with (an absent
/// flag read as `false`).
pub open spec fn toggled(pre: Seq<Task>, post: Seq<Task>, id: int) -> bool {
    &&& post.len() == pre.len()
    &&& forall|i: int|
        0 <= i < pre.len() && task_id(#[trigger] pre[i]) != id ==> post[i] == pre[i]
    &&& forall|i: int|
        0 <= i < pre.len() && task_id(#[trigger] pre[i]) == id ==> post[i].id == pre[i].id
            && post[i].description == pre[i].description && post[i].completed == Some(
            !task_done(pre[i]),
        )
}

/// The full contract of [`Task::toggle_with_id`]: the toggle rewrites
/// exactly the row carrying `id` and reports one affected row if such a
/// row exists; otherwise it fails with `NotFound` on an untouched
/// store. The id counter never moves.
pub open spec fn toggle_post(
    pre: TaskStore,
    post: TaskStore,
    id: int,
    r: Result<usize, StoreError>,
) -> bool {
    if has_id(pre@, id) {
        r == Ok::<usize, StoreError>(1) && toggled(pre@, post@, id) && post.fresh_id()
            == pre.fresh_id()
    } else {
        r == Err::<usize, StoreError>(StoreError::NotFound) && post == pre
    }
}

/// The full contract of [`Task::insert`]: the insert succeeds, adding
/// exactly one row, if and only if a fresh id is left; otherwise it
/// reports the exhausted id space and leaves the store untouched.
pub open spec fn insert_post(
    pre: TaskStore,
    post: TaskStore,
    descr: Seq<char>,
    r: Result<usize, StoreError>,
) -> bool {
    if pre.fresh_id() < i32::MAX as int {
        r == Ok::<usize, StoreError>(1) && inserted(pre, post, descr)
    } else {
        r == Err::<usize, StoreError>(StoreError::IdExhausted) && post == pre
    }
}

/// The rows of `s` with every row carrying `id` taken out, order kept.
pub open spec fn remove_id(s: Seq<Task>, id: int) -> Seq<Task>
    decreases s.len(),
{
    if s.len() == 0 {
        Seq::empty()
    } else if task_id(s.last()) == id {
        remove_id(s.drop_last(), id)
    } else {
        remove_id(s.drop_last(), id).push(s.last())
    }
}

/// The full contract of [`Task::delete_with_id`]: the delete always
/// succeeds; it takes out exactly the rows carrying `id` and reports
/// one affected row if such a row existed, none otherwise. The id
/// counter never moves, so a deleted id is never handed out again.
pub open spec fn delete_post(
    pre: TaskStore,
    post: TaskStore,
    id: int,
    r: Result<usize, StoreError>,
) -> bool {
    &&& post@ == remove_id(pre@, id)
    &&& post@.len() == if has_id(pre@, id) {
        pre@.len() - 1
    } else {
        pre@.len() as int
    }
    &&& post.fresh_id() == pre.fresh_id()
    &&& r == Ok::<usize, StoreError>(
        if has_id(pre@, id) {
            1usize
        } else {
            0usize
        },
    )
}

/// The full contract of [`Task::delete_all`]: the delete always
/// succeeds, empties the table and reports every former row as
/// affected. The id counter never moves.
pub open spec fn delete_all_post(
    pre: TaskStore,
    post: TaskStore,
    r: Result<usize, StoreError>,
) -> bool {
    &&& post@ == Seq::<Task>::empty()
    &&& post.fresh_id() == pre.fresh_id()
    &&& r == Ok::<usize, StoreError>(pre@.len() as usize)
}

/// Removing an id from rows that never carried it changes nothing.
pub proof fn lemma_remove_id_noop(s: Seq<Task>, id: int)
    requires
        !has_id(s, id),
    ensures
        remove_id(s, id) == s,
    decreases s.len(),
{
    if s.len() > 0 {
        assert(task_id(s.last()) != id);
        assert forall|k: int| 0 <= k < s.drop_last().len() implies task_id(
            #[trigger] s.drop_last()[k],
        ) != id by {
            assert(s.drop_last()[k] == s[k]);
        }
        lemma_remove_id_noop(s.drop_last(), id);
        assert(remove_id(s, id) =~= s);
    } else {
        assert(remove_id(s, id) =~= s);
    }
}

/// After a removal, no row carries the removed id.
pub proof fn lemma_remove_id_absent(s: Seq<Task>, id: int)
    ensures
        !has_id(remove_id(s, id), id),
    decreases s.len(),
{
    if s.len() > 0 {
        lemma_remove_id_absent(s.drop_last(), id);
        if task_id(s.last()) != id {
            let out = remove_id(s.drop_last(), id).push(s.last());
            assert(remove_id(s, id) == out);
            if has_id(out, id) {
                let w = choose|k: int| 0 <= k < out.len() && task_id(#[trigger] out[k]) == id;
                if w < out.len() - 1 {
                    assert(out[w] == remove_id(s.drop_last(), id)[w]);
                    assert(has_id(remove_id(s.drop_last(), id), id));
                } else {
                    assert(out[w] == s.last());
                }
            }
        }
    }
}

/// When a single row, at index `j`, carries `id`, the removal is
/// exactly the removal of that index.
proof fn lemma_remove_id_only(s: Seq<Task>, id: int, j: int)
    requires
        0 <= j < s.len(),
        task_id(s[j]) == id,
        forall|k: int| 0 <= k < s.len() && k != j ==> task_id(#[trigger] s[k]) != id,
    ensures
        remove_id(s, id) == s.remove(j),
    decreases s.len(),
{
    if j == s.len() - 1 {
        assert(task_id(s.last()) == id);
        assert forall|k: int| 0 <= k < s.drop_last().len() implies task_id(
            #[trigger] s.drop_last()[k],
        ) != id by {
            assert(s.drop_last()[k] == s[k]);
        }
        assert(!has_id(s.drop_last(), id));
        lemma_remove_id_noop(s.drop_last(), id);
        assert(remove_id(s, id) =~= s.remove(j));
    } else {
        assert(s.last() == s[s.len() - 1]);
        assert(task_id(s.last()) != id);
        assert(s.drop_last()[j] == s[j]);
        assert forall|k: int| 0 <= k < s.drop_last().len() && k != j implies task_id(
            #[trigger] s.drop_last()[k],
        ) != id by {
            assert(s.drop_last()[k] == s[k]);
        }
        lemma_remove_id_only(s.drop_last(), id, j);
        assert(remove_id(s, id) == s.drop_last().remove(j).push(s.last()));
        assert(remove_id(s, id) =~= s.remove(j));
    }
}

impl TaskStore {
    /// The id the next successful insert will assign.
    pub closed spec fn fresh_id(&self) -> int {
        self.next_id as int
    }

    /// A well-formed table: the id counter is positive, every row is
    /// persisted with an id the counter has already passed, and the ids
    /// strictly descend — the newest row first, no id used twice.
    pub open spec fn wf(&self) -> bool {
        &&& 1 <= self.fresh_id()
        &&& forall|i: int| 0 <= i < self@.len() ==> row_wf(#[trigger] self@[i], self.fresh_id())
        &&& forall|i: int, j: int|
            0 <= i < j < self@.len() ==> task_id(#[trigger] self@[i]) > task_id(
                #[trigger] self@[j],
            )
    }

    /// An empty table whose first insert will assign id 1.
    pub fn new() -> (s: TaskStore)
        ensures
            s.wf(),
            s@ == Seq::<Task>::empty(),
            s.fresh_id() == 1,
    {
        let s = TaskStore { rows: Vec::new(), next_id: 1 };
        proof {
            assert(s@ =~= Seq::<Task>::empty());
        }
        s
    }
}

impl Task {
    /// Every row of the table, newest first — the listing the route
    /// layer serves. Reading the table cannot fail, so the result is
    /// always `Ok`, and it holds exactly the store's rows.
    pub fn all(store: &TaskStore) -> (r: Result<Vec<Task>, StoreError>)
        ensures
            r is Ok,
            r->Ok_0@ == store@,
    {
        let mut out: Vec<Task> = Vec::new();
        let n = store.rows.len();
        let mut i: usize = 0;
        while i < n
            invariant
                n == store.rows@.len(),
                i <= n,
                out@.len() == i as int,
                forall|k: int| 0 <= k < i ==> #[trigger] out@[k] == store.rows@[k],
            decreases n - i,
        {
            let row = &store.rows[i];
            out.push(row.clone());
            i = i + 1;
        }
        proof {
            assert(out@ =~= store.rows@);
        }
        Ok(out)
    }

    /// Persist a fresh task. Only the description of `todo` is kept:
    /// the completion flag is forced to `false` and the store assigns
    /// the next id, as the table's auto-increment would. Returns the
    /// affected-row count, 1, whenever a fresh id is left.
    pub fn insert(todo: Task, store: &mut TaskStore) -> (r: Result<usize, StoreError>)
        requires
            old(store).wf(),
        ensures
            final(store).wf(),
            insert_post(*old(store), *final(store), todo.description@, r),
    {
        if store.next_id == i32::MAX {
            return Err(StoreError::IdExhausted);
        }
        let t = Task::new(todo.description);
        let row = Task { id: Some(store.next_id), description: t.description, completed: t.completed };
        store.rows.insert(0, row);
        store.next_id = store.next_id + 1;
        proof {
            let pre = *old(store);
            assert(store.rows@.skip(1) =~= pre.rows@);
            assert forall|i: int| 0 <= i < store@.len() implies row_wf(
                #[trigger] store@[i],
                store.fresh_id(),
            ) by {
                if i >= 1 {
                    assert(store@[i] == pre.rows@[i - 1]);
                    assert(row_wf(pre@[i - 1], pre.fresh_id()));
                }
            }
            assert forall|i: int, j: int| 0 <= i < j < store@.len() implies task_id(
                #[trigger] store@[i],
            ) > task_id(#[trigger] store@[j]) by {
                assert(store@[j] == pre.rows@[j - 1]);
                assert(row_wf(pre@[j - 1], pre.fresh_id()));
                if i >= 1 {
                    assert(store@[i] == pre.rows@[i - 1]);
                }
            }
        }
        Ok(1)
    }

    /// Flip the completion flag of the row carrying `id`: read the flag
    /// (an absent one reads as `false`), write back its negation —
    /// the same read-then-write pair the store would run. Fails with
    /// `NotFound`, touching nothing, exactly when no row carries `id`.
    pub fn toggle_with_id(id: i32, store: &mut TaskStore) -> (r: Result<usize, StoreError>)
        requires
            old(store).wf(),
        ensures
            final(store).wf(),
            toggle_post(*old(store), *final(store), id as int, r),
    {
        let n = store.rows.len();
        let mut i: usize = 0;
        while i < n
            invariant
                old(store).wf(),
                *store == *old(store),
                n == store.rows@.len(),
                i <= n,
                forall|k: int| 0 <= k < i ==> task_id(#[trigger] store.rows@[k]) != id as int,
            decreases n - i,
        {
            let row = &store.rows[i];
            let hit = match row.id {
                Some(k) => k == id,
                None => false,
            };
            if hit {
                let was = match row.completed {
                    Some(b) => b,
                    None => false,
                };
                let updated = Task {
                    id: row.id,
                    description: row.description.clone(),
                    completed: Some(!was),
                };
                store.rows.set(i, updated);
                proof {
                    let pre = *old(store);
                    assert(task_id(pre.rows@[i as int]) == id as int);
                    assert(has_id(pre@, id as int));
                    // the ids strictly descend, so no second row carries `id`
                    assert forall|k: int|
                        0 <= k < pre@.len() && k != i as int implies task_id(
                        #[trigger] pre.rows@[k],
                    ) != id as int by {
                        if k < i as int {
                            assert(task_id(pre@[k]) > task_id(pre@[i as int]));
                        } else {
                            assert(task_id(pre@[i as int]) > task_id(pre@[k]));
                        }
                    }
                    assert(toggled(pre@, store@, id as int));
                    assert forall|a: int| 0 <= a < store@.len() implies row_wf(
                        #[trigger] store@[a],
                        store.fresh_id(),
                    ) by {
                        assert(row_wf(pre@[a], pre.fresh_id()));
                        assert(store@[a].id == pre@[a].id);
                    }
                    assert forall|a: int, b: int| 0 <= a < b < store@.len() implies task_id(
                        #[trigger] store@[a],
                    ) > task_id(#[trigger] store@[b]) by {
                        assert(task_id(pre@[a]) > task_id(pre@[b]));
                        assert(store@[a].id == pre@[a].id);
                        assert(store@[b].id == pre@[b].id);
                    }
                }
                return Ok(1);
            }
            i = i + 1;
        }
        proof {
            assert(!has_id(store@, id as int));
        }
        Err(StoreError::NotFound)
    }

    /// Remove the row carrying `id` if one is present. Absence is not
    /// an error: the call still succeeds, with an affected-row count
    /// of zero.
    pub fn delete_with_id(id: i32, store: &mut TaskStore) -> (r: Result<usize, StoreError>)
        requires
            old(store).wf(),
        ensures
            final(store).wf(),
            delete_post(*old(store), *final(store), id as int, r),
            !has_id(final(store)@, id as int),
    {
        let n = store.rows.len();
        let mut i: usize = 0;
        while i < n
            invariant
                old(store).wf(),
                *store == *old(store),
                n == store.rows@.len(),
                i <= n,
                forall|k: int| 0 <= k < i ==> task_id(#[trigger] store.rows@[k]) != id as int,
            decreases n - i,
        {
            let row = &store.rows[i];
            let hit = match row.id {
                Some(k) => k == id,
                None => false,
            };
            if hit {
                store.rows.remove(i);
                proof {
                    let pre = *old(store);
                    assert(task_id(pre.rows@[i as int]) == id as int);
                    assert(has_id(pre@, id as int));
                    assert forall|k: int|
                        0 <= k < pre@.len() && k != i as int implies task_id(
                        #[trigger] pre.rows@[k],
                    ) != id as int by {
                        if k < i as int {
                            assert(task_id(pre@[k]) > task_id(pre@[i as int]));
                        } else {
                            assert(task_id(pre@[i as int]) > task_id(pre@[k]));
                        }
                    }
                    lemma_remove_id_only(pre@, id as int, i as int);
                    lemma_remove_id_absent(pre@, id as int);
                    assert forall|a: int| 0 <= a < store@.len() implies row_wf(
                        #[trigger] store@[a],
                        store.fresh_id(),
                    ) by {
                        if a < i as int {
                            assert(store@[a] == pre@[a]);
                        } else {
                            assert(store@[a] == pre@[a + 1]);
                        }
                    }
                    assert forall|a: int, b: int| 0 <= a < b < store@.len() implies task_id(
                        #[trigger] store@[a],
                    ) > task_id(#[trigger] store@[b]) by {
                        if b < i as int {
                            assert(store@[a] == pre@[a] && store@[b] == pre@[b]);
                        } else if a < i as int {
                            assert(store@[a] == pre@[a] && store@[b] == pre@[b + 1]);
                        } else {
                            assert(store@[a] == pre@[a + 1] && store@[b] == pre@[b + 1]);
                        }
                    }
                }
                return Ok(1);
            }
            i = i + 1;
        }
        proof {
            assert(!has_id(store@, id as int));
            lemma_remove_id_noop(store@, id as int);
        }
        Ok(0)
    }

    /// Empty the table; every former row counts as affected. The id
    /// counter stays where it is, so the ids of deleted rows are not
    /// handed out again.
    pub fn delete_all(store: &mut TaskStore) -> (r: Result<usize, StoreError>)
        requires
            old(store).wf(),
        ensures
            final(store).wf(),
            delete_all_post(*old(store), *final(store), r),
    {
        let count = store.rows.len();
        store.rows.clear();
        Ok(count)
    }
}

} // verus!
