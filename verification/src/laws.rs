//! How the repository operations compose: laws that hold across
//! consecutive calls, proved from the operations' contracts alone.
//!
//! [`Task::all`](crate::task::Task::all) returns exactly the store's
//! rows, so a statement about a store's view is a statement about the
//! listing served after it.

use vstd::prelude::*;

use crate::store::{
    delete_all_post, delete_post, has_id, insert_post, lemma_remove_id_absent, toggle_post,
    toggled, StoreError, TaskStore,
};
use crate::task::{task_done, task_id, Task};

verus! {

/// After a successful insert, the listing holds exactly one more row:
/// the new one stands first, carries the inserted description and an
/// explicit `false` flag, and its id is strictly greater than that of
/// every row inserted earlier; every earlier row keeps its place and
/// value behind it.
pub proof fn inserted_task_listed_first(
    pre: TaskStore,
    post: TaskStore,
    descr: Seq<char>,
    r: Result<usize, StoreError>,
)
    requires
        pre.wf(),
        insert_post(pre, post, descr, r),
        r is Ok,
    ensures
        post@.len() == pre@.len() + 1,
        post@[0].description@ == descr,
        !task_done(post@[0]),
        forall|i: int| 1 <= i < post@.len() ==> post@[i] == pre@[i - 1],
        forall|i: int| 1 <= i < post@.len() ==> task_id(post@[0]) > task_id(#[trigger] post@[i]),
{
    assert forall|i: int| 1 <= i < post@.len() implies post@[i] == pre@[i - 1] by {
        assert(post@[i] == post@.skip(1)[i - 1]);
    }
    assert forall|i: int| 1 <= i < post@.len() implies task_id(post@[0]) > task_id(
        #[trigger] post@[i],
    ) by {
        assert(post@[i] == pre@[i - 1]);
        assert(crate::store::row_wf(pre@[i - 1], pre.fresh_id()));
    }
}

/// Toggling the same id twice in immediate sequence — no other write in
/// between — restores every completion flag to the value it was read
/// with before (an absent flag reading as `false`); no id or
/// description ever changes, and the two calls return the same result.
pub proof fn toggle_twice_restores_flag(
    s0: TaskStore,
    s1: TaskStore,
    s2: TaskStore,
    id: int,
    r1: Result<usize, StoreError>,
    r2: Result<usize, StoreError>,
)
    requires
        toggle_post(s0, s1, id, r1),
        toggle_post(s1, s2, id, r2),
    ensures
        s2@.len() == s0@.len(),
        forall|i: int|
            0 <= i < s0@.len() ==> (#[trigger] s2@[i]).id == s0@[i].id && s2@[i].description
                == s0@[i].description && task_done(s2@[i]) == task_done(s0@[i]),
        r2 == r1,
{
    if has_id(s0@, id) {
        assert(toggled(s0@, s1@, id));
        let w = choose|k: int| 0 <= k < s0@.len() && task_id(#[trigger] s0@[k]) == id;
        assert(task_id(s1@[w]) == id);
        assert(has_id(s1@, id));
        assert(toggled(s1@, s2@, id));
        assert forall|i: int| 0 <= i < s0@.len() implies (#[trigger] s2@[i]).id == s0@[i].id
            && s2@[i].description == s0@[i].description && task_done(s2@[i]) == task_done(
            s0@[i],
        ) by {
            if task_id(s0@[i]) == id {
                assert(s1@[i].completed == Some(!task_done(s0@[i])));
                assert(task_id(s1@[i]) == id);
                assert(task_done(s1@[i]) == !task_done(s0@[i]));
                assert(s2@[i].completed == Some(task_done(s0@[i])));
            } else {
                assert(s1@[i] == s0@[i]);
                assert(task_id(s1@[i]) != id);
                assert(s2@[i] == s1@[i]);
            }
        }
    } else {
        assert(s1 == s0);
        assert(!has_id(s1@, id));
        assert(s2 == s1);
    }
}

/// Deleting an id and then toggling the same id fails with the
/// not-found error and leaves the store as the delete left it.
pub proof fn toggle_after_delete_not_found(
    s0: TaskStore,
    s1: TaskStore,
    s2: TaskStore,
    id: int,
    r1: Result<usize, StoreError>,
    r2: Result<usize, StoreError>,
)
    requires
        delete_post(s0, s1, id, r1),
        toggle_post(s1, s2, id, r2),
    ensures
        r2 == Err::<usize, StoreError>(StoreError::NotFound),
        s2 == s1,
{
    lemma_remove_id_absent(s0@, id);
}

/// After `delete_all`, a listing of the store is the empty sequence.
pub proof fn list_after_delete_all_empty(
    s0: TaskStore,
    s1: TaskStore,
    r: Result<usize, StoreError>,
)
    requires
        delete_all_post(s0, s1, r),
    ensures
        s1@ == Seq::<Task>::empty(),
        s1@.len() == 0,
{
}

} // verus!
