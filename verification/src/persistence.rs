//! The storage contract: five operations over an ordered record sequence,
//! and the spec functions that say what each of them does to it.

pub mod file_repository;
pub mod ron_file_persistence;

use vstd::prelude::*;

use crate::codec::views_of;
use crate::config::{spec_storage_format, Config, StorageFormat};
use crate::error::TodoError;
use crate::tasks::new_task::{NewTask, NewTaskView};
use crate::tasks::task::{Task, TaskView};

verus! {

/// Identifiers strictly increase along the sequence; in particular each
/// occurs once, and the last one is the largest.
pub open spec fn strictly_sorted_ids(ts: Seq<TaskView>) -> bool {
    forall|a: int, b: int| 0 <= a < b < ts.len() ==> ts[a].id < ts[b].id
}

/// The largest identifier any record carries.
pub open spec fn max_id(ts: Seq<TaskView>) -> int
    decreases ts.len(),
    when ts.len() >= 1
{
    if ts.len() == 1 {
        ts[0].id
    } else if ts.last().id >= max_id(ts.drop_last()) {
        ts.last().id
    } else {
        max_id(ts.drop_last())
    }
}

/// The identifier `add` assigns: one past the largest present, or 1 for an
/// empty store.
pub open spec fn next_id(ts: Seq<TaskView>) -> int {
    if ts.len() == 0 {
        1
    } else {
        max_id(ts) + 1
    }
}

/// Some record carries this identifier.
pub open spec fn contains_id(ts: Seq<TaskView>, id: int) -> bool {
    exists|k: int| 0 <= k < ts.len() && ts[k].id == id
}

/// The first record with this identifier, if any.
pub open spec fn spec_get(ts: Seq<TaskView>, id: int) -> Option<TaskView>
    decreases ts.len(),
{
    if ts.len() == 0 {
        None
    } else if ts[0].id == id {
        Some(ts[0])
    } else {
        spec_get(ts.drop_first(), id)
    }
}

/// What `add` leaves behind: the store with one more record, carrying the
/// next identifier and a cleared completion flag.
pub open spec fn spec_add(ts: Seq<TaskView>, nt: NewTaskView) -> Seq<TaskView> {
    ts.push(
        TaskView { id: next_id(ts), name: nt.name, description: nt.description, completed: false },
    )
}

/// What `remove` leaves behind: every record whose identifier differs, in
/// order.
pub open spec fn spec_remove(ts: Seq<TaskView>, id: int) -> Seq<TaskView>
    decreases ts.len(),
{
    if ts.len() == 0 {
        Seq::empty()
    } else if ts[0].id == id {
        spec_remove(ts.drop_first(), id)
    } else {
        seq![ts[0]] + spec_remove(ts.drop_first(), id)
    }
}

/// What `update` leaves behind: the first record whose identifier matches
/// the replacement's is replaced; every other record stays.
pub open spec fn spec_update(ts: Seq<TaskView>, t: TaskView) -> Seq<TaskView>
    decreases ts.len(),
{
    if ts.len() == 0 {
        Seq::empty()
    } else if ts[0].id == t.id {
        seq![t] + ts.drop_first()
    } else {
        seq![ts[0]] + spec_update(ts.drop_first(), t)
    }
}

/// The storage contract: every backend presents the store as an ordered
/// record sequence and its five operations behave as the spec functions say.
pub trait Repository: Sized {
    /// The record sequence the store holds.
    spec fn tasks(&self) -> Seq<TaskView>;

    /// Every record, in store order.
    fn get_all(&self) -> (r: Vec<Task>)
        ensures
            views_of(r@) == self.tasks(),
    ;

    /// The record with this identifier, or `NotFound`.
    fn get_by_id(&self, id: i32) -> (r: Result<Task, TodoError>)
        ensures
            match r {
                Ok(t) => spec_get(self.tasks(), id as int) == Some(t@),
                Err(e) => spec_get(self.tasks(), id as int) is None && e is NotFound,
            },
    ;

    /// Appends a record under the next unused identifier, completion flag
    /// cleared.
    fn add(&mut self, task: NewTask) -> (r: Result<(), TodoError>)
        requires
            next_id(old(self).tasks()) <= i32::MAX as int,
        ensures
            r is Ok,
            final(self).tasks() == spec_add(old(self).tasks(), task@),
    ;

    /// Deletes the record with this identifier; removing an absent
    /// identifier is a no-op, not an error.
    fn remove(&mut self, id: i32) -> (r: Result<(), TodoError>)
        ensures
            r is Ok,
            final(self).tasks() == spec_remove(old(self).tasks(), id as int),
    ;

    /// Replaces the record matching the given record's identifier, or
    /// reports `NotFound` and leaves the store unchanged.
    fn update(&mut self, task: Task) -> (r: Result<(), TodoError>)
        ensures
            match r {
                Ok(()) => contains_id(old(self).tasks(), task@.id) && final(self).tasks()
                    == spec_update(old(self).tasks(), task@),
                Err(e) => !contains_id(old(self).tasks(), task@.id) && e is NotFound
                    && final(self).tasks() == old(self).tasks(),
            },
    ;
}

/// Which backend to construct, with the value it needs: the connection URL
/// for the relational backends, the backing file's local path for the file
/// backend.
pub enum BackendChoice {
    Postgres(String),
    Sqlite(String),
    File(String),
}

/// Relies on url::Url::parse and Url::to_file_path: the local path a `file`
/// URL names, when one can be derived. Which path a URL maps to differs
/// between platforms, so nothing is stated of the result.
#[verifier::external_body]
fn url_file_path(url: &str) -> (r: Option<String>) {
    match url::Url::parse(url) {
        Ok(u) => match u.to_file_path() {
            Ok(p) => p.to_str().map(|s| s.to_owned()),
            Err(()) => None,
        },
        Err(_) => None,
    }
}

/// Inspects the configuration's URL scheme and names the backend to
/// construct. The relational choices carry the URL itself; the file choice
/// carries the local path derived from the URL, and a URL from which this
/// platform can derive no path makes the backend unavailable. A scheme
/// outside the recognized set is a configuration error carrying the
/// offending text.
pub fn select_backend(config: &Config) -> (r: Result<BackendChoice, TodoError>)
    ensures
        match (r, spec_storage_format(config@)) {
            (Ok(BackendChoice::Postgres(u)), Ok(StorageFormat::Postgres)) => u@ == config@,
            (Ok(BackendChoice::Sqlite(u)), Ok(StorageFormat::Sqlite)) => u@ == config@,
            (Ok(BackendChoice::File(_)), Ok(StorageFormat::LocalStorage)) => true,
            (Err(e), Ok(StorageFormat::LocalStorage)) => e is BackendUnavailable,
            (Err(e), Err(sch)) => e matches TodoError::ConfigurationError(t) && t@ == sch,
            _ => false,
        },
{
    match config.storage_format() {
        Err(e) => Err(e),
        Ok(StorageFormat::Postgres) => Ok(BackendChoice::Postgres(config.storage().clone())),
        Ok(StorageFormat::Sqlite) => Ok(BackendChoice::Sqlite(config.storage().clone())),
        Ok(StorageFormat::LocalStorage) => match url_file_path(config.storage().as_str()) {
            Some(path) => Ok(BackendChoice::File(path)),
            None => Err(TodoError::BackendUnavailable),
        },
    }
}

// ---------------------------------------------------------------------------
// Laws of the store model
// ---------------------------------------------------------------------------

/// Every identifier is at most the maximum, and some record carries the
/// maximum.
pub proof fn lemma_max_id_bound(ts: Seq<TaskView>)
    requires
        ts.len() >= 1,
    ensures
        forall|k: int| 0 <= k < ts.len() ==> #[trigger] ts[k].id <= max_id(ts),
        contains_id(ts, max_id(ts)),
    decreases ts.len(),
{
    if ts.len() == 1 {
        assert(ts[0].id == max_id(ts));
    } else {
        let h = ts.drop_last();
        lemma_max_id_bound(h);
        assert forall|k: int| 0 <= k < ts.len() implies #[trigger] ts[k].id <= max_id(ts) by {
            if k < ts.len() - 1 {
                assert(ts[k] == h[k]);
            }
        }
        if ts.last().id >= max_id(h) {
            assert(ts[ts.len() - 1].id == max_id(ts));
        } else {
            let k0 = choose|k0: int| 0 <= k0 < h.len() && #[trigger] h[k0].id == max_id(h);
            assert(ts[k0].id == max_id(ts));
        }
    }
}

/// `add` appends under an identifier fresh and larger than every present
/// one, assigns 1 to the first record of an empty store, and keeps a store
/// that was ordered by identifier ordered.
pub proof fn lemma_add_fresh_id(ts: Seq<TaskView>, nt: NewTaskView)
    ensures
        spec_add(ts, nt).last().id == next_id(ts),
        forall|k: int| 0 <= k < ts.len() ==> #[trigger] ts[k].id < next_id(ts),
        ts.len() == 0 ==> next_id(ts) == 1,
        strictly_sorted_ids(ts) ==> strictly_sorted_ids(spec_add(ts, nt)),
{
    let r = spec_add(ts, nt);
    if ts.len() >= 1 {
        lemma_max_id_bound(ts);
    }
    if strictly_sorted_ids(ts) {
        assert forall|a: int, b: int| 0 <= a < b < r.len() implies r[a].id < r[b].id by {
            if b < ts.len() {
                assert(ts[a].id < ts[b].id);
            } else {
                assert(r[b].id == next_id(ts));
                assert(ts[a].id < next_id(ts));
            }
        }
    }
}

/// What a run of `add` calls leaves behind, first input first.
pub open spec fn spec_add_all(ts: Seq<TaskView>, inputs: Seq<NewTaskView>) -> Seq<TaskView>
    decreases inputs.len(),
{
    if inputs.len() == 0 {
        ts
    } else {
        spec_add_all(spec_add(ts, inputs[0]), inputs.drop_first())
    }
}

/// A run of `add` calls on any store: the records already present stay
/// untouched, and the new ones carry consecutive identifiers from `next_id`
/// on — each call succeeds with a distinct identifier and no gap appears
/// past the initial maximum. From an empty store the identifiers are exactly
/// 1, 2, 3, ... in call order, and a store ordered by identifier stays
/// ordered, so `get_all` lists it by identifier.
pub proof fn lemma_sequential_adds(ts: Seq<TaskView>, inputs: Seq<NewTaskView>)
    ensures
        spec_add_all(ts, inputs).len() == ts.len() + inputs.len(),
        strictly_sorted_ids(ts) ==> strictly_sorted_ids(spec_add_all(ts, inputs)),
        forall|k: int| 0 <= k < ts.len() ==> #[trigger] spec_add_all(ts, inputs)[k] == ts[k],
        forall|k: int|
            ts.len() <= k < ts.len() + inputs.len() ==> #[trigger] spec_add_all(ts, inputs)[k].id
                == next_id(ts) + (k - ts.len()),
    decreases inputs.len(),
{
    if inputs.len() == 0 {
    } else {
        let ts1 = spec_add(ts, inputs[0]);
        lemma_add_fresh_id(ts, inputs[0]);
        lemma_sequential_adds(ts1, inputs.drop_first());
        let r = spec_add_all(ts, inputs);
        assert(r == spec_add_all(ts1, inputs.drop_first()));
        assert(next_id(ts1) == next_id(ts) + 1) by {
            if ts.len() == 0 {
                assert(max_id(ts1) == ts1[0].id);
            } else {
                assert(ts1.drop_last() =~= ts);
                assert(ts1.last().id == next_id(ts));
                lemma_max_id_bound(ts);
                assert(max_id(ts1) == next_id(ts));
            }
        }
        assert forall|k: int|
            ts.len() <= k < ts.len() + inputs.len() implies #[trigger] r[k].id == next_id(ts) + (k
            - ts.len()) by {
            if k == ts.len() {
                assert(r[k] == ts1[k]);
                assert(ts1[k].id == next_id(ts));
            } else {
                assert(r[k].id == next_id(ts1) + (k - ts1.len()));
            }
        }
    }
}

/// After a removal, looking the removed identifier up finds nothing — whether
/// or not a record carried it before.
pub proof fn lemma_removed_not_found(ts: Seq<TaskView>, id: int)
    ensures
        spec_get(spec_remove(ts, id), id) is None,
    decreases ts.len(),
{
    if ts.len() == 0 {
    } else {
        lemma_removed_not_found(ts.drop_first(), id);
        if ts[0].id == id {
        } else {
            let r = spec_remove(ts, id);
            assert(r == seq![ts[0]] + spec_remove(ts.drop_first(), id));
            assert(r[0] == ts[0]);
            assert(r.drop_first() =~= spec_remove(ts.drop_first(), id));
        }
    }
}

/// `remove` drops exactly the records with the given identifier, keeps the
/// others in order, and keeps a store ordered by identifier ordered.
pub proof fn lemma_remove_keeps_order(ts: Seq<TaskView>, id: int)
    ensures
        strictly_sorted_ids(ts) ==> strictly_sorted_ids(spec_remove(ts, id)),
        forall|j: int|
            0 <= j < spec_remove(ts, id).len() ==> #[trigger] spec_remove(ts, id)[j].id != id,
        forall|j: int|
            0 <= j < spec_remove(ts, id).len() ==> exists|k: int|
                0 <= k < ts.len() && #[trigger] spec_remove(ts, id)[j] == #[trigger] ts[k],
    decreases ts.len(),
{
    if ts.len() == 0 {
    } else {
        let tail = ts.drop_first();
        if strictly_sorted_ids(ts) {
            assert(strictly_sorted_ids(tail)) by {
                assert(forall|a: int, b: int|
                    0 <= a < b < tail.len() ==> #[trigger] tail[a].id < #[trigger] tail[b].id);
            }
        }
        lemma_remove_keeps_order(tail, id);
        let r = spec_remove(ts, id);
        let rt = spec_remove(tail, id);
        assert forall|j: int| #![trigger rt[j]] 0 <= j < rt.len() implies exists|k: int|
            0 <= k < ts.len() && rt[j] == #[trigger] ts[k] by {
            let k0 = choose|k0: int| 0 <= k0 < tail.len() && rt[j] == #[trigger] tail[k0];
            assert(rt[j] == ts[k0 + 1]);
        }
        if ts[0].id == id {
        } else {
            assert(r == seq![ts[0]] + rt);
            assert(r[0] == ts[0]);
            assert forall|j: int| 0 <= j < r.len() implies #[trigger] r[j].id != id by {
                if j > 0 {
                    assert(r[j] == rt[j - 1]);
                }
            }
            assert forall|j: int| #![trigger r[j]] 0 <= j < r.len() implies exists|k: int|
                0 <= k < ts.len() && r[j] == #[trigger] ts[k] by {
                if j == 0 {
                    assert(r[0] == ts[0]);
                } else {
                    assert(r[j] == rt[j - 1]);
                    let k0 = choose|k0: int| 0 <= k0 < ts.len() && rt[j - 1] == #[trigger] ts[k0];
                    assert(r[j] == ts[k0]);
                }
            }
            if strictly_sorted_ids(ts) {
                assert forall|a: int, b: int| 0 <= a < b < r.len() implies r[a].id < r[b].id by {
                    if a == 0 {
                        let k0 = choose|k0: int|
                            0 <= k0 < tail.len() && rt[b - 1] == #[trigger] tail[k0];
                        assert(ts[0].id < tail[k0].id);
                    } else {
                        assert(r[a] == rt[a - 1] && r[b] == rt[b - 1]);
                    }
                }
            }
        }
    }
}

/// `update` leaves every identifier in place: the sequence keeps its length
/// and each record its identifier, so a store ordered by identifier stays
/// ordered.
pub proof fn lemma_update_keeps_ids(ts: Seq<TaskView>, t: TaskView)
    ensures
        spec_update(ts, t).len() == ts.len(),
        forall|j: int| 0 <= j < ts.len() ==> #[trigger] spec_update(ts, t)[j].id == ts[j].id,
        strictly_sorted_ids(ts) ==> strictly_sorted_ids(spec_update(ts, t)),
    decreases ts.len(),
{
    if ts.len() == 0 {
    } else {
        let tail = ts.drop_first();
        lemma_update_keeps_ids(tail, t);
        let r = spec_update(ts, t);
        assert forall|j: int| 0 <= j < ts.len() implies #[trigger] r[j].id == ts[j].id by {
            if ts[0].id == t.id {
                if j > 0 {
                    assert(r[j] == tail[j - 1]);
                }
            } else {
                if j > 0 {
                    assert(r[j] == spec_update(tail, t)[j - 1]);
                    assert(tail[j - 1] == ts[j]);
                }
            }
        }
        if strictly_sorted_ids(ts) {
            assert forall|a: int, b: int| 0 <= a < b < r.len() implies r[a].id < r[b].id by {
                assert(r[a].id == ts[a].id);
                assert(r[b].id == ts[b].id);
            }
        }
    }
}

/// Replacing through `update` on a store where the matching record stands at
/// position `i`, with no earlier match, is exactly replacing position `i`.
pub proof fn lemma_update_first(ts: Seq<TaskView>, t: TaskView, i: int)
    requires
        0 <= i < ts.len(),
        ts[i].id == t.id,
        forall|k: int| 0 <= k < i ==> #[trigger] ts[k].id != t.id,
    ensures
        spec_update(ts, t) == ts.update(i, t),
    decreases i,
{
    if i == 0 {
        assert(spec_update(ts, t) =~= ts.update(0, t));
    } else {
        let tail = ts.drop_first();
        assert(ts[0].id != t.id);
        assert(tail[i - 1].id == t.id);
        assert forall|k: int| 0 <= k < i - 1 implies #[trigger] tail[k].id != t.id by {
            assert(tail[k] == ts[k + 1]);
        }
        lemma_update_first(tail, t, i - 1);
        assert(spec_update(ts, t) == seq![ts[0]] + tail.update(i - 1, t));
        assert(spec_update(ts, t) =~= ts.update(i, t));
    }
}

} // verus!
