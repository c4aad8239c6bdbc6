//! The file backend's core: an in-memory cache of the whole record sequence,
//! constructed from the backing file's text and serialized back in full after
//! every mutation. Reading the file, locking, and writing the text back are
//! the caller's part; everything the cache decides is verified here.

use vstd::prelude::*;
use vstd::pervasive::VecAdditionalExecFns;

use crate::codec::{emit_tasks, parse_tasks, sp_tasks, spec_emit_tasks, views_of};
use crate::error::TodoError;
use crate::persistence::{
    contains_id, max_id, next_id, spec_add, spec_get, spec_remove, spec_update, Repository,
};
use crate::tasks::new_task::NewTask;
use crate::tasks::task::{Task, TaskView};

verus! {

/// The file backend's in-memory cache: the authoritative record sequence
/// between file writes, in the order the backing file gave, with records a
/// run of `add` calls appends behind them.
pub struct FileRepository {
    cache: Vec<Task>,
}

impl FileRepository {
    /// Builds the cache from the backing file's text: exactly the records
    /// the text spells, in their order. Text with no reading counts as no
    /// prior data: the store starts empty rather than failing.
    pub fn new(content: &str) -> (r: FileRepository)
        ensures
            r.tasks() == (match sp_tasks(content@) {
                Some(ts) => ts,
                None => Seq::<TaskView>::empty(),
            }),
    {
        match parse_tasks(content) {
            Some(ts) => FileRepository { cache: ts },
            None => {
                proof {
                    assert(views_of(Seq::<Task>::empty()) =~= Seq::<TaskView>::empty());
                }
                FileRepository { cache: Vec::new() }
            },
        }
    }

    /// The full text the backing file must hold to match the cache: the
    /// caller rewrites the file with exactly this after every mutation.
    pub fn to_text(&self) -> (r: String)
        ensures
            r@ == spec_emit_tasks(self.tasks()),
    {
        emit_tasks(&self.cache)
    }
}

impl Repository for FileRepository {
    closed spec fn tasks(&self) -> Seq<TaskView> {
        views_of(self.cache@)
    }

    fn get_all(&self) -> (r: Vec<Task>) {
        let n = self.cache.len();
        let mut r: Vec<Task> = Vec::new();
        let mut i: usize = 0;
        while i < n
            invariant
                n == self.cache@.len(),
                i <= n,
                r@.len() == i,
                forall|k: int| 0 <= k < i ==> #[trigger] r@[k]@ == self.cache@[k]@,
            decreases n - i,
        {
            r.push(self.cache[i].clone());
            i = i + 1;
        }
        proof {
            assert(views_of(r@) =~= views_of(self.cache@));
        }
        r
    }

    fn get_by_id(&self, id: i32) -> (r: Result<Task, TodoError>) {
        let ghost s = views_of(self.cache@);
        let n = self.cache.len();
        proof {
            assert(s.skip(0) =~= s);
        }
        let mut i: usize = 0;
        while i < n
            invariant
                n == self.cache@.len(),
                s == views_of(self.cache@),
                i <= n,
                spec_get(s, id as int) == spec_get(s.skip(i as int), id as int),
            decreases n - i,
        {
            proof {
                assert(s.skip(i as int)[0] == s[i as int]);
                assert(s.skip(i as int).drop_first() =~= s.skip(i + 1 as int));
            }
            if self.cache[i].id() == id {
                return Ok(self.cache[i].clone());
            }
            i = i + 1;
        }
        proof {
            assert(s.skip(n as int) =~= Seq::<TaskView>::empty());
        }
        Err(TodoError::NotFound)
    }

    fn add(&mut self, task: NewTask) -> (r: Result<(), TodoError>) {
        let ghost s = views_of(self.cache@);
        let ghost nv = task@;
        let n = self.cache.len();
        let id: i32 = if n == 0 {
            1
        } else {
            let mut m: i32 = self.cache[0].id();
            proof {
                assert(s.take(1).len() == 1);
                assert(s.take(1)[0] == s[0]);
                assert(m as int == max_id(s.take(1)));
            }
            let mut i: usize = 1;
            while i < n
                invariant
                    self.cache@ == old(self).cache@,
                    n == self.cache@.len(),
                    s == views_of(self.cache@),
                    1 <= i <= n,
                    m as int == max_id(s.take(i as int)),
                decreases n - i,
            {
                proof {
                    assert(s.take(i + 1 as int).drop_last() =~= s.take(i as int));
                    assert(s.take(i + 1 as int).last() == s[i as int]);
                    assert(s.take(i + 1 as int).len() == i + 1);
                }
                if self.cache[i].id() > m {
                    m = self.cache[i].id();
                }
                i = i + 1;
            }
            proof {
                assert(s.take(n as int) =~= s);
                assert(m as int == max_id(s));
            }
            m + 1
        };
        assert(id as int == next_id(s));
        let NewTask { name, description } = task;
        let t = Task::new(id, name, description, false);
        self.cache.push(t);
        proof {
            assert(views_of(self.cache@) =~= spec_add(s, nv));
        }
        Ok(())
    }

    fn remove(&mut self, id: i32) -> (r: Result<(), TodoError>) {
        let ghost s = views_of(self.cache@);
        let n = self.cache.len();
        proof {
            assert(s.skip(0) =~= s);
            assert(views_of(Seq::<Task>::empty()) + spec_remove(s, id as int) =~= spec_remove(
                s,
                id as int,
            ));
        }
        let mut kept: Vec<Task> = Vec::new();
        let mut i: usize = 0;
        while i < n
            invariant
                n == self.cache@.len(),
                s == views_of(self.cache@),
                i <= n,
                spec_remove(s, id as int) == views_of(kept@) + spec_remove(
                    s.skip(i as int),
                    id as int,
                ),
            decreases n - i,
        {
            proof {
                assert(s.skip(i as int)[0] == s[i as int]);
                assert(s.skip(i as int).drop_first() =~= s.skip(i + 1 as int));
            }
            if self.cache[i].id() != id {
                let ghost kept0 = views_of(kept@);
                kept.push(self.cache[i].clone());
                proof {
                    assert(views_of(kept@) =~= kept0 + seq![s[i as int]]);
                    assert((kept0 + seq![s[i as int]]) + spec_remove(s.skip(i + 1 as int), id as int)
                        =~= kept0 + (seq![s[i as int]] + spec_remove(s.skip(i + 1 as int), id as int)));
                }
            }
            i = i + 1;
        }
        proof {
            assert(s.skip(n as int) =~= Seq::<TaskView>::empty());
            assert(views_of(kept@) + Seq::<TaskView>::empty() =~= views_of(kept@));
        }
        self.cache = kept;
        Ok(())
    }

    fn update(&mut self, task: Task) -> (r: Result<(), TodoError>) {
        let ghost s = views_of(self.cache@);
        let ghost tv = task@;
        let n = self.cache.len();
        let mut i: usize = 0;
        while i < n
            invariant
                self.cache@ == old(self).cache@,
                n == self.cache@.len(),
                s == views_of(self.cache@),
                tv == task@,
                i <= n,
                forall|k: int| 0 <= k < i ==> #[trigger] s[k].id != tv.id,
            decreases n - i,
        {
            if self.cache[i].id() == task.id() {
                proof {
                    assert(s[i as int].id == tv.id);
                }
                self.cache.set(i, task);
                proof {
                    assert(contains_id(s, tv.id));
                    crate::persistence::lemma_update_first(s, tv, i as int);
                    assert(views_of(self.cache@) =~= s.update(i as int, tv));
                }
                return Ok(());
            }
            i = i + 1;
        }
        Err(TodoError::NotFound)
    }
}

} // verus!
