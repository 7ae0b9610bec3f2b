//! The ordered task collection: adding re-sorts by `(priority ascending,
//! created_at descending)`; deletion and toggling keep the remaining order.
use crate::task::{toggled, Status, Task, TaskView};
use crate::text::{chars_of, str_eq_chars};
use vstd::prelude::*;

verus! {

broadcast use vstd::seq_lib::group_to_multiset_ensures;

/// An ordered sequence of tasks.
#[derive(Debug)]
pub struct TodoList {
    pub items: Vec<Task>,
}

impl View for TodoList {
    type V = Seq<TaskView>;

    open spec fn view(&self) -> Seq<TaskView> {
        self.items.deep_view()
    }
}

/// The canonical order: lower priority number first; among equal priorities,
/// newer tasks first.
pub open spec fn task_le(a: TaskView, b: TaskView) -> bool {
    a.priority < b.priority || (a.priority == b.priority && a.created_at >= b.created_at)
}

/// Sortedness in the canonical order.
pub open spec fn sorted(s: Seq<TaskView>) -> bool {
    forall|i: int, j: int| 0 <= i < j < s.len() ==> #[trigger] task_le(s[i], s[j])
}

/// How many tasks in `s` carry status `st`.
pub open spec fn count_status(s: Seq<TaskView>, st: Status) -> nat
    decreases s.len(),
{
    if s.len() == 0 {
        0
    } else {
        count_status(s.drop_last(), st) + if s.last().status == st {
            1nat
        } else {
            0nat
        }
    }
}

/// Executable form of [`task_le`].
fn le(a: &Task, b: &Task) -> (r: bool)
    ensures
        r == task_le(a@, b@),
{
    a.priority < b.priority || (a.priority == b.priority && a.created_at >= b.created_at)
}

/// Insert `t` into the sorted vector `out`, keeping it sorted.
fn insert_sorted(out: &mut Vec<Task>, t: Task)
    requires
        sorted(old(out).deep_view()),
    ensures
        sorted(final(out).deep_view()),
        final(out).deep_view().to_multiset() == old(out).deep_view().to_multiset().insert(t@),
        final(out).deep_view().len() == old(out).deep_view().len() + 1,
{
    let ghost pre = out.deep_view();
    let mut pos: usize = 0;
    while pos < out.len() && le(&out[pos], &t)
        invariant
            pos <= out.deep_view().len(),
            out.deep_view() == pre,
            forall|k: int| 0 <= k < pos ==> task_le(#[trigger] pre[k], t@),
        decreases out.len() - pos,
    {
        pos = pos + 1;
    }
    proof {
        if (pos as int) < pre.len() {
            // the scan stopped early, so the element there does not precede t
            assert(!task_le(pre[pos as int], t@));
            assert(forall|k: int|
                pos <= k < pre.len() ==> task_le(t@, #[trigger] pre[k])) by {
                assert(forall|k: int|
                    pos < k < pre.len() ==> task_le(pre[pos as int], #[trigger] pre[k]));
            }
        }
    }
    out.insert(pos, t);
    proof {
        assert(out.deep_view() =~= pre.insert(pos as int, t@));
        let post = out.deep_view();
        assert(forall|i: int, j: int|
            0 <= i < j < post.len() ==> #[trigger] task_le(post[i], post[j])) by {
            assert(forall|i: int|
                0 <= i < post.len() && i != pos ==> #[trigger] post[i] == if i < pos {
                    pre[i]
                } else {
                    pre[i - 1]
                });
            assert(post[pos as int] == t@);
        }
    }
}

impl TodoList {
    /// Append `t` and restore the canonical order.
    pub fn add_task(&mut self, t: Task)
        ensures
            final(self)@.to_multiset() == old(self)@.to_multiset().insert(t@),
            final(self)@.len() == old(self)@.len() + 1,
            sorted(final(self)@),
    {
        let ghost tv = t@;
        self.items.push(t);
        proof {
            assert(self.items.deep_view() =~= old(self).items.deep_view().push(tv));
        }
        self.sort();
    }

    /// Create a pending task from the given fields and insert it in order.
    pub fn add(&mut self, title: &str, priority: i8, notes: Option<String>)
        ensures
            final(self)@.len() == old(self)@.len() + 1,
            sorted(final(self)@),
            exists|id: Seq<char>, ts: int|
                0 <= ts && final(self)@.to_multiset() == old(self)@.to_multiset().insert(
                    (TaskView {
                        id,
                        title: title@,
                        notes: notes.deep_view(),
                        priority: priority as int,
                        status: Status::Pending,
                        created_at: ts,
                        timeframe: None,
                    }),
                ),
    {
        let ghost notes_view = notes.deep_view();
        let t = Task::new(title, priority, notes);
        let ghost tv = t@;
        self.add_task(t);
        proof {
            assert(tv =~= (TaskView {
                id: tv.id,
                title: title@,
                notes: notes_view,
                priority: priority as int,
                status: Status::Pending,
                created_at: tv.created_at,
                timeframe: None,
            }));
        }
    }

    /// Remove the task at `idx` if it is in bounds; report whether one was
    /// removed. An out-of-range position is a normal negative result.
    pub fn delete_index(&mut self, idx: usize) -> (r: bool)
        ensures
            r == (idx < old(self)@.len()),
            r ==> final(self)@ == old(self)@.remove(idx as int),
            !r ==> final(self)@ == old(self)@,
    {
        if idx < self.items.len() {
            self.items.remove(idx);
            proof {
                assert(self.items.deep_view() =~= old(self).items.deep_view().remove(idx as int));
            }
            true
        } else {
            false
        }
    }

    /// Toggle the status of the task at `idx` if it is in bounds; report
    /// whether one was found. Positions are untouched.
    pub fn toggle_done_index(&mut self, idx: usize) -> (r: bool)
        ensures
            r == (idx < old(self)@.len()),
            r ==> final(self)@ == old(self)@.update(idx as int, toggled(old(self)@[idx as int])),
            !r ==> final(self)@ == old(self)@,
    {
        if idx < self.items.len() {
            let mut t = self.items.remove(idx);
            t.toggle_done();
            self.items.insert(idx, t);
            proof {
                assert(self.items.deep_view() =~= old(self).items.deep_view().update(
                    idx as int,
                    toggled(old(self)@[idx as int]),
                ));
            }
            true
        } else {
            false
        }
    }

    /// Position of the first task whose id equals `id`, if any.
    pub fn find_index_by_id(&self, id: &str) -> (r: Option<usize>)
        ensures
            match r {
                Some(i) => i < self@.len() && self@[i as int].id == id@ && forall|j: int|
                    0 <= j < i ==> self@[j].id != id@,
                None => forall|j: int| 0 <= j < self@.len() ==> self@[j].id != id@,
            },
    {
        let idv = chars_of(id);
        let mut i: usize = 0;
        while i < self.items.len()
            invariant
                i <= self@.len(),
                idv@ == id@,
                forall|j: int| 0 <= j < i ==> self@[j].id != id@,
            decreases self@.len() - i,
        {
            if str_eq_chars(self.items[i].id.as_str(), &idv) {
                return Some(i);
            }
            i = i + 1;
        }
        None
    }

    /// Re-establish the canonical order.
    pub fn sort(&mut self)
        ensures
            final(self)@.to_multiset() == old(self)@.to_multiset(),
            final(self)@.len() == old(self)@.len(),
            sorted(final(self)@),
    {
        let mut out: Vec<Task> = Vec::new();
        proof {
            assert(out.deep_view() =~= Seq::<TaskView>::empty());
            assert(out.deep_view().to_multiset().add(self.items.deep_view().to_multiset()) =~= self
                .items
                .deep_view()
                .to_multiset());
        }
        while self.items.len() != 0
            invariant
                sorted(out.deep_view()),
                out.deep_view().to_multiset().add(self.items.deep_view().to_multiset()) == old(
                    self,
                )@.to_multiset(),
                out.deep_view().len() + self.items.deep_view().len() == old(self)@.len(),
            decreases self.items.len(),
        {
            let ghost items_pre = self.items.deep_view();
            match self.items.pop() {
                Some(t) => {
                    proof {
                        assert(items_pre =~= self.items.deep_view().push(t@));
                        assert(items_pre.to_multiset() == self.items.deep_view()
                            .to_multiset()
                            .insert(t@));
                    }
                    insert_sorted(&mut out, t);
                    proof {
                        assert(out.deep_view().to_multiset().add(
                            self.items.deep_view().to_multiset(),
                        ) =~= old(self)@.to_multiset());
                    }
                },
                None => {},
            }
        }
        proof {
            let items_dv = self.items.deep_view();
            assert(forall|a: TaskView| items_dv.to_multiset().count(a) == 0) by {
                assert(forall|a: TaskView| !items_dv.contains(a));
            }
            assert(out.deep_view().to_multiset().add(items_dv.to_multiset()) =~= out.deep_view()
                .to_multiset());
        }
        self.items = out;
    }

    /// The number of tasks.
    pub fn len(&self) -> (n: usize)
        ensures
            n == self@.len(),
    {
        self.items.len()
    }

    /// Whether the collection holds no task.
    pub fn is_empty(&self) -> (r: bool)
        ensures
            r == (self@.len() == 0),
    {
        self.items.len() == 0
    }

    /// How many tasks are still pending.
    pub fn active_count(&self) -> (n: usize)
        ensures
            n == count_status(self@, Status::Pending),
    {
        self.count_with(Status::Pending)
    }

    /// How many tasks are done.
    pub fn done_count(&self) -> (n: usize)
        ensures
            n == count_status(self@, Status::Done),
    {
        self.count_with(Status::Done)
    }

    /// Count the tasks whose status is `st`.
    fn count_with(&self, st: Status) -> (n: usize)
        ensures
            n == count_status(self@, st),
    {
        let mut n: usize = 0;
        let mut i: usize = 0;
        proof {
            assert(self@.take(0) =~= Seq::<TaskView>::empty());
        }
        while i < self.items.len()
            invariant
                i <= self@.len(),
                n <= i,
                n == count_status(self@.take(i as int), st),
            decreases self@.len() - i,
        {
            proof {
                assert(self@.take(i + 1).drop_last() =~= self@.take(i as int));
                assert(self@.take(i + 1).last() == self@[i as int]);
            }
            if self.items[i].status == st {
                n = n + 1;
            }
            i = i + 1;
        }
        proof {
            assert(self@.take(self@.len() as int) =~= self@);
        }
        n
    }
}

impl Default for TodoList {
    /// The empty collection.
    fn default() -> (r: TodoList)
        ensures
            r@ == Seq::<TaskView>::empty(),
    {
        let r = TodoList { items: Vec::new() };
        assert(r@ =~= Seq::<TaskView>::empty());
        r
    }
}

/// Toggling the task at one position twice restores the collection exactly.
pub proof fn lemma_toggle_index_twice(s: Seq<TaskView>, i: int)
    requires
        0 <= i < s.len(),
    ensures
        s.update(i, toggled(s[i])).update(i, toggled(toggled(s[i]))) == s,
{
    crate::task::lemma_toggle_twice(s[i]);
    assert(s.update(i, toggled(s[i])).update(i, toggled(toggled(s[i]))) =~= s);
}

} // verus!
