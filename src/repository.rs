//! The repository: the tasks, kept in ascending order of id, and the highest
//! id handed out so far. Ids are never handed out twice, even after a delete.
use vstd::prelude::*;

use crate::task::{copy_task, current_time, Task, TaskStatus, TaskView, Timestamp};

verus! {

/// The mathematical value of a repository: its tasks in ascending order of id,
/// and the highest id it has handed out.
pub struct RepoView {
    pub tasks: Seq<TaskView>,
    pub last_id: int,
}

/// Each task's id is smaller than that of every task after it.
pub open spec fn ids_ascending(s: Seq<TaskView>) -> bool {
    forall|i: int, j: int| 0 <= i < j < s.len() ==> #[trigger] s[i].id < #[trigger] s[j].id
}

/// Some task in `s` has the id `id`.
pub open spec fn has_id(s: Seq<TaskView>, id: int) -> bool {
    exists|i: int| 0 <= i < s.len() && #[trigger] s[i].id == id
}

/// The position of the task with the id `id` (meaningful where `has_id`).
pub open spec fn index_of_id(s: Seq<TaskView>, id: int) -> int {
    choose|i: int| 0 <= i < s.len() && #[trigger] s[i].id == id
}

impl RepoView {
    /// The repository's invariant: tasks in strictly ascending order of id
    /// (so no two share an id), none above `last_id`, and `last_id` not negative.
    pub open spec fn valid(self) -> bool {
        &&& ids_ascending(self.tasks)
        &&& forall|i: int| 0 <= i < self.tasks.len() ==> #[trigger] self.tasks[i].id <= self.last_id
        &&& 0 <= self.last_id
    }

    pub open spec fn empty() -> RepoView {
        RepoView { tasks: Seq::empty(), last_id: 0 }
    }
}

/// The task that a create of `description` at the time `now` makes in `r`.
pub open spec fn created_task(r: RepoView, description: Seq<char>, now: Timestamp) -> TaskView {
    TaskView {
        id: r.last_id + 1,
        description: description,
        status: TaskStatus::Todo,
        created_at: Some(now),
        updated_at: Some(now),
    }
}

/// `r` after the task `t` was created in it.
pub open spec fn after_create(r: RepoView, t: TaskView) -> RepoView {
    RepoView { tasks: r.tasks.push(t), last_id: t.id }
}

/// What a delete of `id` hands back.
pub open spec fn deleted_task(r: RepoView, id: int) -> Option<TaskView> {
    if has_id(r.tasks, id) {
        Some(r.tasks[index_of_id(r.tasks, id)])
    } else {
        None
    }
}

/// `r` after a delete of `id`.
pub open spec fn after_delete(r: RepoView, id: int) -> RepoView {
    if has_id(r.tasks, id) {
        RepoView { tasks: r.tasks.remove(index_of_id(r.tasks, id)), last_id: r.last_id }
    } else {
        r
    }
}

/// `r` with the task `id` replaced by `t` (meaningful where `has_id`).
pub open spec fn after_change(r: RepoView, id: int, t: TaskView) -> RepoView {
    RepoView { tasks: r.tasks.update(index_of_id(r.tasks, id), t), last_id: r.last_id }
}

/// The task `t` with a new description, changed at `now`.
pub open spec fn with_description(t: TaskView, description: Seq<char>, now: Timestamp) -> TaskView {
    TaskView { description: description, updated_at: Some(now), ..t }
}

/// The task `t` with a new status, changed at `now`.
pub open spec fn with_status(t: TaskView, status: TaskStatus, now: Timestamp) -> TaskView {
    TaskView { status: status, updated_at: Some(now), ..t }
}

/// The value of the task in `o`, if any.
pub open spec fn option_view(o: Option<Task>) -> Option<TaskView> {
    match o {
        Some(t) => Some(t@),
        None => None,
    }
}

/// In a sequence of ascending ids, the task at `i` is the only one with its id.
pub proof fn lemma_index_of_id(s: Seq<TaskView>, i: int)
    requires
        ids_ascending(s),
        0 <= i < s.len(),
    ensures
        has_id(s, s[i].id),
        index_of_id(s, s[i].id) == i,
{
    assert(s[i].id == s[i].id);
    let j = index_of_id(s, s[i].id);
    assert(s[j].id == s[i].id);
    if j < i {
        assert(s[j].id < s[i].id);
    } else if i < j {
        assert(s[i].id < s[j].id);
    }
}


/// One call that changes a repository's set of tasks.
pub enum Step {
    Create(Seq<char>, Timestamp),
    Delete(int),
}

/// `r` after the call `step`.
pub open spec fn apply(r: RepoView, step: Step) -> RepoView {
    match step {
        Step::Create(description, now) => after_create(r, created_task(r, description, now)),
        Step::Delete(id) => after_delete(r, id),
    }
}

/// `r` after the calls `steps`, in order.
pub open spec fn run(r: RepoView, steps: Seq<Step>) -> RepoView
    decreases steps.len(),
{
    if steps.len() == 0 {
        r
    } else {
        apply(run(r, steps.drop_last()), steps.last())
    }
}

/// A create keeps every task where and as it was, gives the new task an id that
/// no task held, above every id handed out before, and keeps the repository valid.
pub proof fn lemma_create_keeps_tasks(r: RepoView, description: Seq<char>, now: Timestamp)
    requires
        r.valid(),
    ensures
        ({
            let t = created_task(r, description, now);
            let r2 = after_create(r, t);
            &&& r2.valid()
            &&& r2.tasks.len() == r.tasks.len() + 1
            &&& forall|i: int| 0 <= i < r.tasks.len() ==> r2.tasks[i] == r.tasks[i]
            &&& !has_id(r.tasks, t.id)
            &&& r.last_id < t.id
        }),
{
    let t = created_task(r, description, now);
    let r2 = after_create(r, t);
    assert forall|i: int, j: int| 0 <= i < j < r2.tasks.len() implies #[trigger] r2.tasks[i].id
        < #[trigger] r2.tasks[j].id by {
        if j == r.tasks.len() {
            assert(r.tasks[i].id <= r.last_id);
        }
    }
    if has_id(r.tasks, t.id) {
        let i = choose|i: int| 0 <= i < r.tasks.len() && #[trigger] r.tasks[i].id == t.id;
        assert(r.tasks[i].id <= r.last_id);
    }
}

/// A delete keeps the repository valid and `last_id` as it was, and keeps only
/// tasks that the repository held before.
pub proof fn lemma_delete_keeps_tasks(r: RepoView, id: int)
    requires
        r.valid(),
    ensures
        ({
            let r2 = after_delete(r, id);
            &&& r2.valid()
            &&& r2.last_id == r.last_id
            &&& forall|i: int| 0 <= i < r2.tasks.len() ==> r.tasks.contains(#[trigger] r2.tasks[i])
        }),
{
    let r2 = after_delete(r, id);
    if has_id(r.tasks, id) {
        let k = index_of_id(r.tasks, id);
        assert forall|i: int| 0 <= i < r2.tasks.len() implies r.tasks.contains(#[trigger] r2.tasks[i]) by {
            if i < k {
                assert(r2.tasks[i] == r.tasks[i]);
            } else {
                assert(r2.tasks[i] == r.tasks[i + 1]);
            }
        }
        assert forall|i: int, j: int| 0 <= i < j < r2.tasks.len() implies #[trigger] r2.tasks[i].id
            < #[trigger] r2.tasks[j].id by {
            let a = if i < k { i } else { i + 1 };
            let b = if j < k { j } else { j + 1 };
            assert(r.tasks[a].id < r.tasks[b].id);
        }
        assert forall|i: int| 0 <= i < r2.tasks.len() implies #[trigger] r2.tasks[i].id <= r2.last_id by {
            let a = if i < k { i } else { i + 1 };
            assert(r.tasks[a].id <= r.last_id);
        }
    }
}

/// Over any mix of creates and deletes on a valid repository, no two tasks ever
/// share an id (the repository stays valid), `last_id` never goes down, and each
/// task held at the end was either held at the start, unchanged, or made by one
/// of the creates, with an id above every id handed out before them.
pub proof fn lemma_ids_never_shared(r: RepoView, steps: Seq<Step>)
    requires
        r.valid(),
    ensures
        run(r, steps).valid(),
        r.last_id <= run(r, steps).last_id,
        forall|i: int|
            0 <= i < run(r, steps).tasks.len() ==> r.tasks.contains(#[trigger] run(r, steps).tasks[i])
                || run(r, steps).tasks[i].id > r.last_id,
    decreases steps.len(),
{
    if steps.len() > 0 {
        let prev = run(r, steps.drop_last());
        lemma_ids_never_shared(r, steps.drop_last());
        let next = run(r, steps);
        match steps.last() {
            Step::Create(description, now) => {
                lemma_create_keeps_tasks(prev, description, now);
                assert forall|i: int| 0 <= i < next.tasks.len() implies r.tasks.contains(
                    #[trigger] next.tasks[i],
                ) || next.tasks[i].id > r.last_id by {
                    if i < prev.tasks.len() {
                        assert(next.tasks[i] == prev.tasks[i]);
                    }
                }
            },
            Step::Delete(id) => {
                lemma_delete_keeps_tasks(prev, id);
                assert forall|i: int| 0 <= i < next.tasks.len() implies r.tasks.contains(
                    #[trigger] next.tasks[i],
                ) || next.tasks[i].id > r.last_id by {
                    assert(prev.tasks.contains(next.tasks[i]));
                    let j = choose|j: int| 0 <= j < prev.tasks.len() && prev.tasks[j] == next.tasks[i];
                    assert(prev.tasks[j] == next.tasks[i]);
                }
            },
        }
    }
}

/// Creates alone, on an empty repository, hand out the ids 1, 2, 3, ... in
/// order: the create at position `k` makes the task with the id `k + 1`.
pub proof fn lemma_create_ids_consecutive(steps: Seq<Step>, k: int)
    requires
        forall|i: int| 0 <= i < steps.len() ==> #[trigger] steps[i] is Create,
        0 <= k < steps.len(),
    ensures
        run(RepoView::empty(), steps.take(k)).last_id == k,
        steps[k] matches Step::Create(description, now) ==> created_task(
            run(RepoView::empty(), steps.take(k)),
            description,
            now,
        ).id == k + 1,
    decreases k,
{
    if k > 0 {
        lemma_create_ids_consecutive(steps, k - 1);
        assert(steps.take(k).drop_last() =~= steps.take(k - 1));
        assert(steps.take(k).last() == steps[k - 1]);
    } else {
        assert(steps.take(0).len() == 0);
    }
}

/// After creates alone on an empty repository, it holds exactly the tasks
/// they made, in call order: the task of the create at position `i` has the id
/// `i + 1`, that create's description, status `Todo` and its time.
pub proof fn lemma_creates_hold_ids_in_order(steps: Seq<Step>)
    requires
        forall|i: int| 0 <= i < steps.len() ==> #[trigger] steps[i] is Create,
    ensures
        run(RepoView::empty(), steps).tasks.len() == steps.len(),
        run(RepoView::empty(), steps).last_id == steps.len(),
        forall|i: int|
            0 <= i < steps.len() ==> (#[trigger] steps[i] matches Step::Create(description, now)
                ==> run(RepoView::empty(), steps).tasks[i] == (TaskView {
                id: i + 1,
                description: description,
                status: TaskStatus::Todo,
                created_at: Some(now),
                updated_at: Some(now),
            })),
    decreases steps.len(),
{
    if steps.len() > 0 {
        let d = steps.drop_last();
        assert forall|i: int| 0 <= i < d.len() implies #[trigger] d[i] is Create by {
            assert(d[i] == steps[i]);
        }
        lemma_creates_hold_ids_in_order(d);
        assert(steps[steps.len() - 1] is Create);
        assert forall|i: int|
            0 <= i < steps.len() implies (#[trigger] steps[i] matches Step::Create(description, now)
                ==> run(RepoView::empty(), steps).tasks[i] == (TaskView {
                id: i + 1,
                description: description,
                status: TaskStatus::Todo,
                created_at: Some(now),
                updated_at: Some(now),
            })) by {
            if i < d.len() {
                assert(d[i] == steps[i]);
            }
        }
    }
}

/// The id that a create at position `k` of `steps`, run from `r`, hands out.
pub open spec fn issued_id(r: RepoView, steps: Seq<Step>, k: int) -> int {
    run(r, steps.take(k)).last_id + 1
}

/// Along `steps`, `last_id` never goes down, and goes up at each create.
proof fn lemma_last_id_grows(r: RepoView, steps: Seq<Step>, a: int, b: int)
    requires
        0 <= a <= b <= steps.len(),
    ensures
        run(r, steps.take(a)).last_id <= run(r, steps.take(b)).last_id,
        a < b && steps[a] is Create ==> run(r, steps.take(a)).last_id < run(r, steps.take(b)).last_id,
    decreases b - a,
{
    if a < b {
        lemma_last_id_grows(r, steps, a + 1, b);
        assert(steps.take(a + 1).drop_last() =~= steps.take(a));
        assert(steps.take(a + 1).last() == steps[a]);
    }
}

/// Over any mix of creates and deletes, each create hands out an id above
/// every id that an earlier create handed out, deleted or not, and above every
/// id the repository held when the mix began: an id is never handed out twice.
pub proof fn lemma_ids_never_reused(r: RepoView, steps: Seq<Step>, j: int, k: int)
    requires
        r.valid(),
        0 <= j < k < steps.len(),
        steps[j] is Create,
        steps[k] is Create,
    ensures
        issued_id(r, steps, j) < issued_id(r, steps, k),
        forall|i: int| 0 <= i < r.tasks.len() ==> #[trigger] r.tasks[i].id < issued_id(r, steps, j),
        !has_id(run(r, steps.take(k)).tasks, issued_id(r, steps, k)),
{
    lemma_last_id_grows(r, steps, j, k);
    lemma_last_id_grows(r, steps, 0, j);
    assert(steps.take(0) =~= Seq::<Step>::empty());
    lemma_ids_never_shared(r, steps.take(k));
    let before = run(r, steps.take(k));
    if has_id(before.tasks, issued_id(r, steps, k)) {
        let i = choose|i: int| 0 <= i < before.tasks.len() && #[trigger] before.tasks[i].id == issued_id(r, steps, k);
        assert(before.tasks[i].id <= before.last_id);
    }
}

/// A second delete of the same id finds nothing: the first hands the task back
/// and lowers the count by one, the second hands back `None` and changes nothing.
pub proof fn lemma_delete_twice(r: RepoView, id: int)
    requires
        r.valid(),
        has_id(r.tasks, id),
    ensures
        deleted_task(r, id) == Some(r.tasks[index_of_id(r.tasks, id)]),
        after_delete(r, id).tasks.len() == r.tasks.len() - 1,
        deleted_task(after_delete(r, id), id) is None,
        after_delete(after_delete(r, id), id) == after_delete(r, id),
{
    let k = index_of_id(r.tasks, id);
    let r2 = after_delete(r, id);
    if has_id(r2.tasks, id) {
        let i = choose|i: int| 0 <= i < r2.tasks.len() && #[trigger] r2.tasks[i].id == id;
        let a = if i < k { i } else { i + 1 };
        assert(r2.tasks[i] == r.tasks[a]);
        assert(a != k);
        if a < k {
            assert(r.tasks[a].id < r.tasks[k].id);
        } else {
            assert(r.tasks[k].id < r.tasks[a].id);
        }
    }
}

/// An operation was asked for a task that the repository does not hold.
#[derive(Clone, Copy, Debug, PartialEq, Eq, Structural)]
pub struct NotFound {
    pub id: i32,
}

/// The tasks and the id sequence.
#[derive(Clone, Debug, PartialEq)]
pub struct TaskRepository {
    tasks: Vec<Task>,
    last_id: i32,
}

impl View for TaskRepository {
    type V = RepoView;

    closed spec fn view(&self) -> RepoView {
        RepoView { tasks: self.tasks@.map_values(|t: Task| t@), last_id: self.last_id as int }
    }
}

impl TaskRepository {
    /// The repository's invariant holds.
    pub open spec fn wf(&self) -> bool {
        self@.valid()
    }

    /// An empty repository that has handed out no id yet.
    pub fn new() -> (r: TaskRepository)
        ensures
            r@ == RepoView::empty(),
            r.wf(),
    {
        let r = TaskRepository { tasks: Vec::new(), last_id: 0 };
        assert(r@.tasks =~= Seq::<TaskView>::empty());
        r
    }

    /// The position of the task with the id `id`.
    fn find(&self, id: i32) -> (r: Option<usize>)
        requires
            self.wf(),
        ensures
            match r {
                Some(i) => i < self@.tasks.len() && i == index_of_id(self@.tasks, id as int)
                    && has_id(self@.tasks, id as int),
                None => !has_id(self@.tasks, id as int),
            },
    {
        let mut i: usize = 0;
        while i < self.tasks.len()
            invariant
                self.wf(),
                i <= self.tasks.len(),
                forall|j: int| 0 <= j < i ==> #[trigger] self@.tasks[j].id != id,
            decreases self.tasks.len() - i,
        {
            if self.tasks[i].id == id {
                proof { lemma_index_of_id(self@.tasks, i as int); }
                return Some(i);
            }
            i = i + 1;
        }
        None
    }

    /// A repository that holds `tasks`, in their order, and has handed out
    /// the ids up to `last_id`.
    pub(crate) fn from_parts(tasks: Vec<Task>, last_id: i32) -> (r: TaskRepository)
        requires
            (RepoView { tasks: tasks@.map_values(|t: Task| t@), last_id: last_id as int }).valid(),
        ensures
            r@ == (RepoView { tasks: tasks@.map_values(|t: Task| t@), last_id: last_id as int }),
            r.wf(),
    {
        TaskRepository { tasks, last_id }
    }

    /// Makes a task of `description` with the next id, status `Todo`, created
    /// and last changed at `now`, and hands back a copy of it.
    pub fn new_task_at(&mut self, description: String, now: Timestamp) -> (t: Task)
        requires
            old(self).wf(),
            old(self)@.last_id < i32::MAX,
        ensures
            t@ == created_task(old(self)@, description@, now),
            final(self)@ == after_create(old(self)@, t@),
            final(self)@ == apply(old(self)@, Step::Create(description@, now)),
            final(self).wf(),
    {
        self.last_id = self.last_id + 1;
        let task = Task {
            id: self.last_id,
            description: description,
            status: TaskStatus::Todo,
            created_at: Some(now),
            updated_at: Some(now),
        };
        let t = copy_task(&task);
        self.tasks.push(task);
        assert(self@.tasks =~= old(self)@.tasks.push(t@));
        t
    }

    /// Makes a task of `description` with the next id, status `Todo`, created
    /// and last changed now, and hands back a copy of it.
    pub fn new_task(&mut self, description: String) -> (t: Task)
        requires
            old(self).wf(),
            old(self)@.last_id < i32::MAX,
        ensures
            (t@.created_at is Some),
            t@ == created_task(old(self)@, description@, t@.created_at.unwrap()),
            final(self)@ == after_create(old(self)@, t@),
            final(self)@ == apply(old(self)@, Step::Create(description@, t@.created_at.unwrap())),
            final(self).wf(),
    {
        let now = current_time();
        self.new_task_at(description, now)
    }

    /// Removes the task `id` and hands it back; `None`, with nothing changed,
    /// where there is no such task.
    pub fn delete(&mut self, id: i32) -> (r: Option<Task>)
        requires
            old(self).wf(),
        ensures
            option_view(r) == deleted_task(old(self)@, id as int),
            final(self)@ == after_delete(old(self)@, id as int),
            final(self)@ == apply(old(self)@, Step::Delete(id as int)),
            final(self).wf(),
    {
        match self.find(id) {
            Some(i) => {
                let t = self.tasks.remove(i);
                assert(self@.tasks =~= old(self)@.tasks.remove(i as int));
                Some(t)
            },
            None => None,
        }
    }

    /// The tasks, in ascending order of id.
    pub fn tasks(&self) -> (r: &Vec<Task>)
        ensures
            r@.map_values(|t: Task| t@) == self@.tasks,
    {
        &self.tasks
    }

    /// A handle on the task `id`, through which its description and status
    /// may be changed; its id must be left as it is. A change made through it
    /// leaves `updated_at` alone: `set_description` and `set_status` refresh it.
    pub fn task(&mut self, id: i32) -> (r: Result<&mut Task, NotFound>)
        requires
            old(self).wf(),
        ensures
            (r is Ok) == has_id(old(self)@.tasks, id as int),
            r matches Ok(t) ==> (*t)@ == old(self)@.tasks[index_of_id(old(self)@.tasks, id as int)],
            r matches Ok(t) ==> final(self)@ == after_change(old(self)@, id as int, (*final(t))@),
            r matches Ok(t) ==> (final(t).id == id ==> final(self).wf()),
            r matches Err(e) ==> e == (NotFound { id }),
            (r is Err) ==> final(self)@ == old(self)@,
    {
        match self.find(id) {
            Some(i) => {
                let t = &mut self.tasks[i];
                proof {
                    assert(after_borrow(self.tasks)@ == old(self).tasks@.update(i as int, *final(t)));
                    assert(after_borrow(self.tasks)@.map_values(|t: Task| t@) =~= old(self)@.tasks.update(
                        i as int,
                        (*final(t))@,
                    ));
                }
                Ok(t)
            },
            None => Err(NotFound { id }),
        }
    }

    /// Gives the task `id` the description `description`, changed at `now`.
    pub fn set_description(&mut self, id: i32, description: String, now: Timestamp) -> (r: Result<(), NotFound>)
        requires
            old(self).wf(),
        ensures
            (r is Ok) == has_id(old(self)@.tasks, id as int),
            r is Ok ==> final(self)@ == after_change(
                old(self)@,
                id as int,
                with_description(old(self)@.tasks[index_of_id(old(self)@.tasks, id as int)], description@, now),
            ),
            r matches Err(e) ==> e == (NotFound { id }),
            (r is Err) ==> final(self)@ == old(self)@,
            final(self).wf(),
    {
        let t = self.task(id)?;
        t.description = description;
        t.updated_at = Some(now);
        Ok(())
    }

    /// Gives the task `id` the status `status`, changed at `now`.
    pub fn set_status(&mut self, id: i32, status: TaskStatus, now: Timestamp) -> (r: Result<(), NotFound>)
        requires
            old(self).wf(),
        ensures
            (r is Ok) == has_id(old(self)@.tasks, id as int),
            r is Ok ==> final(self)@ == after_change(
                old(self)@,
                id as int,
                with_status(old(self)@.tasks[index_of_id(old(self)@.tasks, id as int)], status, now),
            ),
            r matches Err(e) ==> e == (NotFound { id }),
            (r is Err) ==> final(self)@ == old(self)@,
            final(self).wf(),
    {
        let t = self.task(id)?;
        t.status = status;
        t.updated_at = Some(now);
        Ok(())
    }

    /// The number of tasks held.
    pub fn task_count(&self) -> (r: usize)
        ensures
            r == self@.tasks.len(),
    {
        self.tasks.len()
    }

    /// The highest id handed out so far.
    pub fn last_id(&self) -> (r: i32)
        ensures
            r == self@.last_id,
    {
        self.last_id
    }
}

impl Default for TaskRepository {
    /// An empty repository, as `new` makes it.
    fn default() -> (r: TaskRepository)
        ensures
            r@ == RepoView::empty(),
            r.wf(),
    {
        TaskRepository::new()
    }
}

} // verus!
