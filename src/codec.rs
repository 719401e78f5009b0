//! The records in which a repository is written to a file, and back: one
//! record per task, in ascending order of id, with the status by name.
//! `last_id` is not written; loading takes it from the highest id read.
use vstd::prelude::*;

use crate::repository::{has_id, ids_ascending, RepoView, TaskRepository};
use crate::task::{
    lemma_status_name_round_trip, status_name, status_named, Task, TaskStatus, TaskView, Timestamp,
};

verus! {

/// The mathematical value of a record.
pub struct RecordView {
    pub id: int,
    pub description: Seq<char>,
    pub status: Seq<char>,
    pub created_at: Option<Timestamp>,
    pub updated_at: Option<Timestamp>,
}

/// One task as it stands in a file.
#[derive(Clone, Debug, PartialEq)]
pub struct TaskRecord {
    pub id: i32,
    pub description: String,
    pub status: String,
    pub created_at: Option<Timestamp>,
    pub updated_at: Option<Timestamp>,
}

impl View for TaskRecord {
    type V = RecordView;

    open spec fn view(&self) -> RecordView {
        RecordView {
            id: self.id as int,
            description: self.description@,
            status: self.status@,
            created_at: self.created_at,
            updated_at: self.updated_at,
        }
    }
}

/// A whole repository as it stands in a file.
#[derive(Clone, Debug, PartialEq)]
pub struct TaskRepositoryForSerialization {
    pub tasks: Vec<TaskRecord>,
}

/// A record names a status that does not exist; `record` is its position.
#[derive(Clone, Copy, Debug, PartialEq, Eq, Structural)]
pub struct CorruptData {
    pub record: usize,
}

pub open spec fn record_views(v: Seq<TaskRecord>) -> Seq<RecordView> {
    v.map_values(|r: TaskRecord| r@)
}

/// The record that a task is written as.
pub open spec fn record_of(t: TaskView) -> RecordView {
    RecordView {
        id: t.id,
        description: t.description,
        status: status_name(t.status),
        created_at: t.created_at,
        updated_at: t.updated_at,
    }
}

/// The record names one of the three statuses.
pub open spec fn status_known(r: RecordView) -> bool {
    status_named(r.status) is Some
}

/// The task that a record is read as (meaningful where `status_known`).
pub open spec fn task_of(r: RecordView) -> TaskView {
    TaskView {
        id: r.id,
        description: r.description,
        status: status_named(r.status).unwrap(),
        created_at: r.created_at,
        updated_at: r.updated_at,
    }
}

/// The records that the tasks `s` are written as.
pub open spec fn records_of(s: Seq<TaskView>) -> Seq<RecordView> {
    s.map_values(|t: TaskView| record_of(t))
}

/// The tasks that the records `s` are read as.
pub open spec fn tasks_of(s: Seq<RecordView>) -> Seq<TaskView> {
    s.map_values(|x: RecordView| task_of(x))
}

/// The tasks of `s` by id; where two share an id, the later one stands.
pub open spec fn by_id(s: Seq<TaskView>) -> Map<int, TaskView>
    decreases s.len(),
{
    if s.len() == 0 {
        Map::empty()
    } else {
        by_id(s.drop_last()).insert(s.last().id, s.last())
    }
}

/// The highest id in `s`, or 0 where all are lower or `s` is empty.
pub open spec fn highest_id(s: Seq<TaskView>) -> int
    decreases s.len(),
{
    if s.len() == 0 {
        0
    } else if highest_id(s.drop_last()) < s.last().id {
        s.last().id
    } else {
        highest_id(s.drop_last())
    }
}

/// What a load of `records` leads to: every status known, and a valid
/// repository holding the records' tasks by id, whose `last_id` is the
/// highest id read.
pub open spec fn loaded_from(records: Seq<RecordView>, r: RepoView) -> bool {
    &&& forall|i: int| 0 <= i < records.len() ==> status_known(#[trigger] records[i])
    &&& r.valid()
    &&& by_id(r.tasks) == by_id(tasks_of(records))
    &&& r.last_id == highest_id(tasks_of(records))
}

/// `highest_id` is the greatest of the ids and 0.
pub proof fn lemma_highest_id(s: Seq<TaskView>)
    ensures
        0 <= highest_id(s),
        forall|i: int| 0 <= i < s.len() ==> #[trigger] s[i].id <= highest_id(s),
        highest_id(s) == 0 || exists|i: int| 0 <= i < s.len() && #[trigger] s[i].id == highest_id(s),
    decreases s.len(),
{
    if s.len() > 0 {
        let p = s.drop_last();
        lemma_highest_id(p);
        assert forall|i: int| 0 <= i < s.len() implies #[trigger] s[i].id <= highest_id(s) by {
            if i < p.len() {
                assert(s[i] == p[i]);
            }
        }
        if highest_id(s) != 0 && highest_id(s) == highest_id(p) {
            let i = choose|i: int| 0 <= i < p.len() && #[trigger] p[i].id == highest_id(p);
            assert(s[i] == p[i]);
        }
        if highest_id(s) != 0 && highest_id(s) != highest_id(p) {
            assert(s[s.len() - 1].id == highest_id(s));
        }
    }
}

/// The ids that `by_id(s)` holds are those of the tasks of `s`.
proof fn lemma_by_id_keys(s: Seq<TaskView>, id: int)
    ensures
        by_id(s).contains_key(id) == has_id(s, id),
    decreases s.len(),
{
    if s.len() > 0 {
        let d = s.drop_last();
        lemma_by_id_keys(d, id);
        if has_id(d, id) {
            let i = choose|i: int| 0 <= i < d.len() && #[trigger] d[i].id == id;
            assert(s[i].id == id);
        }
        if has_id(s, id) && id != s.last().id {
            let i = choose|i: int| 0 <= i < s.len() && #[trigger] s[i].id == id;
            assert(d[i].id == id);
        }
        if id == s.last().id {
            assert(s[s.len() - 1].id == id);
        }
    }
}

/// In ascending ids, `by_id` maps the id of each task to that task.
proof fn lemma_by_id_value(s: Seq<TaskView>, i: int)
    requires
        ids_ascending(s),
        0 <= i < s.len(),
    ensures
        by_id(s)[s[i].id] == s[i],
    decreases s.len(),
{
    if i < s.len() - 1 {
        lemma_by_id_value(s.drop_last(), i);
        assert(s[i].id < s.last().id);
    }
}

/// Two sequences of ascending ids that hold the same tasks by id are equal.
proof fn lemma_by_id_determines(a: Seq<TaskView>, b: Seq<TaskView>)
    requires
        ids_ascending(a),
        ids_ascending(b),
        by_id(a) == by_id(b),
    ensures
        a == b,
    decreases a.len(),
{
    if a.len() == 0 || b.len() == 0 {
        if a.len() > 0 {
            lemma_by_id_keys(a, a.last().id);
            lemma_by_id_keys(b, a.last().id);
            assert(a[a.len() - 1].id == a.last().id);
        }
        if b.len() > 0 {
            lemma_by_id_keys(a, b.last().id);
            lemma_by_id_keys(b, b.last().id);
            assert(b[b.len() - 1].id == b.last().id);
        }
        assert(a =~= b);
    } else {
        let x = a.last();
        let y = b.last();
        lemma_by_id_keys(a, x.id);
        lemma_by_id_keys(b, x.id);
        lemma_by_id_keys(a, y.id);
        lemma_by_id_keys(b, y.id);
        assert(a[a.len() - 1].id == x.id);
        assert(b[b.len() - 1].id == y.id);
        let j = choose|j: int| 0 <= j < b.len() && #[trigger] b[j].id == x.id;
        if j < b.len() - 1 {
            assert(b[j].id < y.id);
        }
        let k = choose|k: int| 0 <= k < a.len() && #[trigger] a[k].id == y.id;
        if k < a.len() - 1 {
            assert(a[k].id < x.id);
        }
        assert(x.id == y.id);
        lemma_by_id_value(a, a.len() - 1);
        lemma_by_id_value(b, b.len() - 1);
        let da = a.drop_last();
        let db = b.drop_last();
        lemma_by_id_keys(da, x.id);
        lemma_by_id_keys(db, x.id);
        if has_id(da, x.id) {
            let i = choose|i: int| 0 <= i < da.len() && #[trigger] da[i].id == x.id;
            assert(a[i].id < x.id);
        }
        if has_id(db, x.id) {
            let i = choose|i: int| 0 <= i < db.len() && #[trigger] db[i].id == x.id;
            assert(b[i].id < y.id);
        }
        assert(by_id(da) =~= by_id(a).remove(x.id));
        assert(by_id(db) =~= by_id(b).remove(x.id));
        lemma_by_id_determines(da, db);
        assert(a =~= da.push(x));
        assert(b =~= db.push(y));
    }
}

/// Replacing, in ascending ids, the task with the id of `t` by `t` changes
/// the tasks by id as an insert of `t` does.
proof fn lemma_by_id_update(s: Seq<TaskView>, p: int, t: TaskView)
    requires
        ids_ascending(s),
        0 <= p < s.len(),
        s[p].id == t.id,
    ensures
        by_id(s.update(p, t)) == by_id(s).insert(t.id, t),
    decreases s.len(),
{
    let u = s.update(p, t);
    let d = s.drop_last();
    if p == s.len() - 1 {
        assert(u =~= d.push(t));
        assert(u.drop_last() =~= d);
        assert(by_id(u) =~= by_id(s).insert(t.id, t));
    } else {
        assert(u.drop_last() =~= d.update(p, t));
        lemma_by_id_update(d, p, t);
        assert(s.last().id > t.id);
        assert(by_id(u) =~= by_id(s).insert(t.id, t));
    }
}

/// Inserting `t` at the place that keeps ids ascending changes the tasks by
/// id as an insert of `t` does.
proof fn lemma_by_id_insert(s: Seq<TaskView>, p: int, t: TaskView)
    requires
        0 <= p <= s.len(),
        forall|j: int| p <= j < s.len() ==> t.id < #[trigger] s[j].id,
    ensures
        by_id(s.insert(p, t)) == by_id(s).insert(t.id, t),
    decreases s.len(),
{
    let u = s.insert(p, t);
    if p == s.len() {
        assert(u =~= s.push(t));
        assert(u.drop_last() =~= s);
    } else {
        let d = s.drop_last();
        assert(u.drop_last() =~= d.insert(p, t));
        assert(u.last() == s.last());
        lemma_by_id_insert(d, p, t);
        assert(s.last().id > t.id);
        assert(by_id(u) =~= by_id(s).insert(t.id, t));
    }
}

/// Puts `task` into `tasks`, kept in ascending order of id: in place of the
/// task with the same id, or else where its id belongs.
fn put(tasks: &mut Vec<Task>, task: Task)
    requires
        ids_ascending(old(tasks)@.map_values(|t: Task| t@)),
    ensures
        ids_ascending(final(tasks)@.map_values(|t: Task| t@)),
        by_id(final(tasks)@.map_values(|t: Task| t@)) == by_id(old(tasks)@.map_values(|t: Task| t@)).insert(
            task@.id,
            task@,
        ),
        forall|i: int|
            0 <= i < final(tasks)@.len() ==> #[trigger] final(tasks)@[i] == task || old(tasks)@.contains(
                final(tasks)@[i],
            ),
{
    let ghost s = old(tasks)@.map_values(|t: Task| t@);
    let mut i: usize = 0;
    while i < tasks.len() && tasks[i].id < task.id
        invariant
            i <= tasks.len(),
            tasks@ == old(tasks)@,
            forall|j: int| 0 <= j < i ==> #[trigger] tasks@[j].id < task.id,
        decreases tasks.len() - i,
    {
        i = i + 1;
    }
    if i < tasks.len() && tasks[i].id == task.id {
        let ghost tv = task@;
        tasks.set(i, task);
        proof {
            lemma_by_id_update(s, i as int, tv);
            assert(tasks@.map_values(|t: Task| t@) =~= s.update(i as int, tv));
            assert forall|a: int| 0 <= a < tasks@.len() && a != i implies old(tasks)@.contains(
                #[trigger] tasks@[a],
            ) by {
                assert(tasks@[a] == old(tasks)@[a]);
            }
        }
    } else {
        let ghost tv = task@;
        proof {
            assert forall|j: int| i <= j < s.len() implies tv.id < #[trigger] s[j].id by {
                assert(s[i as int].id <= s[j].id);
            }
            lemma_by_id_insert(s, i as int, tv);
        }
        tasks.insert(i, task);
        proof {
            assert(tasks@.map_values(|t: Task| t@) =~= s.insert(i as int, tv));
            assert forall|a: int| 0 <= a < tasks@.len() && a != i implies old(tasks)@.contains(
                #[trigger] tasks@[a],
            ) by {
                if a < i {
                    assert(tasks@[a] == old(tasks)@[a]);
                } else {
                    assert(tasks@[a] == old(tasks)@[a - 1]);
                }
            }
        }
    }
}

impl TaskRecord {
    /// The record that `task` is written as.
    pub fn from_task(task: &Task) -> (r: TaskRecord)
        ensures
            r@ == record_of(task@),
    {
        TaskRecord {
            id: task.id,
            description: task.description.clone(),
            status: task.status.name(),
            created_at: task.created_at,
            updated_at: task.updated_at,
        }
    }

    /// The task that this record is read as; `None` where its status is none
    /// of the three names.
    pub fn to_task(&self) -> (r: Option<Task>)
        ensures
            (r is Some) == status_known(self@),
            r matches Some(t) ==> t@ == task_of(self@),
    {
        match TaskStatus::from_name(&self.status) {
            Some(status) => Some(
                Task {
                    id: self.id,
                    description: self.description.clone(),
                    status: status,
                    created_at: self.created_at,
                    updated_at: self.updated_at,
                },
            ),
            None => None,
        }
    }
}

impl TaskRepository {
    /// The records that the repository is written as: one per task, in
    /// ascending order of id.
    pub fn serializable(&self) -> (r: TaskRepositoryForSerialization)
        ensures
            r.tasks@.len() == self@.tasks.len(),
            record_views(r.tasks@) == records_of(self@.tasks),
    {
        let tasks = self.tasks();
        let mut records: Vec<TaskRecord> = Vec::new();
        let mut i: usize = 0;
        while i < tasks.len()
            invariant
                i <= tasks.len(),
                tasks@.map_values(|t: Task| t@) == self@.tasks,
                record_views(records@) =~= records_of(self@.tasks.take(i as int)),
            decreases tasks.len() - i,
        {
            let ghost before = records@;
            records.push(TaskRecord::from_task(&tasks[i]));
            assert(record_views(records@) =~= record_views(before).push(records@[i as int]@));
            assert(self@.tasks.take(i as int + 1) =~= self@.tasks.take(i as int).push(self@.tasks[i as int]));
            i = i + 1;
        }
        assert(self@.tasks.take(i as int) =~= self@.tasks);
        TaskRepositoryForSerialization { tasks: records }
    }

    /// The repository that `object` describes: its tasks by id, the later of
    /// two records with one id standing, and `last_id` the highest id read
    /// (0 where none is higher). Fails on the first record whose status is
    /// none of the three names.
    pub fn from_serialization(object: TaskRepositoryForSerialization) -> (r: Result<
        TaskRepository,
        CorruptData,
    >)
        ensures
            r matches Ok(repo) ==> loaded_from(record_views(object.tasks@), repo@),
            r matches Ok(repo) ==> repo.wf(),
            r matches Err(e) ==> e.record < object.tasks@.len(),
            r matches Err(e) ==> !status_known(record_views(object.tasks@)[e.record as int]),
            r matches Err(e) ==> forall|i: int|
                0 <= i < e.record as int ==> status_known(#[trigger] record_views(object.tasks@)[i]),
    {
        let records = object.tasks;
        let ghost rv = record_views(records@);
        let ghost read = tasks_of(rv);
        let mut tasks: Vec<Task> = Vec::new();
        let mut max_id: i32 = 0;
        let mut k: usize = 0;
        while k < records.len()
            invariant
                k <= records.len(),
                rv == record_views(records@),
                records@ == object.tasks@,
                read == tasks_of(rv),
                forall|i: int| 0 <= i < k ==> status_known(#[trigger] rv[i]),
                ids_ascending(tasks@.map_values(|t: Task| t@)),
                by_id(tasks@.map_values(|t: Task| t@)) == by_id(read.take(k as int)),
                max_id == highest_id(read.take(k as int)),
                0 <= max_id,
                forall|i: int| 0 <= i < tasks@.len() ==> #[trigger] tasks@[i].id <= max_id,
            decreases records.len() - k,
        {
            let ghost before = tasks@;
            match records[k].to_task() {
                None => {
                    assert(rv[k as int] == records@[k as int]@);
                    return Err(CorruptData { record: k });
                },
                Some(task) => {
                    let id = task.id;
                    assert(read.take(k as int + 1).drop_last() =~= read.take(k as int));
                    assert(read.take(k as int + 1).last() == task@);
                    put(&mut tasks, task);
                    if id > max_id {
                        max_id = id;
                    }
                    assert forall|i: int| 0 <= i < tasks@.len() implies #[trigger] tasks@[i].id <= max_id by {
                        if tasks@[i].id != id {
                            assert(before.contains(tasks@[i]));
                        }
                    }
                },
            }
            k = k + 1;
        }
        assert(read.take(k as int) =~= read);
        Ok(TaskRepository::from_parts(tasks, max_id))
    }
}

/// Saving a repository and loading what was saved gives back the same tasks,
/// by id (for a valid repository, the same sequence of tasks), with `last_id`
/// the highest id among them (0 where there is none), whatever `last_id` was
/// before. Loading what was saved never fails: each
/// record names a known status.
pub proof fn lemma_round_trip(r: RepoView, loaded: RepoView)
    ensures
        forall|i: int| 0 <= i < r.tasks.len() ==> status_known(#[trigger] records_of(r.tasks)[i]),
        loaded_from(records_of(r.tasks), loaded) ==> by_id(loaded.tasks) == by_id(r.tasks),
        loaded_from(records_of(r.tasks), loaded) && r.valid() ==> loaded.tasks == r.tasks,
        loaded_from(records_of(r.tasks), loaded) ==> loaded.last_id == highest_id(r.tasks),
        forall|i: int| 0 <= i < r.tasks.len() ==> #[trigger] r.tasks[i].id <= highest_id(r.tasks),
        r.tasks.len() == 0 ==> highest_id(r.tasks) == 0,
        highest_id(r.tasks) == 0 || exists|i: int|
            0 <= i < r.tasks.len() && #[trigger] r.tasks[i].id == highest_id(r.tasks),
{
    let recs = records_of(r.tasks);
    assert forall|i: int| 0 <= i < r.tasks.len() implies task_of(#[trigger] recs[i]) == r.tasks[i] by {
        lemma_status_name_round_trip(r.tasks[i].status);
    }
    assert(tasks_of(recs) =~= r.tasks);
    lemma_highest_id(r.tasks);
    if loaded_from(recs, loaded) && r.valid() {
        lemma_by_id_determines(loaded.tasks, r.tasks);
    }
}

} // verus!
