use vstd::prelude::*;
use vstd::string::*;
use crate::chars::str_eq;
use crate::codec;
use crate::error::TaskError;
use crate::task::{Task, TaskView};

verus! {

/// Index of the first task whose name equals `name`, or `None`.
pub open spec fn find_first(ts: Seq<TaskView>, name: Seq<char>) -> Option<int>
    decreases ts.len(),
{
    if ts.len() == 0 {
        None
    } else if ts[0].name == name {
        Some(0int)
    } else {
        match find_first(ts.subrange(1, ts.len() as int), name) {
            Some(i) => Some(i + 1),
            None => None,
        }
    }
}

/// `find_first` returns exactly the position of the first match: a hit is
/// in range, bears the name, and nothing before it does; a miss means no
/// entry bears the name.
pub proof fn lemma_find_first_spec(ts: Seq<TaskView>, name: Seq<char>)
    ensures
        match find_first(ts, name) {
            Some(i) => 0 <= i < ts.len() && ts[i].name == name && (forall|j: int|
                0 <= j < i ==> ts[j].name != name),
            None => forall|j: int| 0 <= j < ts.len() ==> ts[j].name != name,
        },
    decreases ts.len(),
{
    if ts.len() != 0 && ts[0].name != name {
        let sub = ts.subrange(1, ts.len() as int);
        lemma_find_first_spec(sub, name);
        match find_first(ts, name) {
            Some(i) => {
                assert(ts[i] == sub[i - 1]);
                assert forall|j: int| 0 <= j < i implies ts[j].name != name by {
                    if j >= 1 {
                        assert(ts[j] == sub[j - 1]);
                    }
                }
            },
            None => {
                assert forall|j: int| 0 <= j < ts.len() implies ts[j].name != name by {
                    if j >= 1 {
                        assert(ts[j] == sub[j - 1]);
                    }
                }
            },
        }
    }
}

/// The success message of `remove_task`.
pub open spec fn msg_removed(name: Seq<char>) -> Seq<char> {
    "Task \""@ + name + "\" removed successfully."@
}

/// The success message of `edit_task`; it carries the new name.
pub open spec fn msg_updated(name: Seq<char>) -> Seq<char> {
    "Task \""@ + name + "\" updated successfully."@
}

/// The stored record after an edit: every field of the replacement, but the
/// creation time of the original.
pub open spec fn edited(orig: TaskView, repl: TaskView) -> TaskView {
    TaskView { add_time: orig.add_time, ..repl }
}

/// The in-memory registry: an ordered sequence of tasks, iterated and
/// displayed in insertion order.
pub struct TasksManager {
    tasks: Vec<Task>,
}

impl View for TasksManager {
    type V = Seq<TaskView>;

    closed spec fn view(&self) -> Seq<TaskView> {
        self.tasks@.map_values(|t: Task| t@)
    }
}

impl TasksManager {
    /// Every stored task is well-formed.
    pub open spec fn wf(self) -> bool {
        forall|i: int| 0 <= i < self@.len() ==> (#[trigger] self@[i]).wf()
    }

    /// A fresh, empty registry.
    pub fn new() -> (r: TasksManager)
        ensures
            r@ == Seq::<TaskView>::empty(),
            r.wf(),
    {
        let r = TasksManager { tasks: Vec::new() };
        proof {
            assert(r@ =~= Seq::<TaskView>::empty());
        }
        r
    }

    /// Appends a task at the end; always succeeds.
    pub fn add_task(&mut self, task: Task)
        requires
            old(self).wf(),
            task@.wf(),
        ensures
            final(self)@ == old(self)@.push(task@),
            final(self).wf(),
    {
        self.tasks.push(task);
        proof {
            assert(self@ =~= old(self)@.push(task@));
        }
    }

    /// Position of the first task with this exact (case-sensitive) name.
    pub fn find_task(&self, name: &str) -> (r: Option<usize>)
        ensures
            r matches Some(i) ==> find_first(self@, name@) == Some(i as int),
            r is None ==> find_first(self@, name@) is None,
    {
        let n = self.tasks.len();
        let mut i: usize = 0;
        while i < n
            invariant
                n == self.tasks.len(),
                i <= n,
                forall|j: int| 0 <= j < i ==> self@[j].name != name@,
            decreases n - i,
        {
            if str_eq(self.tasks[i].name.as_str(), name) {
                proof {
                    lemma_find_first_spec(self@, name@);
                    if find_first(self@, name@) is None {
                        assert(self@[i as int].name == name@);
                        assert(false);
                    }
                }
                return Some(i);
            }
            i = i + 1;
        }
        proof {
            lemma_find_first_spec(self@, name@);
            match find_first(self@, name@) {
                Some(k) => {
                    assert(self@[k].name == name@);
                    assert(false);
                },
                None => {},
            }
        }
        None
    }

    /// Reference to the first task with this name, if any.
    pub fn find(&self, name: &str) -> (r: Option<&Task>)
        ensures
            match find_first(self@, name@) {
                Some(i) => r matches Some(t) && t@ == self@[i],
                None => r is None,
            },
    {
        proof {
            lemma_find_first_spec(self@, name@);
        }
        match self.find_task(name) {
            Some(i) => Some(&self.tasks[i]),
            None => None,
        }
    }

    /// The full ordered sequence, for display; no filtering.
    pub fn list_all(&self) -> (r: &Vec<Task>)
        ensures
            r@.len() == self@.len(),
            forall|i: int| 0 <= i < r@.len() ==> (#[trigger] r@[i])@ == self@[i],
    {
        &self.tasks
    }

    /// Removes the first task with this name, shifting later entries up;
    /// `NotFound` when no task bears the name.
    pub fn remove_task(&mut self, name: &str) -> (r: Result<String, TaskError>)
        requires
            old(self).wf(),
        ensures
            final(self).wf(),
            match find_first(old(self)@, name@) {
                Some(i) => final(self)@ == old(self)@.remove(i) && (r matches Ok(m) && m@
                    == msg_removed(name@)),
                None => final(self)@ == old(self)@ && r == Err::<String, TaskError>(
                    TaskError::NotFound,
                ),
            },
    {
        proof {
            lemma_find_first_spec(self@, name@);
        }
        match self.find_task(name) {
            Some(i) => {
                self.tasks.remove(i);
                proof {
                    assert(self@ =~= old(self)@.remove(i as int));
                }
                let mut m = String::new();
                m.append("Task \"");
                m.append(name);
                m.append("\" removed successfully.");
                proof {
                    assert(m@ =~= msg_removed(name@));
                }
                Ok(m)
            },
            None => Err(TaskError::NotFound),
        }
    }

    /// Overwrites name, description and priority of the first task with
    /// this name; its creation time stays untouched. `NotFound` when no
    /// task bears the name.
    pub fn edit_task(&mut self, name: &str, updated_task: Task) -> (r: Result<String, TaskError>)
        requires
            old(self).wf(),
            updated_task@.wf(),
        ensures
            final(self).wf(),
            match find_first(old(self)@, name@) {
                Some(i) => final(self)@ == old(self)@.update(
                    i,
                    edited(old(self)@[i], updated_task@),
                ) && (r matches Ok(m) && m@ == msg_updated(updated_task@.name)),
                None => final(self)@ == old(self)@ && r == Err::<String, TaskError>(
                    TaskError::NotFound,
                ),
            },
    {
        proof {
            lemma_find_first_spec(self@, name@);
        }
        match self.find_task(name) {
            Some(i) => {
                let kept_time = self.tasks[i].add_time;
                let Task { name: new_name, description, priority, add_time: _ } = updated_task;
                let mut m = String::new();
                m.append("Task \"");
                m.append(new_name.as_str());
                m.append("\" updated successfully.");
                proof {
                    assert(m@ =~= msg_updated(updated_task@.name));
                }
                self.tasks[i] = Task { name: new_name, description, priority, add_time: kept_time };
                proof {
                    assert(self@ =~= old(self)@.update(
                        i as int,
                        edited(old(self)@[i as int], updated_task@),
                    ));
                }
                Ok(m)
            },
            None => Err(TaskError::NotFound),
        }
    }
}

/// The success message of `load_from_file`.
pub open spec fn msg_loaded() -> Seq<char> {
    "Tasks loaded successfully."@
}

impl TasksManager {
    /// The file content to save, under the no-clobber policy: when a file
    /// already exists at the target, `AlreadyExists` and nothing to write;
    /// otherwise the complete serialized task sequence. The caller performs
    /// the write itself, so an existing file is never touched.
    pub fn store_to_file(&self, file_exists: bool) -> (r: Result<String, TaskError>)
        requires
            self.wf(),
        ensures
            file_exists ==> r == Err::<String, TaskError>(TaskError::AlreadyExists),
            !file_exists ==> (r matches Ok(content) && content@ == codec::json_of(self@)),
    {
        if file_exists {
            Err(TaskError::AlreadyExists)
        } else {
            proof {
                assert(codec::views_of(self.tasks@) =~= self@);
                assert forall|i: int| 0 <= i < self.tasks@.len() implies (#[trigger] self.tasks@[i])@.wf() by {
                    assert(self@[i] == self.tasks@[i]@);
                }
            }
            Ok(codec::tasks_to_json(&self.tasks))
        }
    }

    /// Replaces the whole registry with what a loaded file spells. `None`
    /// stands for a file that does not exist: `NotFound`, registry kept.
    /// Malformed content is a `DeserializationError` and also keeps the
    /// registry unchanged; only a fully parsed sequence is swapped in.
    pub fn load_from_file(&mut self, content: Option<&str>) -> (r: Result<String, TaskError>)
        requires
            old(self).wf(),
        ensures
            final(self).wf(),
            match content {
                None => r == Err::<String, TaskError>(TaskError::NotFound) && final(self)@ == old(
                    self,
                )@,
                Some(text) => match codec::parse_array(text@) {
                    Some(tvs) => (r matches Ok(m) && m@ == msg_loaded()) && final(self)@ == tvs,
                    None => r == Err::<String, TaskError>(TaskError::DeserializationError)
                        && final(self)@ == old(self)@,
                },
            },
    {
        match content {
            None => Err(TaskError::NotFound),
            Some(text) => match codec::parse_tasks_json(text) {
                Ok(ts) => {
                    self.tasks = ts;
                    proof {
                        assert(self@ =~= codec::views_of(self.tasks@));
                        assert forall|i: int| 0 <= i < self@.len() implies (#[trigger] self@[i]).wf() by {
                            assert(self@[i] == self.tasks@[i]@);
                        }
                    }
                    let mut m = String::new();
                    m.append("Tasks loaded successfully.");
                    proof {
                        assert(m@ =~= msg_loaded());
                    }
                    Ok(m)
                },
                Err(e) => Err(e),
            },
        }
    }
}

/// After `add`, `find` on the added name returns exactly the added record,
/// provided no earlier entry already bears that name.
pub proof fn lemma_add_then_find(ts: Seq<TaskView>, t: TaskView)
    requires
        forall|j: int| 0 <= j < ts.len() ==> (#[trigger] ts[j]).name != t.name,
    ensures
        find_first(ts.push(t), t.name) == Some(ts.len() as int),
        ts.push(t)[ts.len() as int] == t,
    decreases ts.len(),
{
    let pushed = ts.push(t);
    if ts.len() == 0 {
        assert(pushed[0] == t);
    } else {
        assert(pushed[0] == ts[0]);
        assert(pushed.subrange(1, pushed.len() as int) =~= ts.subrange(1, ts.len() as int).push(t));
        lemma_add_then_find(ts.subrange(1, ts.len() as int), t);
    }
}

/// `remove` of a name just added to a registry free of that name undoes the
/// `add`, and a subsequent `find` on that name misses.
pub proof fn lemma_add_remove_find(ts: Seq<TaskView>, t: TaskView)
    requires
        forall|j: int| 0 <= j < ts.len() ==> (#[trigger] ts[j]).name != t.name,
    ensures
        find_first(ts.push(t), t.name) == Some(ts.len() as int),
        ts.push(t).remove(ts.len() as int) == ts,
        find_first(ts, t.name) is None,
{
    lemma_add_then_find(ts, t);
    assert(ts.push(t).remove(ts.len() as int) =~= ts);
    lemma_find_first_spec(ts, t.name);
    match find_first(ts, t.name) {
        Some(k) => {
            assert(ts[k].name == t.name);
            assert(false);
        },
        None => {},
    }
}

} // verus!
