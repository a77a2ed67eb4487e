use vstd::prelude::*;
use vstd::string::*;
use crate::chars::chars_to_string;
use crate::priority::Priority;
use crate::time::Timestamp;

verus! {

/// One tracked to-do item.
pub struct Task {
    pub name: String,
    pub description: String,
    pub priority: Priority,
    /// Captured when the task is created; edits never touch it.
    pub add_time: Timestamp,
}

/// The mathematical value of a [`Task`]: its text fields as character
/// sequences, the priority and timestamp as themselves.
pub ghost struct TaskView {
    pub name: Seq<char>,
    pub description: Seq<char>,
    pub priority: Priority,
    pub add_time: Timestamp,
}

impl TaskView {
    /// Well-formedness: the timestamp lies in its calendar ranges.
    pub open spec fn wf(self) -> bool {
        self.add_time.wf()
    }
}

impl View for Task {
    type V = TaskView;

    open spec fn view(&self) -> TaskView {
        TaskView {
            name: self.name@,
            description: self.description@,
            priority: self.priority,
            add_time: self.add_time,
        }
    }
}

/// The display block of one task: four labelled lines and a separator.
pub open spec fn render_of(tv: TaskView) -> Seq<char> {
    "Task Name: "@ + tv.name + "\n"@ + "Description: "@ + tv.description + "\n"@ + "Priority: "@
        + tv.priority.label() + "\n"@ + "Added on: "@ + tv.add_time.render_of() + "\n"@
        + "-------------------------\n"@
}

impl Task {
    /// Creates a task stamped with the current local time.
    pub fn new(name: String, description: String, priority: Priority) -> (t: Task)
        ensures
            t@.name == name@,
            t@.description == description@,
            t@.priority == priority,
            t@.wf(),
    {
        let add_time = Timestamp::now();
        Task { name, description, priority, add_time }
    }

    /// Creates a task with an explicitly chosen creation time.
    pub fn with_time(name: String, description: String, priority: Priority, add_time: Timestamp) -> (t:
        Task)
        requires
            add_time.wf(),
        ensures
            t@.name == name@,
            t@.description == description@,
            t@.priority == priority,
            t@.add_time == add_time,
            t@.wf(),
    {
        Task { name, description, priority, add_time }
    }

    /// The display text of one task: four labelled lines and a separator.
    pub fn render(&self) -> (r: String)
        requires
            self@.wf(),
        ensures
            r@ == render_of(self@),
    {
        let mut out = String::new();
        out.append("Task Name: ");
        out.append(self.name.as_str());
        out.append("\n");
        out.append("Description: ");
        out.append(self.description.as_str());
        out.append("\n");
        out.append("Priority: ");
        let label = self.priority.to_string();
        out.append(label.as_str());
        out.append("\n");
        out.append("Added on: ");
        let stamp_chars = self.add_time.render_chars();
        let stamp = chars_to_string(&stamp_chars);
        out.append(stamp.as_str());
        out.append("\n");
        out.append("-------------------------\n");
        proof {
            assert(out@ =~= render_of(self@));
        }
        out
    }
}

} // verus!
