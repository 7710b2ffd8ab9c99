use vstd::prelude::*;

verus! {

/// A single to-do entry: what the user typed, whether it is done, and the
/// timestamp string assigned at creation.  The timestamp doubles as the
/// entry's unique key inside a task list.
pub struct ListItem {
    pub completed: bool,
    pub description: String,
    pub datetime: String,
}

/// The mathematical value of a `ListItem`: the same three fields over
/// character sequences.
#[verifier::ext_equal]
pub struct TaskView {
    pub completed: bool,
    pub description: Seq<char>,
    pub datetime: Seq<char>,
}

impl View for ListItem {
    type V = TaskView;

    open spec fn view(&self) -> TaskView {
        TaskView {
            completed: self.completed,
            description: self.description@,
            datetime: self.datetime@,
        }
    }
}

/// The values of a whole task list, in order.
pub open spec fn seq_view(s: Seq<ListItem>) -> Seq<TaskView> {
    s.map_values(|t: ListItem| t@)
}

impl ListItem {
    /// A copy of the task with the same field values.
    pub fn duplicate(&self) -> (r: ListItem)
        ensures
            r@ == self@,
    {
        ListItem {
            completed: self.completed,
            description: self.description.clone(),
            datetime: self.datetime.clone(),
        }
    }
}

} // verus!
