use vstd::prelude::*;

verus! {

/// Mathematical image of a task record: what the contracts of the
/// persistence layer speak about.
pub ghost struct TaskView {
    pub id: int,
    pub name: Seq<char>,
    pub description: Option<Seq<char>>,
    pub completed: bool,
}

/// A persisted task record: a unique identifier assigned by the backend, a
/// name, an optional description and a completion flag.
pub struct Task {
    pub id: i32,
    pub name: String,
    pub description: Option<String>,
    pub completed: bool,
}

impl View for Task {
    type V = TaskView;

    open spec fn view(&self) -> TaskView {
        TaskView {
            id: self.id as int,
            name: self.name@,
            description: self.description.deep_view(),
            completed: self.completed,
        }
    }
}

impl Task {
    /// Assembles a record from its four fields.
    pub fn new(id: i32, name: String, description: Option<String>, completed: bool) -> (t: Task)
        ensures
            t@ == (TaskView {
                id: id as int,
                name: name@,
                description: description.deep_view(),
                completed,
            }),
    {
        Task { id, name, description, completed }
    }

    pub fn id(&self) -> (r: i32)
        ensures
            r as int == self@.id,
    {
        self.id
    }

    pub fn name(&self) -> (r: &String)
        ensures
            r@ == self@.name,
    {
        &self.name
    }

    pub fn description(&self) -> (r: Option<&String>)
        ensures
            r.deep_view() == self@.description,
    {
        self.description.as_ref()
    }

    pub fn completed(&self) -> (r: bool)
        ensures
            r == self@.completed,
    {
        self.completed
    }

    /// Marks the record as done. Completion is one-directional: there is no
    /// operation that clears the flag again.
    pub fn set_completed(&mut self)
        ensures
            final(self)@ == (TaskView { completed: true, ..old(self)@ }),
    {
        self.completed = true;
    }
}

impl Clone for Task {
    /// The copy carries the same record, field for field.
    fn clone(&self) -> (r: Self)
        ensures
            r@ == self@,
    {
        Task {
            id: self.id,
            name: self.name.clone(),
            description: match &self.description {
                Some(d) => Some(d.clone()),
                None => None,
            },
            completed: self.completed,
        }
    }
}

} // verus!
