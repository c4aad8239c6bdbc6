use vstd::prelude::*;

verus! {

/// Mathematical image of a record awaiting an identifier.
pub ghost struct NewTaskView {
    pub name: Seq<char>,
    pub description: Option<Seq<char>>,
}

/// A record awaiting an identifier: the input of `add`. The backend assigns
/// the identifier when the record is persisted.
pub struct NewTask {
    pub name: String,
    pub description: Option<String>,
}

impl View for NewTask {
    type V = NewTaskView;

    open spec fn view(&self) -> NewTaskView {
        NewTaskView { name: self.name@, description: self.description.deep_view() }
    }
}

impl NewTask {
    /// Assembles the input of `add` from a name and an optional description.
    pub fn new(name: String, description: Option<String>) -> (t: NewTask)
        ensures
            t@ == (NewTaskView { name: name@, description: description.deep_view() }),
    {
        NewTask { name, description }
    }

    pub fn name(&self) -> (r: &String)
        ensures
            r@ == self@.name,
    {
        &self.name
    }

    pub fn description(&self) -> (r: Option<&String>)
        ensures
            r.deep_view() == self@.description,
    {
        self.description.as_ref()
    }
}

} // verus!
