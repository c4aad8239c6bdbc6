//! An earlier shape of the task record, kept for the file stores that still
//! hold it: a name, a plain-text description and a completion flag, without
//! an identifier.

use vstd::prelude::*;
use vstd::string::StringExecFns;

verus! {

/// What the record's display line says: a ballot-box symbol for the flag,
/// then the name, a dash, and the description.
pub open spec fn spec_render(name: Seq<char>, description: Seq<char>, completed: bool) -> Seq<
    char,
> {
    (if completed {
        "\u{2611} "@
    } else {
        "\u{2610} "@
    }) + name + " - "@ + description
}

/// A task record without an identifier.
#[derive(Debug, Hash)]
pub struct Task {
    pub name: String,
    pub description: String,
    pub completed: bool,
}

impl Task {
    /// A fresh, uncompleted record with the given name and description.
    pub fn new(name: &str, description: &str) -> (t: Task)
        ensures
            t.name@ == name@,
            t.description@ == description@,
            !t.completed,
    {
        Task { name: name.to_owned(), description: description.to_owned(), completed: false }
    }

    /// A fresh, uncompleted record with the given name and an empty
    /// description.
    pub fn new_from_name(name: &str) -> (t: Task)
        ensures
            t.name@ == name@,
            t.description@ == Seq::<char>::empty(),
            !t.completed,
    {
        Task { name: name.to_owned(), description: String::new(), completed: false }
    }

    pub fn name(&self) -> (r: &str)
        ensures
            r@ == self.name@,
    {
        self.name.as_str()
    }

    pub fn description(&self) -> (r: &str)
        ensures
            r@ == self.description@,
    {
        self.description.as_str()
    }

    pub fn completed(&self) -> (r: bool)
        ensures
            r == self.completed,
    {
        self.completed
    }

    /// Marks the record as done; the other fields stay.
    pub fn complete(&mut self)
        ensures
            final(self).completed,
            final(self).name@ == old(self).name@,
            final(self).description@ == old(self).description@,
    {
        self.completed = true;
    }

    /// The record's display line.
    pub fn render(&self) -> (r: String)
        ensures
            r@ == spec_render(self.name@, self.description@, self.completed),
    {
        let mut out = String::new();
        if self.completed {
            out.append("\u{2611} ");
        } else {
            out.append("\u{2610} ");
        }
        out.append(self.name.as_str());
        out.append(" - ");
        out.append(self.description.as_str());
        proof {
            assert(out@ =~= spec_render(self.name@, self.description@, self.completed));
        }
        out
    }
}

impl Clone for Task {
    /// The copy carries the same record, field for field.
    fn clone(&self) -> (r: Self)
        ensures
            r.name@ == self.name@,
            r.description@ == self.description@,
            r.completed == self.completed,
    {
        Task {
            name: self.name.clone(),
            description: self.description.clone(),
            completed: self.completed,
        }
    }
}

} // verus!
