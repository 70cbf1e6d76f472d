use vstd::prelude::*;

verus! {

/// One todo entry: a textual description and a completion flag.
#[derive(Debug, PartialEq, Eq)]
pub struct Todo {
    pub description: String,
    pub completed: bool,
}

/// The mathematical value of a `Todo`: the description's characters and the flag.
pub ghost struct TodoView {
    pub description: Seq<char>,
    pub completed: bool,
}

impl View for Todo {
    type V = TodoView;

    open spec fn view(&self) -> TodoView {
        TodoView { description: self.description@, completed: self.completed }
    }
}

impl DeepView for Todo {
    type V = TodoView;

    open spec fn deep_view(&self) -> TodoView {
        self@
    }
}

impl Todo {
    /// A fresh record: the given description, not yet completed.
    pub fn new(description: String) -> (t: Todo)
        ensures
            t@ == (TodoView { description: description@, completed: false }),
    {
        Todo { description, completed: false }
    }
}

} // verus!
