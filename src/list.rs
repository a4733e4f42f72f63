use crate::tags::{distinct_tags, first_occurrences, flat_tags, has_tag, texts, Type};
use crate::task::Task;
use vstd::prelude::*;

verus! {

/// A collection of tasks, in no meaningful order.
pub struct List {
    pub tasks: Vec<Task>,
}

impl List {
    /// An empty list.
    pub fn new() -> (r: List)
        ensures
            r.tasks@.len() == 0,
    {
        List { tasks: Vec::new() }
    }

    /// The distinct projects of the tasks, in order of discovery.
    pub fn projects(&self) -> (r: Vec<String>)
        ensures
            texts(r@) == first_occurrences(flat_tags(self.tasks@, Type::Projects)),
            forall|k: int| 0 <= k < r@.len() ==> has_tag(self.tasks@, Type::Projects, #[trigger] r@[k]@),
            forall|name: Seq<char>| has_tag(self.tasks@, Type::Projects, name)
                ==> exists|k: int| 0 <= k < r@.len() && #[trigger] r@[k]@ == name,
            forall|k1: int, k2: int| 0 <= k1 < k2 < r@.len() ==> r@[k1]@ != r@[k2]@,
    {
        distinct_tags(&self.tasks, Type::Projects)
    }

    /// The distinct contexts of the tasks, in order of discovery.
    pub fn contexts(&self) -> (r: Vec<String>)
        ensures
            texts(r@) == first_occurrences(flat_tags(self.tasks@, Type::Contexts)),
            forall|k: int| 0 <= k < r@.len() ==> has_tag(self.tasks@, Type::Contexts, #[trigger] r@[k]@),
            forall|name: Seq<char>| has_tag(self.tasks@, Type::Contexts, name)
                ==> exists|k: int| 0 <= k < r@.len() && #[trigger] r@[k]@ == name,
            forall|k1: int, k2: int| 0 <= k1 < k2 < r@.len() ==> r@[k1]@ != r@[k2]@,
    {
        distinct_tags(&self.tasks, Type::Contexts)
    }
}

} // verus!
