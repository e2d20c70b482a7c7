use vstd::prelude::*;

verus! {

/// A task record. `category`, once set, holds a snapshot of a category's
/// name at assignment time; it is never revalidated afterwards.
#[derive(Debug, PartialEq)]
pub struct Task {
    pub id: u64,
    pub name: String,
    pub description: String,
    pub eta: String,
    pub category: Option<String>,
}

/// A category record.
#[derive(Debug, PartialEq)]
pub struct Category {
    pub id: u64,
    pub name: String,
}

/// The mathematical value of a `Task`.
#[verifier::ext_equal]
pub struct TaskView {
    pub id: u64,
    pub name: Seq<char>,
    pub description: Seq<char>,
    pub eta: Seq<char>,
    pub category: Option<Seq<char>>,
}

/// The mathematical value of a `Category`.
#[verifier::ext_equal]
pub struct CategoryView {
    pub id: u64,
    pub name: Seq<char>,
}

impl View for Task {
    type V = TaskView;

    open spec fn view(&self) -> TaskView {
        TaskView {
            id: self.id,
            name: self.name@,
            description: self.description@,
            eta: self.eta@,
            category: match self.category {
                Some(n) => Some(n@),
                None => None,
            },
        }
    }
}

impl View for Category {
    type V = CategoryView;

    open spec fn view(&self) -> CategoryView {
        CategoryView { id: self.id, name: self.name@ }
    }
}

impl Clone for Task {
    fn clone(&self) -> (t: Task)
        ensures
            t@ == self@,
    {
        Task {
            id: self.id,
            name: self.name.clone(),
            description: self.description.clone(),
            eta: self.eta.clone(),
            category: match &self.category {
                Some(n) => Some(n.clone()),
                None => None,
            },
        }
    }
}

impl Clone for Category {
    fn clone(&self) -> (c: Category)
        ensures
            c@ == self@,
    {
        Category { id: self.id, name: self.name.clone() }
    }
}

} // verus!
