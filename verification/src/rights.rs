//! Permission expressions: trees of named permissions joined by
//! all-of, any-of and not-all-of.

use vstd::prelude::*;

verus! {

/// A permission expression as a mathematical value: the view of [`Rights`].
pub enum Formula {
    /// Holds when every child holds; the empty conjunction holds.
    All(Seq<Formula>),
    /// Holds when some child holds; the empty disjunction does not.
    Any(Seq<Formula>),
    /// Holds when not every child holds.
    NoneOf(Seq<Formula>),
    /// Holds when the actor has the permission of this exact name.
    Permission(Seq<char>),
    /// Never holds.
    Never,
}

/// A permission expression. Once built it is only read.
pub enum Rights {
    All(Vec<Rights>),
    Any(Vec<Rights>),
    NoneOf(Vec<Rights>),
    Permission(String),
    Never,
}

impl View for Rights {
    type V = Formula;

    open spec fn view(&self) -> Formula
        decreases self,
    {
        match self {
            Rights::All(children) => Formula::All(Rights::views(children@)),
            Rights::Any(children) => Formula::Any(Rights::views(children@)),
            Rights::NoneOf(children) => Formula::NoneOf(Rights::views(children@)),
            Rights::Permission(name) => Formula::Permission(name@),
            Rights::Never => Formula::Never,
        }
    }
}

impl Rights {
    /// The views of a sequence of expressions, in order.
    pub open spec fn views(children: Seq<Rights>) -> Seq<Formula>
        decreases children,
    {
        Seq::new(
            children.len(),
            |i: int|
                if 0 <= i < children.len() {
                    children[i].view()
                } else {
                    Formula::Never
                },
        )
    }

    /// Copies a slice of expressions into a vector, in order.
    fn copy_of(data: &[Rights]) -> (copies: Vec<Rights>)
        ensures
            Rights::views(copies@) == Rights::views(data@),
    {
        let mut copies: Vec<Rights> = Vec::new();
        let mut i: usize = 0;
        while i < data.len()
            invariant
                i <= data.len(),
                copies.len() == i,
                forall|j: int| 0 <= j < i ==> copies@[j]@ == data@[j]@,
            decreases data.len() - i,
        {
            copies.push(data[i].clone());
            i += 1;
        }
        assert(Rights::views(copies@) =~= Rights::views(data@));
        copies
    }

    /// The conjunction of copies of `data`, in the order given.
    pub fn all(data: &[Rights]) -> (rights: Rights)
        ensures
            rights@ == Formula::All(Rights::views(data@)),
    {
        Rights::All(Rights::copy_of(data))
    }

    /// The disjunction of copies of `data`, in the order given.
    pub fn any(data: &[Rights]) -> (rights: Rights)
        ensures
            rights@ == Formula::Any(Rights::views(data@)),
    {
        Rights::Any(Rights::copy_of(data))
    }

    /// The negated conjunction of copies of `data`, in the order given.
    pub fn none(data: &[Rights]) -> (rights: Rights)
        ensures
            rights@ == Formula::NoneOf(Rights::views(data@)),
    {
        Rights::NoneOf(Rights::copy_of(data))
    }

    /// Copies the children of one node.
    fn copy_children(children: &Vec<Rights>) -> (copies: Vec<Rights>)
        ensures
            Rights::views(copies@) == Rights::views(children@),
        decreases children,
    {
        let mut copies: Vec<Rights> = Vec::new();
        let mut i: usize = 0;
        while i < children.len()
            invariant
                i <= children.len(),
                copies.len() == i,
                forall|j: int| 0 <= j < i ==> copies@[j]@ == children@[j]@,
            decreases children.len() - i,
        {
            copies.push(children[i].clone());
            i += 1;
        }
        assert(Rights::views(copies@) =~= Rights::views(children@));
        copies
    }
}

impl Clone for Rights {
    /// A copy with the same view.
    fn clone(&self) -> (copy: Self)
        ensures
            copy@ == self@,
        decreases self,
    {
        match self {
            Rights::All(children) => Rights::All(Rights::copy_children(children)),
            Rights::Any(children) => Rights::Any(Rights::copy_children(children)),
            Rights::NoneOf(children) => Rights::NoneOf(Rights::copy_children(children)),
            Rights::Permission(name) => Rights::Permission(name.clone()),
            Rights::Never => Rights::Never,
        }
    }
}

} // verus!
