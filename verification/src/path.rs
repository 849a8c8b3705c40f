//! Paths as sequences of components.
//!
//! A path is compared component by component, never as one string. A named
//! component carries raw bytes, which need not be valid text.
//!
//! Paths come here normalized: relative markers and redundant separators are
//! resolved before a path is built, so that a component is either the root
//! marker or a named segment and nothing else can be written down.

use vstd::prelude::*;

verus! {

/// One component of a path.
#[derive(Debug, PartialEq, Eq)]
pub enum Component {
    /// The marker of the root directory.
    RootDir,
    /// A named segment, as raw bytes.
    Normal(Vec<u8>),
}

/// What a [`Component`] stands for in contracts.
pub enum ComponentView {
    /// The marker of the root directory.
    RootDir,
    /// A named segment, as raw bytes.
    Normal(Seq<u8>),
}

/// What a [`StorePath`] stands for in contracts: its components in order.
pub type PathView = Seq<ComponentView>;

impl View for Component {
    type V = ComponentView;

    open spec fn view(&self) -> ComponentView {
        match self {
            Component::RootDir => ComponentView::RootDir,
            Component::Normal(name) => ComponentView::Normal(name@),
        }
    }
}

impl Clone for Component {
    fn clone(&self) -> (copy: Self)
        ensures
            copy@ == self@,
    {
        match self {
            Component::RootDir => Component::RootDir,
            Component::Normal(name) => Component::Normal(name.clone()),
        }
    }
}

/// A path: an ordered sequence of components.
#[derive(Debug, PartialEq, Eq)]
pub struct StorePath {
    /// The components, first to last.
    pub components: Vec<Component>,
}

impl View for StorePath {
    type V = PathView;

    open spec fn view(&self) -> PathView {
        self.components@.map_values(|c: Component| c@)
    }
}

impl DeepView for StorePath {
    type V = PathView;

    open spec fn deep_view(&self) -> PathView {
        self@
    }
}

/// The path of the root directory.
pub open spec fn root_view() -> PathView {
    seq![ComponentView::RootDir]
}

/// `dir` with the named segment `name` added at its end.
pub open spec fn child_view(dir: PathView, name: Seq<u8>) -> PathView {
    dir.push(ComponentView::Normal(name))
}

impl StorePath {
    /// The empty path.
    pub fn new() -> (path: Self)
        ensures
            path@ == Seq::<ComponentView>::empty(),
    {
        let path = StorePath { components: Vec::new() };
        assert(path@ =~= Seq::<ComponentView>::empty());
        path
    }

    /// The path of the root directory.
    pub fn root() -> (path: Self)
        ensures
            path@ == root_view(),
    {
        let mut components: Vec<Component> = Vec::new();
        components.push(Component::RootDir);
        let path = StorePath { components };
        assert(path@ =~= root_view());
        path
    }

    /// Adds the named segment `name` at the end.
    pub fn push(&mut self, name: &Vec<u8>)
        ensures
            final(self)@ == child_view(old(self)@, name@),
    {
        self.components.push(Component::Normal(name.clone()));
        assert(self@ =~= child_view(old(self)@, name@));
    }
}

impl Clone for StorePath {
    fn clone(&self) -> (copy: Self)
        ensures
            copy@ == self@,
    {
        let mut components: Vec<Component> = Vec::new();
        let mut i: usize = 0;
        while i < self.components.len()
            invariant
                i <= self.components.len(),
                components.len() == i,
                forall|k: int| 0 <= k < i ==> components[k]@ == self.components[k]@,
            decreases self.components.len() - i,
        {
            components.push(self.components[i].clone());
            i += 1;
        }
        let copy = StorePath { components };
        assert(copy@ =~= self@);
        copy
    }
}

} // verus!
