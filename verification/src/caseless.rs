//! A caseless filesystem.
//!
//! A caseless filesystem wraps an inner store and treats paths as
//! case-insensitive, whatever the case rules of the inner store. A caseless
//! path that is the real path of a file always opens that file. Otherwise it
//! opens the first path of the inner store that answers it.
//!
//! Components are compared one by one. A component that is valid text is
//! compared without regard to ASCII case; one that is not is compared raw.

use crate::path::{root_view, Component, ComponentView, PathView, StorePath};
use crate::resolve::{
    expand, expand_all, lemma_expand_all_push, lemma_matching_children_push, matching_children,
    open_outcome, resolve, resolve_from, step,
};
use crate::store::{
    entries_view, item_view, listing_view, Entries, EntriesView, Store, StoreError,
};
use crate::text::{eq_bytes, eq_ignore_ascii_case, is_text};
use vstd::prelude::*;
use vstd::utf8::valid_utf8;

verus! {

/// Caseless filesystem wrapping an inner store.
///
/// It owns the store and holds nothing else: no listing is kept from one call
/// to the next.
#[derive(Debug)]
pub struct CaselessFs<S> {
    inner: S,
}

impl<S> CaselessFs<S> {
    /// The wrapped store.
    pub closed spec fn backend(&self) -> S {
        self.inner
    }
}

impl<S: Clone> Clone for CaselessFs<S> {
    /// Wraps a clone of the inner store.
    fn clone(&self) -> (copy: Self)
        ensures
            cloned(self.backend(), copy.backend()),
    {
        CaselessFs { inner: self.inner.clone() }
    }
}

impl<S: Store> CaselessFs<S> {
    /// Wraps `inner`, which the caseless filesystem owns from then on.
    pub fn new(inner: S) -> (fs: Self)
        ensures
            fs.backend() == inner,
    {
        Self { inner }
    }

    /// Moves the inner store out.
    pub fn into_inner(self) -> (inner: S)
        ensures
            inner == self.backend(),
    {
        self.inner
    }

    /// Borrows the inner store.
    pub fn get_ref(&self) -> (inner: &S)
        ensures
            *inner == self.backend(),
    {
        &self.inner
    }

    /// Borrows the inner store for changes. What the borrower leaves there is
    /// the store that is wrapped afterwards.
    pub fn get_mut(&mut self) -> (inner: &mut S)
        ensures
            *inner == old(self).backend(),
            final(self).backend() == *final(inner),
    {
        &mut self.inner
    }

    /// Finds the real paths that answer the caseless path, in the order in
    /// which the inner store lists them.
    pub fn find(&self, path: &StorePath) -> (found: Vec<StorePath>)
        ensures
            found.deep_view() == resolve(&self.backend(), path@),
    {
        let mut paths: Vec<StorePath> = Vec::new();
        paths.push(StorePath::new());
        assert(paths.deep_view() =~= seq![Seq::<ComponentView>::empty()]);
        assert(path@.skip(0) =~= path@);
        let mut i: usize = 0;
        while i < path.components.len()
            invariant
                i <= path.components.len(),
                resolve_from(&self.inner, paths.deep_view(), path@.skip(i as int)) == resolve(
                    &self.inner,
                    path@,
                ),
            decreases path.components.len() - i,
        {
            let ghost rest = path@.skip(i as int);
            assert(rest.first() == path.components[i as int]@);
            assert(rest.drop_first() =~= path@.skip(i + 1));
            paths = find_next_ascii_lowercase(&self.inner, &path.components[i], paths);
            if paths.len() == 0 {
                return paths;
            }
            i += 1;
        }
        paths
    }
}

impl<S: Store> Store for CaselessFs<S> {
    type File = S::File;

    open spec fn opened(&self, path: PathView) -> Result<S::File, StoreError> {
        open_outcome(&self.backend(), path)
    }

    open spec fn listed(&self, path: PathView) -> Result<EntriesView, StoreError> {
        self.backend().listed(path)
    }

    /// Opens the file that the caseless path names: the file at exactly that
    /// path where the inner store has one, else the first real path that
    /// answers it. There is no second try with a later match.
    fn open_path(&self, path: &StorePath) -> (outcome: Result<S::File, StoreError>)
        ensures
            self.backend().opened(path@) is Ok ==> outcome == self.backend().opened(path@),
            self.backend().opened(path@) is Err && resolve(&self.backend(), path@).len() == 0
                ==> outcome == Err::<S::File, StoreError>(StoreError::NotFound),
            self.backend().opened(path@) is Err && resolve(&self.backend(), path@).len() > 0
                ==> outcome == self.backend().opened(resolve(&self.backend(), path@).first()),
    {
        match self.inner.open_path(path) {
            Ok(file) => Ok(file),
            Err(_) => {
                let found = self.find(path);
                if found.len() == 0 {
                    Err(StoreError::NotFound)
                } else {
                    self.inner.open_path(&found[0])
                }
            },
        }
    }

    /// Lists the entries of the inner store at exactly `path`. The path is
    /// handed on as it is: no case is folded here.
    fn entries_path(&self, path: &StorePath) -> (outcome: Result<Entries, StoreError>)
        ensures
            listing_view(outcome) == self.backend().listed(path@),
    {
        self.inner.entries_path(path)
    }
}

/// Finds the next path candidates: the candidate set after `component`, given
/// the candidate set `paths` before it.
///
/// The root marker gives the root path alone, whatever `paths` holds. A named
/// segment gives, for each path of `paths` in turn, the entries of that
/// directory that answer the segment, in the order in which the store lists
/// them. A directory that cannot be listed gives nothing.
pub fn find_next_ascii_lowercase<S: Store>(
    fs: &S,
    component: &Component,
    paths: Vec<StorePath>,
) -> (next: Vec<StorePath>)
    ensures
        next.deep_view() == step(fs, component@, paths.deep_view()),
        component@ is RootDir ==> next.deep_view() == seq![root_view()],
        component@ matches ComponentView::Normal(target) ==> next.deep_view() == expand_all(
            fs,
            paths.deep_view(),
            target,
        ),
{
    let mut next: Vec<StorePath> = Vec::new();
    match component {
        Component::RootDir => {
            // nothing can go before the root
            next.push(StorePath::root());
            assert(next.deep_view() =~= seq![root_view()]);
        },
        Component::Normal(target) => {
            let ghost dirs = paths.deep_view();
            let mut i: usize = 0;
            assert(next.deep_view() =~= expand_all(fs, dirs.take(0), target@));
            while i < paths.len()
                invariant
                    i <= paths.len(),
                    dirs == paths.deep_view(),
                    next.deep_view() == expand_all(fs, dirs.take(i as int), target@),
                decreases paths.len() - i,
            {
                let path = &paths[i];
                proof {
                    assert(dirs.take(i + 1) =~= dirs.take(i as int).push(path@));
                    lemma_expand_all_push(fs, dirs.take(i as int), path@, target@);
                }
                match fs.entries_path(path) {
                    Ok(entries) => {
                        let mut children = matching_entries(path, target, &entries);
                        let ghost before = next.deep_view();
                        let ghost added = children.deep_view();
                        next.append(&mut children);
                        assert(next.deep_view() =~= before + added);
                    },
                    Err(_) => {
                        assert(expand(fs, path@, target@) =~= Seq::<PathView>::empty());
                    },
                }
                i += 1;
            }
            assert(dirs.take(i as int) =~= dirs);
        },
    }
    next
}

/// Picks from the listing of `dir` the entries that answer `target`, and
/// gives each as a path under `dir`, in listing order. An entry that could
/// not be read is passed over.
///
/// A target that is valid text is compared as text, without regard to ASCII
/// case, with the entries whose names are valid text. A target that is not is
/// compared raw.
pub fn matching_entries(dir: &StorePath, target: &Vec<u8>, entries: &Entries) -> (children: Vec<
    StorePath,
>)
    ensures
        children.deep_view() == matching_children(dir@, target@, entries_view(*entries)),
{
    let mut children: Vec<StorePath> = Vec::new();
    let as_text = is_text(target.as_slice());
    let ghost listing = entries_view(*entries);
    let mut j: usize = 0;
    assert(children.deep_view() =~= matching_children(dir@, target@, listing.take(0)));
    while j < entries.len()
        invariant
            j <= entries.len(),
            listing == entries_view(*entries),
            as_text == valid_utf8(target@),
            children.deep_view() == matching_children(dir@, target@, listing.take(j as int)),
        decreases entries.len() - j,
    {
        proof {
            assert(listing.take(j + 1) =~= listing.take(j as int).push(item_view(entries[j as int])));
            lemma_matching_children_push(
                dir@,
                target@,
                listing.take(j as int),
                item_view(entries[j as int]),
            );
        }
        match &entries[j] {
            Ok(entry) => {
                let hit = if as_text {
                    // compare as text
                    is_text(entry.name.as_slice()) && eq_ignore_ascii_case(target, &entry.name)
                } else {
                    // compare raw
                    eq_bytes(&entry.name, target)
                };
                if hit {
                    let mut child = dir.clone();
                    child.push(&entry.name);
                    let ghost shorter = children.deep_view();
                    children.push(child);
                    assert(children.deep_view() =~= shorter.push(child@));
                }
            },
            Err(_) => {},
        }
        j += 1;
    }
    assert(listing.take(j as int) =~= listing);
    children
}

} // verus!
