//! What resolving a path means: the real paths of a store that answer a
//! requested path, found level by level.

use crate::path::{child_view, root_view, ComponentView, PathView};
use crate::store::{EntriesView, Store, StoreError};
use crate::text::segment_matches;
use vstd::prelude::*;

verus! {

/// The child of `dir` that one item of its listing contributes for the
/// requested segment `target`: the item's own name under `dir` where the item
/// was read and its name answers `target`, and nothing otherwise.
pub open spec fn matching_child(
    dir: PathView,
    target: Seq<u8>,
    item: Result<Seq<u8>, StoreError>,
) -> Option<PathView> {
    match item {
        Ok(name) => if segment_matches(target, name) {
            Some(child_view(dir, name))
        } else {
            None
        },
        Err(_) => None,
    }
}

/// The children of `dir` that `listing` contributes for `target`, in listing
/// order.
pub open spec fn matching_children(dir: PathView, target: Seq<u8>, listing: EntriesView) -> Seq<
    PathView,
> {
    listing.filter_map(|item: Result<Seq<u8>, StoreError>| matching_child(dir, target, item))
}

/// The candidates that `dir` contributes for `target`. A directory that cannot
/// be listed contributes none.
pub open spec fn expand<S: Store>(store: &S, dir: PathView, target: Seq<u8>) -> Seq<PathView> {
    match store.listed(dir) {
        Ok(listing) => matching_children(dir, target, listing),
        Err(_) => Seq::empty(),
    }
}

/// The candidates that all of `dirs` contribute for `target`: those of the
/// first directory in its listing order, then those of the second, and so on.
pub open spec fn expand_all<S: Store>(store: &S, dirs: Seq<PathView>, target: Seq<u8>) -> Seq<
    PathView,
> {
    dirs.flat_map(|dir: PathView| expand(store, dir, target))
}

/// The candidate set after one more component. The root marker replaces
/// whatever was there by the root path alone.
pub open spec fn step<S: Store>(store: &S, component: ComponentView, dirs: Seq<PathView>) -> Seq<
    PathView,
> {
    match component {
        ComponentView::RootDir => seq![root_view()],
        ComponentView::Normal(target) => expand_all(store, dirs, target),
    }
}

/// The candidate set after the components of `path`, starting from `dirs`.
/// Once a component leaves no candidate, the rest of `path` is not looked at.
pub open spec fn resolve_from<S: Store>(store: &S, dirs: Seq<PathView>, path: PathView) -> Seq<
    PathView,
>
    decreases path.len(),
{
    if path.len() == 0 {
        dirs
    } else {
        let next = step(store, path.first(), dirs);
        if next.len() == 0 {
            next
        } else {
            resolve_from(store, next, path.drop_first())
        }
    }
}

/// The real paths of `store` that answer `path`, starting from the empty path.
pub open spec fn resolve<S: Store>(store: &S, path: PathView) -> Seq<PathView> {
    resolve_from(store, seq![Seq::empty()], path)
}

/// The outcome of opening `path` without regard to case: the exact path where
/// the store opens it; otherwise the first real path that answers it, whatever
/// opening that one gives; and `NotFound` where none answers.
pub open spec fn open_outcome<S: Store>(store: &S, path: PathView) -> Result<S::File, StoreError> {
    match store.opened(path) {
        Ok(file) => Ok(file),
        Err(_) => {
            let found = resolve(store, path);
            if found.len() == 0 {
                Err(StoreError::NotFound)
            } else {
                store.opened(found.first())
            }
        },
    }
}

/// One more item at the end of a listing adds the child it contributes, if
/// any, at the end.
pub proof fn lemma_matching_children_push(
    dir: PathView,
    target: Seq<u8>,
    listing: EntriesView,
    item: Result<Seq<u8>, StoreError>,
)
    ensures
        matching_children(dir, target, listing.push(item)) == match matching_child(
            dir,
            target,
            item,
        ) {
            Some(child) => matching_children(dir, target, listing).push(child),
            None => matching_children(dir, target, listing),
        },
{
    let longer = listing.push(item);
    assert(longer.drop_last() =~= listing);
    assert(longer.last() == item);
    let f = |item: Result<Seq<u8>, StoreError>| matching_child(dir, target, item);
    match matching_child(dir, target, item) {
        Some(child) => {
            assert(longer.filter_map(f) == listing.filter_map(f) + seq![child]);
            assert(listing.filter_map(f) + seq![child] =~= listing.filter_map(f).push(child));
        },
        None => {
            assert(longer.filter_map(f) == listing.filter_map(f));
        },
    }
}

/// One more directory at the end adds what it contributes at the end.
pub proof fn lemma_expand_all_push<S: Store>(
    store: &S,
    dirs: Seq<PathView>,
    dir: PathView,
    target: Seq<u8>,
)
    ensures
        expand_all(store, dirs.push(dir), target) == expand_all(store, dirs, target) + expand(
            store,
            dir,
            target,
        ),
{
    let f = |dir: PathView| expand(store, dir, target);
    assert(dirs.push(dir).map_values(f) =~= dirs.map_values(f).push(f(dir)));
    dirs.map_values(f).lemma_flatten_push(f(dir));
}

} // verus!
