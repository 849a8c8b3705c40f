//! What holds of resolution for every store and every path.

use crate::path::{child_view, root_view, ComponentView, PathView};
use crate::resolve::{
    expand, expand_all, matching_child, matching_children, open_outcome, resolve, resolve_from,
    step,
};
use crate::store::{EntriesView, Store, StoreError};
use crate::text::segment_matches;
use vstd::prelude::*;
use vstd::utf8::valid_utf8;

verus! {

/// Whether the component `actual` of a real path answers the component `asked`
/// of a requested path: the root marker answers the root marker, and a named
/// segment answers a named segment under [`segment_matches`].
pub open spec fn component_answers(asked: ComponentView, actual: ComponentView) -> bool {
    match asked {
        ComponentView::RootDir => actual is RootDir,
        ComponentView::Normal(target) => match actual {
            ComponentView::RootDir => false,
            ComponentView::Normal(name) => segment_matches(target, name),
        },
    }
}

/// Whether the real path `actual` answers the requested path `path`, component
/// by component.
pub open spec fn answers(path: PathView, actual: PathView) -> bool {
    &&& actual.len() == path.len()
    &&& forall|i: int| 0 <= i < path.len() ==> component_answers(path[i], #[trigger] actual[i])
}

/// Whether `path` has the root marker in the first place at most.
pub open spec fn root_only_first(path: PathView) -> bool {
    forall|i: int| 0 < i < path.len() ==> #[trigger] path[i] is Normal
}

/// A segment that is not valid text is answered by the byte-identical name
/// and by no other; a name that differs from it in the case of an ASCII
/// letter does not answer it.
pub proof fn lemma_invalid_text_is_answered_by_itself_only(target: Seq<u8>, name: Seq<u8>)
    requires
        !valid_utf8(target),
    ensures
        segment_matches(target, name) <==> name == target,
{
}

/// The root marker leaves the root path as the only candidate, whatever the
/// candidates before it were.
pub proof fn lemma_root_marker_resets<S: Store>(store: &S, dirs: Seq<PathView>)
    ensures
        step(store, ComponentView::RootDir, dirs) == seq![root_view()],
        step(store, ComponentView::RootDir, dirs).len() == 1,
{
}

/// Once a component has left no candidate, what follows it is not looked at:
/// the result is empty whatever the later components are.
pub proof fn lemma_resolve_from_stops_when_empty<S: Store>(
    store: &S,
    dirs: Seq<PathView>,
    head: PathView,
    tail: PathView,
)
    requires
        head.len() > 0,
        resolve_from(store, dirs, head).len() == 0,
    ensures
        resolve_from(store, dirs, head + tail).len() == 0,
    decreases head.len(),
{
    let whole = head + tail;
    assert(whole.first() == head.first());
    assert(whole.drop_first() =~= head.drop_first() + tail);
    let next = step(store, head.first(), dirs);
    if next.len() != 0 {
        lemma_resolve_from_stops_when_empty(store, next, head.drop_first(), tail);
    }
}

/// As long as candidates are left, resolving a path is resolving its first
/// part and then, from what that gave, the rest.
pub proof fn lemma_resolve_from_continues<S: Store>(
    store: &S,
    dirs: Seq<PathView>,
    head: PathView,
    tail: PathView,
)
    requires
        resolve_from(store, dirs, head).len() > 0,
    ensures
        resolve_from(store, dirs, head + tail) == resolve_from(
            store,
            resolve_from(store, dirs, head),
            tail,
        ),
    decreases head.len(),
{
    let whole = head + tail;
    if head.len() == 0 {
        assert(whole =~= tail);
    } else {
        assert(whole.first() == head.first());
        assert(whole.drop_first() =~= head.drop_first() + tail);
        let next = step(store, head.first(), dirs);
        lemma_resolve_from_continues(store, next, head.drop_first(), tail);
    }
}

/// A root marker in the middle of a path drops what came before it: as long
/// as the components before it left a candidate, the path resolves as if it
/// began at that root marker.
pub proof fn lemma_root_marker_drops_what_came_before<S: Store>(
    store: &S,
    before: PathView,
    after: PathView,
)
    requires
        resolve(store, before).len() > 0,
    ensures
        resolve(store, before.push(ComponentView::RootDir) + after) == resolve(
            store,
            seq![ComponentView::RootDir] + after,
        ),
{
    let start: Seq<PathView> = seq![Seq::empty()];
    let rooted = seq![ComponentView::RootDir] + after;
    assert(before.push(ComponentView::RootDir) + after =~= before + rooted);
    lemma_resolve_from_continues(store, start, before, rooted);
    assert(rooted.first() == ComponentView::RootDir);
}

/// Resolution stops at the first component that leaves no candidate: where
/// the first `k` components of `path` resolve to nothing, so does `path`,
/// even where a later component is the root marker.
pub proof fn lemma_resolve_stops_when_empty<S: Store>(store: &S, path: PathView, k: int)
    requires
        0 <= k <= path.len(),
        resolve(store, path.take(k)).len() == 0,
    ensures
        resolve(store, path).len() == 0,
{
    assert(path.take(k) + path.skip(k) =~= path);
    lemma_resolve_from_stops_when_empty(
        store,
        seq![Seq::empty()],
        path.take(k),
        path.skip(k),
    );
}

/// Whether the store lists `name`, read without failure, in `dir`.
pub open spec fn has_entry<S: Store>(store: &S, dir: PathView, name: Seq<u8>) -> bool {
    store.listed(dir) matches Ok(listing) && listing.contains(Ok(name))
}

/// Whether the store's listings show `actual`: each of its named segments is
/// an entry of the directory that the components before it name.
pub open spec fn is_listed<S: Store>(store: &S, actual: PathView) -> bool {
    forall|i: int|
        0 <= i < actual.len() ==> (#[trigger] actual[i] matches ComponentView::Normal(name)
            ==> has_entry(store, actual.take(i), name))
}

/// Every child that a directory contributes is that directory with the name
/// of one of its entries, and the name answers the target.
proof fn lemma_child_comes_from_an_entry<S: Store>(
    store: &S,
    dir: PathView,
    target: Seq<u8>,
    child: PathView,
)
    requires
        expand(store, dir, target).contains(child),
    ensures
        exists|name: Seq<u8>|
            child == child_view(dir, name) && segment_matches(target, name) && has_entry(
                store,
                dir,
                name,
            ),
{
    let listing = store.listed(dir)->Ok_0;
    let f = |item: Result<Seq<u8>, StoreError>| matching_child(dir, target, item);
    listing.lemma_filter_map_contains(f, child);
    let item = choose|item: Result<Seq<u8>, StoreError>| #[trigger]
        listing.contains(item) && f(item) == Some(child);
    let name = item->Ok_0;
    assert(child == child_view(dir, name) && segment_matches(target, name) && has_entry(
        store,
        dir,
        name,
    ));
}

/// Every candidate after a named segment is contributed by one of the
/// candidates before it.
proof fn lemma_candidate_comes_from_a_dir<S: Store>(
    store: &S,
    dirs: Seq<PathView>,
    target: Seq<u8>,
    child: PathView,
)
    requires
        expand_all(store, dirs, target).contains(child),
    ensures
        exists|dir: PathView| #[trigger]
            dirs.contains(dir) && expand(store, dir, target).contains(child),
    decreases dirs.len(),
{
    if dirs.len() > 0 {
        let shorter = dirs.drop_last();
        assert(shorter.push(dirs.last()) =~= dirs);
        crate::resolve::lemma_expand_all_push(store, shorter, dirs.last(), target);
        let before = expand_all(store, shorter, target);
        let last = expand(store, dirs.last(), target);
        let i = choose|i: int| 0 <= i < (before + last).len() && (before + last)[i] == child;
        if i < before.len() {
            assert(before[i] == child);
            lemma_candidate_comes_from_a_dir(store, shorter, target, child);
            let dir = choose|dir: PathView| #[trigger]
                shorter.contains(dir) && expand(store, dir, target).contains(child);
            let at = choose|at: int| 0 <= at < shorter.len() && shorter[at] == dir;
            assert(dirs[at] == dir);
            assert(dirs.contains(dir) && expand(store, dir, target).contains(child));
        } else {
            assert(last[i - before.len()] == child);
            assert(dirs[dirs.len() - 1] == dirs.last());
            assert(dirs.contains(dirs.last()) && last.contains(child));
        }
    } else {
        let f = |dir: PathView| expand(store, dir, target);
        assert(dirs.map_values(f).flatten().len() == 0);
    }
}

/// A child of a listed directory that answers one more segment is listed and
/// answers the longer path.
proof fn lemma_child_is_sound<S: Store>(
    store: &S,
    asked: PathView,
    target: Seq<u8>,
    dir: PathView,
    name: Seq<u8>,
)
    requires
        answers(asked, dir),
        is_listed(store, dir),
        segment_matches(target, name),
        has_entry(store, dir, name),
    ensures
        answers(asked.push(ComponentView::Normal(target)), child_view(dir, name)),
        is_listed(store, child_view(dir, name)),
{
    let child = child_view(dir, name);
    let longer = asked.push(ComponentView::Normal(target));
    assert forall|i: int| 0 <= i < longer.len() implies component_answers(
        longer[i],
        #[trigger] child[i],
    ) by {
        if i < asked.len() {
            assert(child[i] == dir[i]);
        }
    }
    assert forall|i: int| 0 <= i < child.len() implies (#[trigger] child[i] matches ComponentView::Normal(
        n,
    ) ==> has_entry(store, child.take(i), n)) by {
        if i < dir.len() {
            assert(child[i] == dir[i]);
            assert(child.take(i) =~= dir.take(i));
        } else {
            assert(child.take(i) =~= dir);
        }
    }
}

/// Where every candidate answers the first `k` components and is listed,
/// every path that resolving the rest gives answers the whole path and is
/// listed.
proof fn lemma_candidates_stay_sound<S: Store>(
    store: &S,
    path: PathView,
    k: int,
    dirs: Seq<PathView>,
)
    requires
        root_only_first(path),
        0 <= k <= path.len(),
        forall|dir: PathView| #[trigger]
            dirs.contains(dir) ==> answers(path.take(k), dir) && is_listed(store, dir),
    ensures
        forall|found: PathView| #[trigger]
            resolve_from(store, dirs, path.skip(k)).contains(found) ==> answers(path, found)
                && is_listed(store, found),
    decreases path.len() - k,
{
    let rest = path.skip(k);
    if k == path.len() {
        assert(path.take(k) =~= path);
    } else {
        assert(rest.first() == path[k]);
        assert(rest.drop_first() =~= path.skip(k + 1));
        assert(path.take(k + 1) =~= path.take(k).push(path[k]));
        let next = step(store, path[k], dirs);
        assert forall|child: PathView| #[trigger] next.contains(child) implies answers(
            path.take(k + 1),
            child,
        ) && is_listed(store, child) by {
            match path[k] {
                ComponentView::RootDir => {
                    assert(k == 0);
                    assert(child == root_view());
                },
                ComponentView::Normal(target) => {
                    lemma_candidate_comes_from_a_dir(store, dirs, target, child);
                    let dir = choose|dir: PathView| #[trigger]
                        dirs.contains(dir) && expand(store, dir, target).contains(child);
                    lemma_child_comes_from_an_entry(store, dir, target, child);
                    let name = choose|name: Seq<u8>|
                        child == child_view(dir, name) && segment_matches(target, name)
                            && has_entry(store, dir, name);
                    lemma_child_is_sound(store, path.take(k), target, dir, name);
                },
            }
        }
        if next.len() != 0 {
            lemma_candidates_stay_sound(store, path, k + 1, next);
            assert(resolve_from(store, dirs, rest) == resolve_from(store, next, path.skip(k + 1)));
        } else {
            assert(resolve_from(store, dirs, rest) == next);
        }
    }
}

/// An entry that answers contributes its child.
proof fn lemma_entry_gives_a_child(dir: PathView, target: Seq<u8>, listing: EntriesView, k: int)
    requires
        0 <= k < listing.len(),
        listing[k] matches Ok(name) && segment_matches(target, name),
    ensures
        matching_children(dir, target, listing).contains(child_view(dir, listing[k]->Ok_0)),
    decreases listing.len(),
{
    let shorter = listing.drop_last();
    let child = child_view(dir, listing[k]->Ok_0);
    assert(shorter.push(listing.last()) =~= listing);
    crate::resolve::lemma_matching_children_push(dir, target, shorter, listing.last());
    let before = matching_children(dir, target, shorter);
    if k == listing.len() - 1 {
        assert(before.push(child).last() == child);
    } else {
        assert(shorter[k] == listing[k]);
        lemma_entry_gives_a_child(dir, target, shorter, k);
        let at = choose|at: int| 0 <= at < before.len() && before[at] == child;
        assert(matching_children(dir, target, listing)[at] == child);
    }
}

/// What one of the candidates contributes is among what all contribute.
proof fn lemma_dir_gives_its_children<S: Store>(
    store: &S,
    dirs: Seq<PathView>,
    target: Seq<u8>,
    dir: PathView,
    child: PathView,
)
    requires
        dirs.contains(dir),
        expand(store, dir, target).contains(child),
    ensures
        expand_all(store, dirs, target).contains(child),
    decreases dirs.len(),
{
    let shorter = dirs.drop_last();
    assert(shorter.push(dirs.last()) =~= dirs);
    crate::resolve::lemma_expand_all_push(store, shorter, dirs.last(), target);
    let before = expand_all(store, shorter, target);
    let last = expand(store, dirs.last(), target);
    if dirs.last() == dir {
        let at = choose|at: int| 0 <= at < last.len() && last[at] == child;
        assert((before + last)[before.len() + at] == child);
    } else {
        let at = choose|at: int| 0 <= at < dirs.len() && dirs[at] == dir;
        assert(shorter[at] == dir);
        lemma_dir_gives_its_children(store, shorter, target, dir, child);
        let at = choose|at: int| 0 <= at < before.len() && before[at] == child;
        assert((before + last)[at] == child);
    }
}

/// Where the first `k` components of a listed answer are among the
/// candidates, the answer is among what resolving the rest gives.
proof fn lemma_answer_stays_a_candidate<S: Store>(
    store: &S,
    path: PathView,
    actual: PathView,
    k: int,
    dirs: Seq<PathView>,
)
    requires
        root_only_first(path),
        answers(path, actual),
        is_listed(store, actual),
        0 <= k <= path.len(),
        dirs.contains(actual.take(k)),
    ensures
        resolve_from(store, dirs, path.skip(k)).contains(actual),
    decreases path.len() - k,
{
    let rest = path.skip(k);
    if k == path.len() {
        assert(actual.take(k) =~= actual);
    } else {
        assert(rest.first() == path[k]);
        assert(rest.drop_first() =~= path.skip(k + 1));
        let next = step(store, path[k], dirs);
        assert(component_answers(path[k], actual[k]));
        match path[k] {
            ComponentView::RootDir => {
                assert(k == 0);
                assert(actual.take(1) =~= root_view());
                assert(next[0] == actual.take(k + 1));
            },
            ComponentView::Normal(target) => {
                let name = actual[k]->Normal_0;
                let dir = actual.take(k);
                assert(has_entry(store, dir, name));
                let listing = store.listed(dir)->Ok_0;
                let at = choose|at: int|
                    0 <= at < listing.len() && listing[at] == Ok::<Seq<u8>, StoreError>(name);
                lemma_entry_gives_a_child(dir, target, listing, at);
                assert(child_view(dir, name) =~= actual.take(k + 1));
                lemma_dir_gives_its_children(store, dirs, target, dir, actual.take(k + 1));
            },
        }
        assert(next.contains(actual.take(k + 1)));
        lemma_answer_stays_a_candidate(store, path, actual, k + 1, next);
    }
}

/// Resolution gives exactly the paths of the store that answer the request:
/// a path is among the results if and only if it answers the requested path
/// component by component and the store's listings show each of its named
/// segments. This is stated for a requested path with the root marker in the
/// first place at most.
pub proof fn lemma_resolve_gives_exactly_the_listed_answers<S: Store>(store: &S, path: PathView)
    requires
        root_only_first(path),
    ensures
        forall|found: PathView| #[trigger]
            resolve(store, path).contains(found) <==> answers(path, found) && is_listed(
                store,
                found,
            ),
{
    let start: Seq<PathView> = seq![Seq::empty()];
    assert(path.skip(0) =~= path);
    assert forall|dir: PathView| #[trigger] start.contains(dir) implies answers(path.take(0), dir)
        && is_listed(store, dir) by {
        assert(dir == start[0]);
    }
    lemma_candidates_stay_sound(store, path, 0, start);
    assert forall|found: PathView| answers(path, found) && is_listed(store, found) implies #[trigger]
    resolve(store, path).contains(found) by {
        assert(found.take(0) =~= start[0]);
        lemma_answer_stays_a_candidate(store, path, found, 0, start);
    }
}

/// A segment that is not valid text comes back byte for byte: every path
/// that resolution gives holds, in the place of such a segment, exactly the
/// requested bytes. This is stated for a requested path with the root marker
/// in the first place at most.
pub proof fn lemma_invalid_text_segment_is_found_unchanged<S: Store>(
    store: &S,
    path: PathView,
    found: PathView,
    i: int,
)
    requires
        root_only_first(path),
        resolve(store, path).contains(found),
        0 <= i < path.len(),
        path[i] matches ComponentView::Normal(target) && !valid_utf8(target),
    ensures
        found.len() == path.len(),
        found[i] == path[i],
{
    lemma_resolve_gives_exactly_the_listed_answers(store, path);
    assert(component_answers(path[i], found[i]));
}

/// Whether item `k` of `listing` is the first that answers `target`: it was
/// read, its name answers, and no item listed before it does.
pub open spec fn is_first_hit(target: Seq<u8>, listing: EntriesView, k: int) -> bool {
    &&& 0 <= k < listing.len()
    &&& listing[k] matches Ok(name) && segment_matches(target, name)
    &&& forall|j: int|
        0 <= j < k ==> !(#[trigger] listing[j] matches Ok(earlier) && segment_matches(
            target,
            earlier,
        ))
}

/// Whether the store lists `name` in `dir`, and lists no other entry that
/// answers `target` before it.
pub open spec fn lists_first<S: Store>(
    store: &S,
    dir: PathView,
    target: Seq<u8>,
    name: Seq<u8>,
) -> bool {
    store.listed(dir) matches Ok(listing) && exists|k: int|
        is_first_hit(target, listing, k) && #[trigger] listing[k] == Ok::<Seq<u8>, StoreError>(
            name,
        )
}

/// Whether `actual` is a path of the store that answers `path` and that has,
/// at every level, no sibling listed before it that answers too.
pub open spec fn is_first_answer<S: Store>(store: &S, path: PathView, actual: PathView) -> bool {
    &&& answers(path, actual)
    &&& root_only_first(actual)
    &&& forall|i: int|
        0 <= i < actual.len() ==> (#[trigger] actual[i] matches ComponentView::Normal(name)
            ==> path[i] matches ComponentView::Normal(target) && lists_first(
            store,
            actual.take(i),
            target,
            name,
        ))
}

/// The first item of a listing that answers gives the first child.
proof fn lemma_first_hit_gives_first_child(
    dir: PathView,
    target: Seq<u8>,
    listing: EntriesView,
    k: int,
)
    requires
        is_first_hit(target, listing, k),
    ensures
        matching_children(dir, target, listing).len() > 0,
        matching_children(dir, target, listing).first() == child_view(dir, listing[k]->Ok_0),
    decreases listing.len(),
{
    let shorter = listing.drop_last();
    assert(shorter.push(listing.last()) =~= listing);
    crate::resolve::lemma_matching_children_push(dir, target, shorter, listing.last());
    if k == listing.len() - 1 {
        lemma_no_hit_gives_no_child(dir, target, shorter);
    } else {
        assert(is_first_hit(target, shorter, k)) by {
            assert(shorter[k] == listing[k]);
            assert forall|j: int| 0 <= j < k implies !(#[trigger] shorter[j] matches Ok(earlier)
                && segment_matches(target, earlier)) by {
                assert(shorter[j] == listing[j]);
            }
        }
        lemma_first_hit_gives_first_child(dir, target, shorter, k);
    }
}

/// A listing in which no item answers gives no child.
proof fn lemma_no_hit_gives_no_child(dir: PathView, target: Seq<u8>, listing: EntriesView)
    requires
        forall|j: int|
            0 <= j < listing.len() ==> !(#[trigger] listing[j] matches Ok(name)
                && segment_matches(target, name)),
    ensures
        matching_children(dir, target, listing).len() == 0,
    decreases listing.len(),
{
    if listing.len() > 0 {
        let shorter = listing.drop_last();
        assert(shorter.push(listing.last()) =~= listing);
        crate::resolve::lemma_matching_children_push(dir, target, shorter, listing.last());
        assert forall|j: int| 0 <= j < shorter.len() implies !(#[trigger] shorter[j] matches Ok(
            name,
        ) && segment_matches(target, name)) by {
            assert(shorter[j] == listing[j]);
        }
        lemma_no_hit_gives_no_child(dir, target, shorter);
        assert(listing.last() == listing[listing.len() - 1]);
    } else {
        assert(matching_children(dir, target, listing).len() == 0);
    }
}

/// What the first directory contributes comes first.
proof fn lemma_first_dir_comes_first<S: Store>(store: &S, dirs: Seq<PathView>, target: Seq<u8>)
    requires
        dirs.len() > 0,
        expand(store, dirs.first(), target).len() > 0,
    ensures
        expand_all(store, dirs, target).len() > 0,
        expand_all(store, dirs, target).first() == expand(store, dirs.first(), target).first(),
{
    let f = |dir: PathView| expand(store, dir, target);
    let parts = dirs.map_values(f);
    assert(parts.first() == f(dirs.first()));
    assert(parts.flatten() == parts.first() + parts.drop_first().flatten());
}

/// Where the candidates begin with the first `k` components of a first
/// answer, resolving the rest of the path gives that answer first.
proof fn lemma_first_answer_stays_first<S: Store>(
    store: &S,
    path: PathView,
    actual: PathView,
    k: int,
    dirs: Seq<PathView>,
)
    requires
        is_first_answer(store, path, actual),
        0 <= k <= path.len(),
        dirs.len() > 0,
        dirs.first() == actual.take(k),
    ensures
        resolve_from(store, dirs, path.skip(k)).len() > 0,
        resolve_from(store, dirs, path.skip(k)).first() == actual,
    decreases path.len() - k,
{
    let rest = path.skip(k);
    if k == path.len() {
        assert(actual.take(k) =~= actual);
    } else {
        assert(rest.first() == path[k]);
        assert(rest.drop_first() =~= path.skip(k + 1));
        let next = step(store, path[k], dirs);
        assert(component_answers(path[k], actual[k]));
        match path[k] {
            ComponentView::RootDir => {
                assert(k == 0);
                assert(actual.take(1) =~= root_view());
            },
            ComponentView::Normal(target) => {
                let name = actual[k]->Normal_0;
                let dir = actual.take(k);
                assert(lists_first(store, dir, target, name));
                let listing = store.listed(dir)->Ok_0;
                let hit = choose|hit: int|
                    is_first_hit(target, listing, hit) && #[trigger] listing[hit] == Ok::<
                        Seq<u8>,
                        StoreError,
                    >(name);
                lemma_first_hit_gives_first_child(dir, target, listing, hit);
                lemma_first_dir_comes_first(store, dirs, target);
                assert(child_view(dir, name) =~= actual.take(k + 1));
            },
        }
        lemma_first_answer_stays_first(store, path, actual, k + 1, next);
    }
}

/// A path that differs from a real path of the store only in the case of
/// ASCII letters, in segments that are valid text, resolves to that real
/// path first, and opens what the real path opens, provided that at no level
/// a sibling listed earlier answers too and that the store has nothing at
/// exactly the requested path.
pub proof fn lemma_case_variant_opens_real_path<S: Store>(
    store: &S,
    path: PathView,
    actual: PathView,
)
    requires
        is_first_answer(store, path, actual),
    ensures
        resolve(store, path).len() > 0,
        resolve(store, path).first() == actual,
        store.opened(path) is Err ==> open_outcome(store, path) == store.opened(actual),
{
    assert(actual.take(0) =~= Seq::<ComponentView>::empty());
    assert(path.skip(0) =~= path);
    lemma_first_answer_stays_first(store, path, actual, 0, seq![Seq::empty()]);
}

} // verus!
