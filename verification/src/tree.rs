//! What a walk finds in a directory tree.
//!
//! A tree is taken as the listing it gives for each directory. Nothing is
//! asked of it: it may be infinitely deep or lead back into itself, since a
//! walk looks no deeper than its bound.

use crate::locator::{is_manifest, manifest_at, manifest_name, manifests_in, subdir_at, subdirs_in,
    ConfigView, EntryView};
use crate::path::PathView;
use vstd::prelude::*;

verus! {

/// A directory tree: for each directory, its listing.
pub type Tree = spec_fn(PathView) -> Seq<EntryView>;

/// The manifests that lie in `dir` or below it, no more than `levels` levels
/// down: those of `dir` itself first, then what lies under each directory that
/// a walk enters from there, in the order of the listing.
pub open spec fn walk(tree: Tree, config: ConfigView, dir: PathView, levels: nat) -> Seq<PathView>
    decreases levels, 0nat, 0nat,
{
    if levels == 0 {
        Seq::empty()
    } else {
        manifests_in(dir, tree(dir)) + walk_each(
            tree,
            config,
            subdirs_in(config, dir, tree(dir)),
            (levels - 1) as nat,
        )
    }
}

/// The manifests under each of `dirs` in turn, `levels` levels down.
pub open spec fn walk_each(tree: Tree, config: ConfigView, dirs: Seq<PathView>, levels: nat) -> Seq<
    PathView,
>
    decreases levels, 1nat, dirs.len(),
{
    if dirs.len() == 0 {
        Seq::empty()
    } else {
        walk(tree, config, dirs.first(), levels) + walk_each(
            tree,
            config,
            dirs.drop_first(),
            levels,
        )
    }
}

/// The manifests of a tree: the walk from its root down to the depth bound.
pub open spec fn located(tree: Tree, config: ConfigView) -> Seq<PathView> {
    walk(tree, config, Seq::empty(), config.max_depth)
}

/// Each directory that a walk enters from a listing of `dir` is an entry of
/// `dir` whose name is not excluded.
pub proof fn lemma_subdirs_are_children(config: ConfigView, dir: PathView, entries: Seq<EntryView>)
    ensures
        forall|k: int|
            0 <= k < subdirs_in(config, dir, entries).len() ==> {
                let sub = #[trigger] subdirs_in(config, dir, entries)[k];
                sub.len() == dir.len() + 1 && sub.drop_last() == dir && !config.excludes(sub.last())
            },
    decreases entries.len(),
{
    if entries.len() > 0 {
        lemma_subdirs_are_children(config, dir, entries.drop_last());
        let e = entries.last();
        let before = subdirs_in(config, dir, entries.drop_last());
        if config.enters(e) {
            assert(subdirs_in(config, dir, entries) == before + seq![dir.push(e.name)]);
            assert(dir.push(e.name).drop_last() =~= dir);
        } else {
            assert(subdirs_in(config, dir, entries) == before);
        }
    }
}

/// Each manifest of a listing of `dir` is an entry of `dir` that bears the
/// manifest's name.
pub proof fn lemma_manifests_are_children(dir: PathView, entries: Seq<EntryView>)
    ensures
        forall|k: int|
            0 <= k < manifests_in(dir, entries).len() ==> {
                let file = #[trigger] manifests_in(dir, entries)[k];
                file.len() == dir.len() + 1 && file.drop_last() == dir && file.last()
                    == manifest_name()
            },
    decreases entries.len(),
{
    if entries.len() > 0 {
        lemma_manifests_are_children(dir, entries.drop_last());
        let e = entries.last();
        let before = manifests_in(dir, entries.drop_last());
        if is_manifest(e) {
            assert(manifests_in(dir, entries) == before + seq![dir.push(e.name)]);
            assert(dir.push(e.name).drop_last() =~= dir);
        } else {
            assert(manifests_in(dir, entries) == before);
        }
    }
}

/// An entry with a name that is not excluded, in a directory that is clear of
/// excluded names, is clear of them too.
pub proof fn lemma_child_is_clear(config: ConfigView, dir: PathView, child: PathView)
    requires
        config.clear(dir),
        child.len() == dir.len() + 1,
        child.drop_last() == dir,
        !config.excludes(child.last()),
    ensures
        config.clear(child),
{
    assert forall|k: int| 0 <= k < child.len() implies !config.excludes(#[trigger] child[k]) by {
        if k < dir.len() {
            assert(child[k] == child.drop_last()[k]);
        }
    }
}

/// Every manifest of a walk from `dir` lies below no excluded directory and
/// no deeper than the levels allow, given that `dir` itself lies below none.
pub proof fn lemma_walk_within_bounds(tree: Tree, config: ConfigView, dir: PathView, levels: nat)
    requires
        config.clear(dir),
        dir.len() + levels <= config.max_depth,
    ensures
        forall|i: int|
            0 <= i < walk(tree, config, dir, levels).len() ==> config.may_report(
                #[trigger] walk(tree, config, dir, levels)[i],
            ),
    decreases levels, 0nat, 0nat,
{
    if levels > 0 {
        let entries = tree(dir);
        let files = manifests_in(dir, entries);
        let subs = subdirs_in(config, dir, entries);
        let below = (levels - 1) as nat;
        lemma_manifests_are_children(dir, entries);
        lemma_subdirs_are_children(config, dir, entries);
        assert forall|k: int| 0 <= k < subs.len() implies config.clear(#[trigger] subs[k])
            && subs[k].len() + below <= config.max_depth by {
            lemma_child_is_clear(config, dir, subs[k]);
        }
        lemma_walk_each_within_bounds(tree, config, subs, below);
        let all = walk(tree, config, dir, levels);
        let deep = walk_each(tree, config, subs, below);
        assert forall|i: int| 0 <= i < all.len() implies config.may_report(#[trigger] all[i]) by {
            if i < files.len() {
                assert(all[i] == files[i]);
            } else {
                assert(all[i] == deep[i - files.len()]);
            }
        }
    }
}

/// The same of the walks from each of several directories.
proof fn lemma_walk_each_within_bounds(
    tree: Tree,
    config: ConfigView,
    dirs: Seq<PathView>,
    levels: nat,
)
    requires
        forall|k: int|
            0 <= k < dirs.len() ==> config.clear(#[trigger] dirs[k]) && dirs[k].len() + levels
                <= config.max_depth,
    ensures
        forall|i: int|
            0 <= i < walk_each(tree, config, dirs, levels).len() ==> config.may_report(
                #[trigger] walk_each(tree, config, dirs, levels)[i],
            ),
    decreases levels, 1nat, dirs.len(),
{
    if dirs.len() > 0 {
        let head = walk(tree, config, dirs.first(), levels);
        let rest = dirs.drop_first();
        let tail = walk_each(tree, config, rest, levels);
        lemma_walk_within_bounds(tree, config, dirs.first(), levels);
        assert forall|k: int| 0 <= k < rest.len() implies config.clear(#[trigger] rest[k])
            && rest[k].len() + levels <= config.max_depth by {
            assert(rest[k] == dirs[k + 1]);
        }
        lemma_walk_each_within_bounds(tree, config, rest, levels);
        let all = walk_each(tree, config, dirs, levels);
        assert forall|i: int| 0 <= i < all.len() implies config.may_report(#[trigger] all[i]) by {
            if i < head.len() {
                assert(all[i] == head[i]);
            } else {
                assert(all[i] == tail[i - head.len()]);
            }
        }
    }
}

/// In every tree, each manifest that a walk locates lies within the depth
/// bound, and none of the directories above it bears an excluded name.
pub proof fn lemma_located_within_bounds(tree: Tree, config: ConfigView)
    ensures
        forall|i: int|
            0 <= i < located(tree, config).len() ==> config.may_report(
                #[trigger] located(tree, config)[i],
            ),
{
    lemma_walk_within_bounds(tree, config, Seq::empty(), config.max_depth);
}

/// Whether the listing `entries` holds a directory called `name` that a walk
/// enters.
pub open spec fn lists_subdir(
    config: ConfigView,
    entries: Seq<EntryView>,
    name: Seq<char>,
) -> bool {
    exists|i: int|
        0 <= i < entries.len() && config.enters(#[trigger] entries[i]) && entries[i].name == name
}

/// Whether the listing `entries` holds a manifest called `name`.
pub open spec fn lists_manifest(entries: Seq<EntryView>, name: Seq<char>) -> bool {
    exists|i: int|
        0 <= i < entries.len() && is_manifest(#[trigger] entries[i]) && entries[i].name == name
}

/// Whether `file` can be reached from `dir` within `levels` levels: it lies
/// below `dir` and no deeper than that, it is a manifest in the listing of its
/// directory, and each directory on the way from `dir` to it is in the listing
/// of the one before, as a directory whose name is not excluded.
pub open spec fn reaches(
    tree: Tree,
    config: ConfigView,
    dir: PathView,
    levels: nat,
    file: PathView,
) -> bool {
    &&& dir.len() < file.len() <= dir.len() + levels
    &&& file.take(dir.len() as int) == dir
    &&& lists_manifest(tree(file.drop_last()), file.last())
    &&& forall|k: int|
        dir.len() <= k < file.len() - 1 ==> lists_subdir(
            config,
            tree(#[trigger] file.take(k)),
            file[k],
        )
}

/// Whether `file` can be reached from the root within the depth bound.
pub open spec fn reachable(tree: Tree, config: ConfigView, file: PathView) -> bool {
    reaches(tree, config, Seq::empty(), config.max_depth, file)
}

/// A sequence that is sifted keeps what the sieve makes of each of its
/// items.
proof fn lemma_filter_map_keeps<A, B>(items: Seq<A>, sieve: spec_fn(A) -> Option<B>, i: int)
    requires
        0 <= i < items.len(),
        sieve(items[i]) is Some,
    ensures
        items.filter_map(sieve).contains(sieve(items[i]).unwrap()),
    decreases items.len(),
{
    let rest = items.drop_last();
    let kept = sieve(items[i]).unwrap();
    if i == items.len() - 1 {
        let all = items.filter_map(sieve);
        assert(all == rest.filter_map(sieve) + seq![kept]);
        assert(all[all.len() - 1] == kept);
    } else {
        lemma_filter_map_keeps(rest, sieve, i);
        let before = rest.filter_map(sieve);
        let at = choose|j: int| 0 <= j < before.len() && before[j] == kept;
        match sieve(items.last()) {
            Some(last) => {
                assert((before + seq![last])[at] == kept);
            },
            None => {},
        }
    }
}

/// The manifests of a listing of `dir` are the entries of `dir` that the
/// listing holds as manifests.
pub proof fn lemma_manifests_in_contains(dir: PathView, entries: Seq<EntryView>, file: PathView)
    ensures
        manifests_in(dir, entries).contains(file) <==> file.len() == dir.len() + 1
            && file.drop_last() == dir && lists_manifest(entries, file.last()),
{
    let sieve = manifest_at(dir);
    if manifests_in(dir, entries).contains(file) {
        entries.lemma_filter_map_contains(sieve, file);
        let e = choose|e: EntryView| #[trigger] entries.contains(e) && sieve(e) == Some(file);
        let i = choose|i: int| 0 <= i < entries.len() && entries[i] == e;
        assert(is_manifest(entries[i]) && entries[i].name == file.last());
        assert(dir.push(e.name).drop_last() =~= dir);
    }
    if file.len() == dir.len() + 1 && file.drop_last() == dir && lists_manifest(
        entries,
        file.last(),
    ) {
        let i = choose|i: int|
            0 <= i < entries.len() && is_manifest(#[trigger] entries[i]) && entries[i].name
                == file.last();
        lemma_filter_map_keeps(entries, sieve, i);
        assert(dir.push(entries[i].name) =~= file);
    }
}

/// The directories that a walk enters from a listing of `dir` are the entries
/// of `dir` that the listing holds as directories with names not excluded.
pub proof fn lemma_subdirs_in_contains(
    config: ConfigView,
    dir: PathView,
    entries: Seq<EntryView>,
    sub: PathView,
)
    ensures
        subdirs_in(config, dir, entries).contains(sub) <==> sub.len() == dir.len() + 1
            && sub.drop_last() == dir && lists_subdir(config, entries, sub.last()),
{
    let sieve = subdir_at(config, dir);
    if subdirs_in(config, dir, entries).contains(sub) {
        entries.lemma_filter_map_contains(sieve, sub);
        let e = choose|e: EntryView| #[trigger] entries.contains(e) && sieve(e) == Some(sub);
        let i = choose|i: int| 0 <= i < entries.len() && entries[i] == e;
        assert(config.enters(entries[i]) && entries[i].name == sub.last());
        assert(dir.push(e.name).drop_last() =~= dir);
    }
    if sub.len() == dir.len() + 1 && sub.drop_last() == dir && lists_subdir(
        config,
        entries,
        sub.last(),
    ) {
        let i = choose|i: int|
            0 <= i < entries.len() && config.enters(#[trigger] entries[i]) && entries[i].name
                == sub.last();
        lemma_filter_map_keeps(entries, sieve, i);
        assert(dir.push(entries[i].name) =~= sub);
    }
}

/// What the walks from several directories find is what the walk from one
/// of them finds.
proof fn lemma_walk_each_contains(
    tree: Tree,
    config: ConfigView,
    dirs: Seq<PathView>,
    levels: nat,
    file: PathView,
)
    ensures
        walk_each(tree, config, dirs, levels).contains(file) <==> exists|j: int|
            0 <= j < dirs.len() && #[trigger] walk(tree, config, dirs[j], levels).contains(file),
    decreases dirs.len(),
{
    if dirs.len() > 0 {
        let head = walk(tree, config, dirs.first(), levels);
        let tail_dirs = dirs.drop_first();
        let tail = walk_each(tree, config, tail_dirs, levels);
        let all = walk_each(tree, config, dirs, levels);
        assert(all == head + tail);
        lemma_walk_each_contains(tree, config, tail_dirs, levels, file);
        if all.contains(file) {
            let at = choose|at: int| 0 <= at < all.len() && all[at] == file;
            if at < head.len() {
                assert(head[at] == file);
                assert(walk(tree, config, dirs[0], levels).contains(file));
            } else {
                assert(tail[at - head.len()] == file);
                let j = choose|j: int|
                    0 <= j < tail_dirs.len() && #[trigger] walk(
                        tree,
                        config,
                        tail_dirs[j],
                        levels,
                    ).contains(file);
                assert(tail_dirs[j] == dirs[j + 1]);
                assert(walk(tree, config, dirs[j + 1], levels).contains(file));
            }
        }
        if exists|j: int|
            0 <= j < dirs.len() && #[trigger] walk(tree, config, dirs[j], levels).contains(file) {
            let j = choose|j: int|
                0 <= j < dirs.len() && #[trigger] walk(tree, config, dirs[j], levels).contains(
                    file,
                );
            if j == 0 {
                let at = choose|at: int| 0 <= at < head.len() && head[at] == file;
                assert(all[at] == file);
            } else {
                assert(tail_dirs[j - 1] == dirs[j]);
                assert(walk(tree, config, tail_dirs[j - 1], levels).contains(file));
                let at = choose|at: int| 0 <= at < tail.len() && tail[at] == file;
                assert(all[head.len() + at] == file);
            }
        }
    }
}

/// A walk finds a manifest if and only if the manifest can be reached.
pub proof fn lemma_walk_finds_what_it_reaches(
    tree: Tree,
    config: ConfigView,
    dir: PathView,
    levels: nat,
    file: PathView,
)
    ensures
        walk(tree, config, dir, levels).contains(file) <==> reaches(
            tree,
            config,
            dir,
            levels,
            file,
        ),
    decreases levels,
{
    if levels > 0 {
        let entries = tree(dir);
        let files = manifests_in(dir, entries);
        let subs = subdirs_in(config, dir, entries);
        let below = (levels - 1) as nat;
        let deep = walk_each(tree, config, subs, below);
        let all = walk(tree, config, dir, levels);
        assert(all == files + deep);
        lemma_manifests_in_contains(dir, entries, file);
        lemma_walk_each_contains(tree, config, subs, below, file);
        if all.contains(file) {
            let at = choose|at: int| 0 <= at < all.len() && all[at] == file;
            if at < files.len() {
                assert(files[at] == file);
                assert(files.contains(file));
                assert(file.take(dir.len() as int) =~= dir);
            } else {
                assert(deep[at - files.len()] == file);
                assert(deep.contains(file));
                let j = choose|j: int|
                    0 <= j < subs.len() && #[trigger] walk(tree, config, subs[j], below).contains(
                        file,
                    );
                let sub = subs[j];
                assert(subs.contains(sub));
                lemma_subdirs_in_contains(config, dir, entries, sub);
                lemma_walk_finds_what_it_reaches(tree, config, sub, below, file);
                assert(reaches(tree, config, sub, below, file));
                assert(file.take(dir.len() as int) =~= sub.drop_last()) by {
                    assert(file.take(sub.len() as int).drop_last() =~= file.take(dir.len() as int));
                }
                assert(file[dir.len() as int] == sub.last()) by {
                    assert(file.take(sub.len() as int)[dir.len() as int] == file[dir.len() as int]);
                }
                assert forall|k: int| dir.len() <= k < file.len() - 1 implies lists_subdir(
                    config,
                    tree(#[trigger] file.take(k)),
                    file[k],
                ) by {
                    if k == dir.len() {
                        assert(file.take(k) == dir);
                    }
                }
            }
        }
        if reaches(tree, config, dir, levels, file) {
            if file.len() == dir.len() + 1 {
                assert(file.drop_last() =~= file.take(dir.len() as int));
                assert(files.contains(file));
                let at = choose|at: int| 0 <= at < files.len() && files[at] == file;
                assert(all[at] == file);
            } else {
                let sub = file.take(dir.len() as int + 1);
                assert(sub.drop_last() =~= dir);
                assert(sub.last() == file[dir.len() as int]);
                assert(file.take(dir.len() as int) == dir);
                assert(lists_subdir(
                    config,
                    tree(file.take(dir.len() as int)),
                    file[dir.len() as int],
                ));
                lemma_subdirs_in_contains(config, dir, entries, sub);
                assert(subs.contains(sub));
                let j = choose|j: int| 0 <= j < subs.len() && subs[j] == sub;
                assert(reaches(tree, config, sub, below, file));
                lemma_walk_finds_what_it_reaches(tree, config, sub, below, file);
                assert(walk(tree, config, subs[j], below).contains(file));
                assert(deep.contains(file));
                let at = choose|at: int| 0 <= at < deep.len() && deep[at] == file;
                assert(all[files.len() + at] == file);
            }
        }
    }
}

/// In every tree, a walk locates the manifests that can be reached from the
/// root within the depth bound through directories with names not excluded,
/// and nothing else.
pub proof fn lemma_located_are_the_reachable(tree: Tree, config: ConfigView, file: PathView)
    ensures
        located(tree, config).contains(file) <==> reachable(tree, config, file),
{
    lemma_walk_finds_what_it_reaches(tree, config, Seq::empty(), config.max_depth, file);
}

} // verus!
