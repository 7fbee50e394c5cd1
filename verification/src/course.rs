//! The course of a walk: why the locator, fed with the listings of a tree,
//! comes to an end and has then found exactly the manifests of that tree.

use crate::locator::{subdirs_in, ConfigView, EntryView, LocatorView};
use crate::path::PathView;
use crate::tree::{lemma_child_is_clear, lemma_manifests_are_children, lemma_subdirs_are_children,
    located, walk, walk_each, Tree};
use vstd::prelude::*;

verus! {

/// How many levels a walk may still look down from `dir`.
pub open spec fn levels_below(config: ConfigView, dir: PathView) -> nat {
    if dir.len() <= config.max_depth {
        (config.max_depth - dir.len()) as nat
    } else {
        0
    }
}

/// What the pending directories still owe: the walk of each, the last of
/// them first.
pub open spec fn owed(tree: Tree, config: ConfigView, pending: Seq<PathView>) -> Seq<PathView>
    decreases pending.len(),
{
    if pending.len() == 0 {
        Seq::empty()
    } else {
        walk(tree, config, pending.last(), levels_below(config, pending.last())) + owed(
            tree,
            config,
            pending.drop_last(),
        )
    }
}

/// What a walk in progress will have found in `tree` at its end: what it has
/// found, then what its pending directories owe.
pub open spec fn outcome(state: LocatorView, tree: Tree) -> Seq<PathView> {
    state.found + owed(tree, state.config, state.pending)
}

/// How many directories a walk from `dir` lists, `levels` levels down.
pub open spec fn listings(tree: Tree, config: ConfigView, dir: PathView, levels: nat) -> nat
    decreases levels, 0nat, 0nat,
{
    if levels == 0 {
        0
    } else {
        1 + listings_each(tree, config, subdirs_in(config, dir, tree(dir)), (levels - 1) as nat)
    }
}

/// How many directories the walks from each of `dirs` list.
pub open spec fn listings_each(
    tree: Tree,
    config: ConfigView,
    dirs: Seq<PathView>,
    levels: nat,
) -> nat
    decreases levels, 1nat, dirs.len(),
{
    if dirs.len() == 0 {
        0
    } else {
        listings(tree, config, dirs.first(), levels) + listings_each(
            tree,
            config,
            dirs.drop_first(),
            levels,
        )
    }
}

/// How many directories are still to be listed before the pending ones are
/// done with.
pub open spec fn listings_owed(tree: Tree, config: ConfigView, pending: Seq<PathView>) -> nat
    decreases pending.len(),
{
    if pending.len() == 0 {
        0
    } else {
        listings(tree, config, pending.last(), levels_below(config, pending.last()))
            + listings_owed(tree, config, pending.drop_last())
    }
}

/// The walk after `steps` listings, each the tree's listing of the
/// directory that was next. A walk that is over stays as it is.
pub open spec fn after_steps(state: LocatorView, tree: Tree, steps: nat) -> LocatorView
    decreases steps,
{
    if steps == 0 || state.pending.len() == 0 {
        state
    } else {
        after_steps(state.absorb(tree(state.pending.last())), tree, (steps - 1) as nat)
    }
}

/// Whatever listing a walk is handed, each directory it then has pending may
/// be listed and each manifest it has found may be reported: it enters no
/// excluded directory and goes no deeper than its bound.
pub proof fn lemma_absorb_keeps_wf(state: LocatorView, entries: Seq<EntryView>)
    requires
        state.wf(),
    ensures
        state.absorb(entries).wf(),
{
    if state.pending.len() > 0 {
        let config = state.config;
        let dir = state.pending.last();
        let rest = state.pending.drop_last();
        let subs = subdirs_in(config, dir, entries);
        let after = state.absorb(entries);
        lemma_subdirs_are_children(config, dir, entries);
        lemma_manifests_are_children(dir, entries);
        assert forall|i: int| 0 <= i < after.pending.len() implies config.may_list(
            #[trigger] after.pending[i],
        ) by {
            if i >= rest.len() {
                lemma_child_is_clear(config, dir, subs[subs.len() - 1 - (i - rest.len())]);
            }
        }
    }
}

/// A walk starts out owing the whole tree.
pub proof fn lemma_start_owes_all(tree: Tree, config: ConfigView)
    ensures
        outcome(LocatorView::start(config), tree) == located(tree, config),
{
    let state = LocatorView::start(config);
    if config.max_depth >= 1 {
        assert(owed(tree, config, state.pending.drop_last()) =~= Seq::<PathView>::empty());
    }
}

/// With no levels left, directories owe nothing.
proof fn lemma_walk_each_nothing(tree: Tree, config: ConfigView, dirs: Seq<PathView>)
    ensures
        walk_each(tree, config, dirs, 0) == Seq::<PathView>::empty(),
    decreases dirs.len(),
{
    if dirs.len() > 0 {
        lemma_walk_each_nothing(tree, config, dirs.drop_first());
        assert(walk(tree, config, dirs.first(), 0) == Seq::<PathView>::empty());
    }
}

/// Directories of one depth that are made pending in reverse, on top of
/// `rest`, owe their walks in their own order, and then what `rest` owes.
proof fn lemma_owed_reversed(
    tree: Tree,
    config: ConfigView,
    rest: Seq<PathView>,
    dirs: Seq<PathView>,
    levels: nat,
)
    requires
        forall|k: int| 0 <= k < dirs.len() ==> levels_below(config, #[trigger] dirs[k]) == levels,
    ensures
        owed(tree, config, rest + dirs.reverse()) == walk_each(tree, config, dirs, levels) + owed(
            tree,
            config,
            rest,
        ),
    decreases dirs.len(),
{
    if dirs.len() > 0 {
        let tail = dirs.drop_first();
        assert((rest + dirs.reverse()).drop_last() =~= rest + tail.reverse());
        assert forall|k: int| 0 <= k < tail.len() implies levels_below(config, #[trigger] tail[k])
            == levels by {}
        lemma_owed_reversed(tree, config, rest, tail, levels);
    }
}

/// Taking the tree's listing of the next directory changes nothing in what
/// the walk will have found at its end.
pub proof fn lemma_absorb_keeps_outcome(state: LocatorView, tree: Tree)
    requires
        state.wf(),
        state.pending.len() > 0,
    ensures
        outcome(state.absorb(tree(state.pending.last())), tree) == outcome(state, tree),
{
    let config = state.config;
    let dir = state.pending.last();
    let rest = state.pending.drop_last();
    let entries = tree(dir);
    let subs = subdirs_in(config, dir, entries);
    let levels = levels_below(config, dir);
    let below = (levels - 1) as nat;
    lemma_subdirs_are_children(config, dir, entries);
    if dir.len() + 1 < config.max_depth {
        assert forall|k: int| 0 <= k < subs.len() implies levels_below(config, #[trigger] subs[k])
            == below by {}
        lemma_owed_reversed(tree, config, rest, subs, below);
    } else {
        lemma_walk_each_nothing(tree, config, subs);
    }
}

/// A walk with nothing pending has found all that it will ever find.
pub proof fn lemma_done_owes_nothing(state: LocatorView, tree: Tree)
    requires
        state.pending.len() == 0,
    ensures
        outcome(state, tree) == state.found,
{
}

/// Listings taken from a tree, however many, change nothing in what a walk
/// will have found at its end.
pub proof fn lemma_steps_keep_outcome(state: LocatorView, tree: Tree, steps: nat)
    requires
        state.wf(),
    ensures
        after_steps(state, tree, steps).wf(),
        outcome(after_steps(state, tree, steps), tree) == outcome(state, tree),
    decreases steps,
{
    if steps > 0 && state.pending.len() > 0 {
        let entries = tree(state.pending.last());
        lemma_absorb_keeps_wf(state, entries);
        lemma_absorb_keeps_outcome(state, tree);
        lemma_steps_keep_outcome(state.absorb(entries), tree, (steps - 1) as nat);
    }
}

/// However many listings a walk has taken from a tree, what it has found and
/// what it still owes make up the manifests of the tree; and once it is over,
/// it has found them all, each once for each time the tree holds it, in the
/// order of `located`.
pub proof fn lemma_walk_finds_the_located(tree: Tree, config: ConfigView, steps: nat)
    ensures
        ({
            let end = after_steps(LocatorView::start(config), tree, steps);
            &&& end.wf()
            &&& outcome(end, tree) == located(tree, config)
            &&& end.pending.len() == 0 ==> end.found == located(tree, config)
        }),
{
    let start = LocatorView::start(config);
    lemma_start_owes_all(tree, config);
    lemma_steps_keep_outcome(start, tree, steps);
    let end = after_steps(start, tree, steps);
    if end.pending.len() == 0 {
        lemma_done_owes_nothing(end, tree);
    }
}

/// With no levels left, directories ask for no listing.
proof fn lemma_listings_each_nothing(tree: Tree, config: ConfigView, dirs: Seq<PathView>)
    ensures
        listings_each(tree, config, dirs, 0) == 0,
    decreases dirs.len(),
{
    if dirs.len() > 0 {
        lemma_listings_each_nothing(tree, config, dirs.drop_first());
        assert(listings(tree, config, dirs.first(), 0) == 0);
    }
}

/// Directories of one depth that are made pending in reverse, on top of
/// `rest`, ask for their own listings and for those that `rest` asks for.
proof fn lemma_listings_reversed(
    tree: Tree,
    config: ConfigView,
    rest: Seq<PathView>,
    dirs: Seq<PathView>,
    levels: nat,
)
    requires
        forall|k: int| 0 <= k < dirs.len() ==> levels_below(config, #[trigger] dirs[k]) == levels,
    ensures
        listings_owed(tree, config, rest + dirs.reverse()) == listings_each(
            tree,
            config,
            dirs,
            levels,
        ) + listings_owed(tree, config, rest),
    decreases dirs.len(),
{
    if dirs.len() > 0 {
        let tail = dirs.drop_first();
        assert((rest + dirs.reverse()).drop_last() =~= rest + tail.reverse());
        assert forall|k: int| 0 <= k < tail.len() implies levels_below(config, #[trigger] tail[k])
            == levels by {}
        lemma_listings_reversed(tree, config, rest, tail, levels);
    }
}

/// Each listing brings a walk one step nearer to its end.
pub proof fn lemma_absorb_is_one_listing(state: LocatorView, tree: Tree)
    requires
        state.wf(),
        state.pending.len() > 0,
    ensures
        listings_owed(tree, state.config, state.absorb(tree(state.pending.last())).pending) + 1
            == listings_owed(tree, state.config, state.pending),
{
    let config = state.config;
    let dir = state.pending.last();
    let rest = state.pending.drop_last();
    let entries = tree(dir);
    let subs = subdirs_in(config, dir, entries);
    let levels = levels_below(config, dir);
    let below = (levels - 1) as nat;
    lemma_subdirs_are_children(config, dir, entries);
    if dir.len() + 1 < config.max_depth {
        assert forall|k: int| 0 <= k < subs.len() implies levels_below(config, #[trigger] subs[k])
            == below by {}
        lemma_listings_reversed(tree, config, rest, subs, below);
    } else {
        lemma_listings_each_nothing(tree, config, subs);
    }
}

/// A walk is over after as many listings as it owes, at the latest.
pub proof fn lemma_steps_reach_the_end(state: LocatorView, tree: Tree, steps: nat)
    requires
        state.wf(),
        listings_owed(tree, state.config, state.pending) <= steps,
    ensures
        after_steps(state, tree, steps).pending.len() == 0,
    decreases steps,
{
    if state.pending.len() > 0 {
        let entries = tree(state.pending.last());
        lemma_absorb_keeps_wf(state, entries);
        lemma_absorb_is_one_listing(state, tree);
        lemma_steps_reach_the_end(state.absorb(entries), tree, (steps - 1) as nat);
    }
}

/// The walk of every tree comes to an end: after as many listings as there
/// are directories that it enters, none is pending. No tree is so deep, and
/// none leads back into itself so often, that the walk would go on.
pub proof fn lemma_walk_ends(tree: Tree, config: ConfigView)
    ensures
        after_steps(
            LocatorView::start(config),
            tree,
            listings(tree, config, Seq::empty(), config.max_depth),
        ).pending.len() == 0,
{
    let start = LocatorView::start(config);
    let root = PathView::empty();
    if config.max_depth >= 1 {
        assert(listings_owed(tree, config, start.pending.drop_last()) == 0);
    }
    lemma_steps_reach_the_end(start, tree, listings(tree, config, root, config.max_depth));
}

} // verus!
