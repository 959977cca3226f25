//! Which paths have become stale, and what makes them so.

use vstd::prelude::*;

use crate::affected::{
    affected_models, invalidation_paths_for_mount_path, stale_for_path, Affected,
};
use crate::mount_paths::{descends, mount_text, Components, MountPath};
use crate::overlay::{contains_path, copy_paths, path_models};
use crate::path::JetStreamPath;
use crate::path_cache::{lemma_ordered_is_same, lemma_ordered_knows, row_models, PathCache, Row};
use crate::text::{string_texts, Text};

verus! {

/// A set of paths.
pub struct PathSet {
    paths: Vec<MountPath>,
}

impl View for PathSet {
    type V = Set<Components>;

    closed spec fn view(&self) -> Set<Components> {
        path_models(self.paths@).to_set()
    }
}

impl PathSet {
    /// The set without paths.
    pub fn new() -> (set: Self)
        ensures
            set@ == Set::<Components>::empty(),
    {
        let paths: Vec<MountPath> = Vec::new();
        assert(path_models(paths@).to_set() =~= Set::empty());
        PathSet { paths }
    }

    /// Whether a path is in the set.
    pub fn contains(&self, path: &MountPath) -> (found: bool)
        ensures
            found == self@.contains(path@),
    {
        contains_path(self.paths.as_slice(), path)
    }

    /// Whether the set has no path.
    pub fn is_empty(&self) -> (empty: bool)
        ensures
            empty == (self@ =~= Set::empty()),
    {
        assert(path_models(self.paths@).len() == self.paths@.len());
        if self.paths.len() > 0 {
            assert(path_models(self.paths@).contains(self.paths@[0]@)) by {
                assert(path_models(self.paths@)[0] == self.paths@[0]@);
            }
            assert(self@.contains(self.paths@[0]@));
        }
        self.paths.len() == 0
    }

    /// The same set once more.
    pub fn copy(&self) -> (set: Self)
        ensures
            set@ == self@,
    {
        PathSet { paths: copy_paths(self.paths.as_slice()) }
    }

    /// Puts a path into the set.
    pub fn insert(&mut self, path: &MountPath)
        ensures
            final(self)@ == old(self)@.insert(path@),
    {
        let ghost before = self.paths@;
        if !contains_path(self.paths.as_slice(), path) {
            let copy = path.clone();
            self.paths.push(copy);
            let ghost models = path_models(before);
            assert(path_models(self.paths@) =~= models.push(path@));
            assert forall|other: Components| models.push(path@).contains(other) == (
            models.contains(other) || other == path@) by {
                if models.contains(other) {
                    let k = choose|k: int| 0 <= k < models.len() && models[k] == other;
                    assert(models.push(path@)[k] == other);
                }
                assert(models.push(path@)[models.len() as int] == path@);
            }
        }
        assert(self@ =~= path_models(before).to_set().insert(path@));
    }

    /// Takes a path out of the set.
    pub fn remove(&mut self, path: &MountPath)
        ensures
            final(self)@ == old(self)@.remove(path@),
    {
        let ghost before = path_models(self.paths@);
        let mut paths: Vec<MountPath> = Vec::new();
        let mut i: usize = 0;
        while i < self.paths.len()
            invariant
                i <= self.paths.len(),
                before == path_models(self.paths@),
                forall|other: Components|
                    #![trigger path_models(paths@).contains(other)]
                    path_models(paths@).contains(other) == (before.take(i as int).contains(other)
                        && other != path@),
            decreases self.paths.len() - i,
        {
            let ghost upto = before.take(i + 1);
            let ghost early = path_models(paths@);
            let ghost one = self.paths@[i as int]@;
            assert(upto =~= before.take(i as int).push(one));
            proof {
                lemma_push_contains(before.take(i as int), one);
            }
            if !self.paths[i].same(path) {
                let copy = self.paths[i].clone();
                paths.push(copy);
                assert(path_models(paths@) =~= early.push(one));
                proof {
                    lemma_push_contains(early, one);
                }
            }
            i += 1;
        }
        assert(before.take(before.len() as int) =~= before);
        self.paths = paths;
        assert(self@ =~= before.to_set().remove(path@));
    }
}

proof fn lemma_push_contains(paths: Seq<Components>, one: Components)
    ensures
        forall|other: Components|
            #![trigger paths.push(one).contains(other)]
            paths.push(one).contains(other) == (paths.contains(other) || other == one),
{
    assert forall|other: Components|
        #![trigger paths.push(one).contains(other)]
        paths.push(one).contains(other) == (paths.contains(other) || other == one) by {
        if paths.contains(other) {
            let k = choose|k: int| 0 <= k < paths.len() && paths[k] == other;
            assert(paths.push(one)[k] == other);
        }
        assert(paths.push(one)[paths.len() as int] == one);
        if paths.push(one).contains(other) && other != one {
            let k = choose|k: int| 0 <= k < paths.push(one).len() && paths.push(one)[k] == other;
            assert(paths[k] == other);
        }
    }
}

/// How far an invalidation reaches.
#[derive(Clone, Copy, Debug, PartialEq, Eq, Structural)]
pub enum InvalidationScope {
    ExactEntry,
    Subtree,
    All,
}

/// An invalidation of a path.
#[derive(Debug, PartialEq, Eq)]
pub struct InvalidationAction {
    pub scope: InvalidationScope,
    pub path: MountPath,
}

/// Whether an invalidation reaches a path. The root is never stale.
pub open spec fn reached(scope: InvalidationScope, at: Components, path: Components) -> bool {
    path.len() > 0 && match scope {
        InvalidationScope::ExactEntry => path == at,
        InvalidationScope::Subtree => path == at || descends(path, at),
        InvalidationScope::All => true,
    }
}

/// Whether a path has an inode.
pub open spec fn known(rows: Seq<Row>, path: Components) -> bool {
    exists|i: int| 0 <= i < rows.len() && (#[trigger] rows[i]).path == path
}

/// The known paths that an invalidation reaches.
pub open spec fn reached_paths(
    rows: Seq<Row>,
    scope: InvalidationScope,
    at: Components,
) -> Set<Components> {
    Set::new(|path: Components| known(rows, path) && reached(scope, at, path))
}

/// The stale paths after invalidations: those before, and the known ones that any of
/// them reaches.
pub open spec fn stale_after(
    stale: Set<Components>,
    rows: Seq<Row>,
    actions: Seq<InvalidationAction>,
) -> Set<Components>
    decreases actions.len(),
{
    if actions.len() == 0 {
        stale
    } else {
        stale_after(stale, rows, actions.drop_last()).union(
            reached_paths(rows, actions.last().scope, actions.last().path@),
        )
    }
}

/// Invalidations leave stale what is stale, reach every known path that one of them is
/// about, and never the root.
pub proof fn law_invalidations_only_add(
    stale: Set<Components>,
    rows: Seq<Row>,
    actions: Seq<InvalidationAction>,
    path: Components,
)
    ensures
        stale.contains(path) ==> stale_after(stale, rows, actions).contains(path),
        forall|i: int|
            0 <= i < actions.len() && known(rows, path) && reached(
                (#[trigger] actions[i]).scope,
                actions[i].path@,
                path,
            ) ==> stale_after(stale, rows, actions).contains(path),
        path.len() == 0 && !stale.contains(path) ==> !stale_after(stale, rows, actions).contains(
            path,
        ),
    decreases actions.len(),
{
    if actions.len() > 0 {
        let front = actions.drop_last();
        law_invalidations_only_add(stale, rows, front, path);
        assert forall|i: int|
            0 <= i < actions.len() && known(rows, path) && reached(
                (#[trigger] actions[i]).scope,
                actions[i].path@,
                path,
            ) implies stale_after(stale, rows, actions).contains(path) by {
            if i < front.len() {
                assert(front[i] == actions[i]);
            }
        }
    }
}

/// Marks the known paths stale that invalidations reach.
pub fn apply_path_invalidation_plan(
    stale: &mut PathSet,
    paths: &PathCache,
    actions: &[InvalidationAction],
)
    ensures
        final(stale)@ == stale_after(old(stale)@, paths@.rows, actions@),
{
    let ghost before = stale@;
    let mut i: usize = 0;
    assert(actions@.take(0) =~= Seq::empty());
    while i < actions.len()
        invariant
            i <= actions.len(),
            stale@ == stale_after(before, paths@.rows, actions@.take(i as int)),
        decreases actions.len() - i,
    {
        let ghost upto = actions@.take(i + 1);
        assert(upto.drop_last() =~= actions@.take(i as int));
        assert(upto.last() == actions@[i as int]);
        mark_stale(stale, paths, actions[i].scope, &actions[i].path);
        i += 1;
    }
    assert(actions@.take(actions@.len() as int) =~= actions@);
}

/// Marks the known paths stale that one invalidation reaches.
fn mark_stale(stale: &mut PathSet, paths: &PathCache, scope: InvalidationScope, at: &MountPath)
    ensures
        final(stale)@ == old(stale)@.union(reached_paths(paths@.rows, scope, at@)),
{
    let rows = paths.snapshot();
    let ghost models = row_models(rows@);
    let ghost before = stale@;
    let mut i: usize = 0;
    while i < rows.len()
        invariant
            i <= rows.len(),
            models == row_models(rows@),
            forall|path: Components| #[trigger]
                stale@.contains(path) == (before.contains(path) || (known(
                    models.take(i as int),
                    path,
                ) && reached(scope, at@, path))),
        decreases rows.len() - i,
    {
        let row = &rows[i];
        let ghost one = row.path@;
        let ghost early = models.take(i as int);
        let ghost upto = models.take(i + 1);
        assert(upto =~= early.push(row@));
        assert forall|path: Components| #[trigger] known(upto, path) == (known(early, path) || path
            == one) by {
            if known(early, path) {
                let k = choose|k: int| 0 <= k < early.len() && (#[trigger] early[k]).path == path;
                assert(upto[k].path == path);
            }
            assert(upto[i as int].path == one);
            if known(upto, path) && path != one {
                let k = choose|k: int| 0 <= k < upto.len() && (#[trigger] upto[k]).path == path;
                assert(early[k].path == path);
            }
        }
        if !row.path.is_root() {
            let touched = match scope {
                InvalidationScope::ExactEntry => row.path.same(at),
                InvalidationScope::Subtree => row.path.is_self_or_descendant_of(at),
                InvalidationScope::All => true,
            };
            if touched {
                stale.insert(&row.path);
            }
        }
        i += 1;
    }
    proof {
        assert(models.take(models.len() as int) =~= models);
        lemma_ordered_is_same(paths@.rows);
        assert forall|path: Components| #[trigger] known(models, path) == known(paths@.rows, path) by {
            lemma_ordered_knows(paths@.rows, path);
        }
        assert(stale@ =~= before.union(reached_paths(paths@.rows, scope, at@)));
    }
}

/// The texts of affected paths.
pub open spec fn affected_texts(paths: Seq<Affected>) -> Seq<Text> {
    paths.map_values(|affected: Affected| mount_text(affected.path))
}

/// The paths that a change of what a mount path shows makes stale, as texts: the path
/// alone where it stands for nothing or its paths cannot be told.
pub open spec fn locally_stale(path: Components) -> Seq<Text> {
    match JetStreamPath::parsed(mount_text(path)) {
        Err(_) => seq![mount_text(path)],
        Ok(parsed) => match stale_for_path(parsed) {
            Err(_) => seq![mount_text(path)],
            Ok(paths) => affected_texts(paths),
        },
    }
}

/// The paths that a change of what a mount path shows makes stale, as texts.
pub fn local_invalidation_paths(path: &MountPath) -> (paths: Vec<String>)
    ensures
        string_texts(paths@) == locally_stale(path@),
{
    let affected = match JetStreamPath::parse(path.as_str()) {
        Err(_) => {
            return only(path);
        },
        Ok(parsed) => match invalidation_paths_for_mount_path(&parsed) {
            Err(_) => {
                return only(path);
            },
            Ok(affected) => affected,
        },
    };
    let mut paths: Vec<String> = Vec::new();
    let mut i: usize = 0;
    while i < affected.len()
        invariant
            i <= affected.len(),
            paths.len() == i,
            forall|k: int|
                0 <= k < i ==> (#[trigger] paths[k])@ == mount_text(affected[k].path@),
        decreases affected.len() - i,
    {
        paths.push(affected[i].path.to_string());
        i += 1;
    }
    assert(string_texts(paths@) =~= affected_texts(affected_models(affected@)));
    paths
}

fn only(path: &MountPath) -> (paths: Vec<String>)
    ensures
        string_texts(paths@) == seq![mount_text(path@)],
{
    let paths = vec![path.to_string()];
    assert(string_texts(paths@) =~= seq![mount_text(path@)]);
    paths
}

} // verus!
