//! The versioned molecule: a feature timeline, a materialized
//! representation at a cursor ("history step") into that timeline, and a
//! checkpoint cache with a dirty-step watermark that says how far cached
//! state can be trusted.
//!
//! The governing invariant: the materialized topology always equals the
//! pure replay of the first `history_step` timeline entries, and every
//! checkpoint at a step within the watermark equals the replay of that
//! prefix.

use vstd::prelude::*;
use vstd::multiset::group_multiset_axioms;

use crate::elements::ElementTable;
use crate::feature::apply_topo;
use crate::feature::apply_positions;
use crate::feature::no_positions;
use crate::feature::apply_ok;
use crate::feature::repr_matches;
use crate::feature::Feature;
use crate::feature::FeatureList;
use crate::feature::FeatureModel;
use crate::feature::Topo;
use crate::geom::Pos;
use crate::ids::AtomSpecifier;
use crate::repr::lemma_checkpoint_realizes;
use crate::repr::dir_wf;
use crate::repr::MoleculeCheckpoint;
use crate::repr::MoleculeRepr;

verus! {

broadcast use group_multiset_axioms;

/// The topology reached by replaying a timeline from the empty molecule.
pub open spec fn replay(s: Seq<(u64, FeatureModel)>) -> Topo
    decreases s.len(),
{
    if s.len() == 0 {
        Topo::empty()
    } else {
        apply_topo(s.last().1, s.last().0, replay(s.drop_last()))
    }
}

/// The ids of the timeline features in positions `[from, to)` whose
/// application fails against the replay of their own prefix, in timeline
/// order.
pub open spec fn failed_ids(s: Seq<(u64, FeatureModel)>, from: int, to: int) -> Seq<u64>
    decreases to - from,
{
    if to <= from {
        Seq::empty()
    } else {
        failed_ids(s, from, to - 1) + (if apply_ok(s[to - 1].1, s[to - 1].0, replay(s.subrange(0, to - 1)))
         {
            Seq::empty()
        } else {
            seq![s[to - 1].0]
        })
    }
}

/// Whether a checkpoint realizes an abstract topology.
pub open spec fn cp_matches(cp: MoleculeCheckpoint, t: Topo) -> bool {
    &&& cp.atoms_map() == t.atoms
    &&& forall|a: AtomSpecifier, b: AtomSpecifier, w: u8|
        #[trigger] cp.cp_bond_count(a, b, w) == t.bonds.count((a, b, w))
}

/// Whether a checkpoint cache holds an entry for step `k`.
pub open spec fn cache_has(c: Seq<(usize, MoleculeCheckpoint)>, k: int) -> bool {
    exists|i: int| 0 <= i < c.len() && (#[trigger] c[i]).0 == k
}

/// The cache entry for step `k` (meaningful when present and keys are
/// distinct).
pub open spec fn cache_at(c: Seq<(usize, MoleculeCheckpoint)>, k: int) -> MoleculeCheckpoint {
    c[choose|i: int| 0 <= i < c.len() && (#[trigger] c[i]).0 == k].1
}

/// With distinct keys, `cache_at` returns the entry any witness points at.
proof fn lemma_cache_at(c: Seq<(usize, MoleculeCheckpoint)>, k: int, i: int)
    requires
        0 <= i < c.len(),
        c[i].0 == k,
        forall|i1: int, i2: int|
            0 <= i1 < i2 < c.len() ==> (#[trigger] c[i1]).0 != (#[trigger] c[i2]).0,
    ensures
        cache_has(c, k),
        cache_at(c, k) == c[i].1,
{
    assert(cache_has(c, k));
    let j = choose|j: int| 0 <= j < c.len() && (#[trigger] c[j]).0 == k;
    if i < j {
        assert(c[i].0 != c[j].0);
    } else if j < i {
        assert(c[j].0 != c[i].0);
    }
}

/// Inserting at or after a prefix leaves the prefix unchanged.
pub proof fn lemma_insert_prefix(
    s: Seq<(u64, FeatureModel)>,
    x: (u64, FeatureModel),
    p: int,
    k: int,
)
    requires
        0 <= k <= p <= s.len(),
    ensures
        s.insert(p, x).subrange(0, k) == s.subrange(0, k),
{
    assert(s.insert(p, x).subrange(0, k) =~= s.subrange(0, k));
}

/// A prefix that reaches past an insertion point contains the inserted
/// entry: the rewritten history seen by any later seek includes the new
/// feature at its insertion position.
pub proof fn lemma_insert_in_prefix(
    s: Seq<(u64, FeatureModel)>,
    x: (u64, FeatureModel),
    p: int,
    k: int,
)
    requires
        0 <= p < k <= s.len() + 1,
    ensures
        s.insert(p, x).subrange(0, k) == s.subrange(0, p) + seq![x] + s.subrange(p, k - 1),
        s.insert(p, x).subrange(0, k)[p] == x,
{
    assert(s.insert(p, x).subrange(0, k) =~= s.subrange(0, p) + seq![x] + s.subrange(p, k - 1));
}

/// The placement of the whole structure in the world, carried through
/// persistence untouched by the editing logic: a fixed-point rotor
/// (scaled by 1000, identity being `(1000, 0, 0, 0)`) and an offset.
#[derive(Clone, Copy, PartialEq, Eq, Structural, Debug)]
pub struct Transform {
    pub rw: i64,
    pub rx: i64,
    pub ry: i64,
    pub rz: i64,
    pub offset: Pos,
}

impl Transform {
    /// The identity placement: no rotation, no offset.
    pub fn identity() -> (r: Transform)
        ensures
            r == (Transform { rw: 1000, rx: 0, ry: 0, rz: 0, offset: Pos { x: 0, y: 0, z: 0 } }),
    {
        Transform { rw: 1000, rx: 0, ry: 0, rz: 0, offset: Pos { x: 0, y: 0, z: 0 } }
    }
}

/// A user-visible molecule: the feature timeline, the materialized
/// representation, the history cursor, and the checkpoint cache.
pub struct Molecule {
    /// The materialized graph, positions and bounding volume.
    pub repr: MoleculeRepr,
    features: FeatureList,
    history_step: usize,
    checkpoints: Vec<(usize, MoleculeCheckpoint)>,
    dirty_step: usize,
    table: ElementTable,
    transform: Transform,
    replay_errors: Vec<u64>,
}

impl Molecule {
    /// The materialized representation, as a spec-level value.
    pub closed spec fn spec_repr(self) -> MoleculeRepr {
        self.repr
    }

    /// The timeline as a sequence of (id, feature shape) pairs.
    pub closed spec fn timeline(self) -> Seq<(u64, FeatureModel)> {
        self.features@
    }

    /// The history cursor: how many timeline entries are materialized.
    pub closed spec fn spec_history_step(self) -> int {
        self.history_step as int
    }

    /// The watermark: cached state at steps beyond it is untrusted.
    pub closed spec fn spec_dirty_step(self) -> int {
        self.dirty_step as int
    }

    /// The checkpoint cache.
    pub closed spec fn spec_cache(self) -> Seq<(usize, MoleculeCheckpoint)> {
        self.checkpoints@
    }

    /// The injected element table.
    pub closed spec fn spec_table(self) -> ElementTable {
        self.table
    }

    /// The failed-feature log of the most recent seek.
    pub closed spec fn spec_replay_errors(self) -> Seq<u64> {
        self.replay_errors@
    }

    /// The structure's world placement.
    pub closed spec fn spec_transform(self) -> Transform {
        self.transform
    }

    /// The structure's world placement.
    pub fn transform(&self) -> (r: Transform)
        ensures
            r == self.spec_transform(),
    {
        self.transform
    }

    /// Replaces the structure's world placement; nothing else changes.
    pub fn set_transform(&mut self, transform: Transform)
        requires
            old(self).wf(),
        ensures
            final(self).wf(),
            final(self).spec_transform() == transform,
            final(self).timeline() == old(self).timeline(),
            final(self).spec_history_step() == old(self).spec_history_step(),
            final(self).spec_dirty_step() == old(self).spec_dirty_step(),
            final(self).spec_cache() == old(self).spec_cache(),
            final(self).spec_repr() == old(self).spec_repr(),
            final(self).spec_table() == old(self).spec_table(),
    {
        self.transform = transform;
    }

    /// The molecule's invariant: the materialized topology is the replay of
    /// the first `history_step` features, and every trusted checkpoint is
    /// the replay of its own prefix.
    pub closed spec fn wf(self) -> bool {
        &&& self.repr.wf()
        &&& self.table.wf()
        &&& self.features.wf()
        &&& self.history_step <= self.features@.len()
        &&& self.dirty_step <= self.history_step
        &&& repr_matches(self.repr, replay(self.features@.subrange(0, self.history_step as int)))
        &&& forall|i: int|
            0 <= i < self.checkpoints@.len() ==> {
                &&& (#[trigger] self.checkpoints@[i]).0 <= self.features@.len()
                &&& self.checkpoints@[i].1.wf()
                &&& self.checkpoints@[i].0 <= self.dirty_step ==> cp_matches(
                    self.checkpoints@[i].1,
                    replay(self.features@.subrange(0, self.checkpoints@[i].0 as int)),
                )
            }
        &&& forall|i1: int, i2: int|
            0 <= i1 < i2 < self.checkpoints@.len() ==> (#[trigger] self.checkpoints@[i1]).0 != (
            #[trigger] self.checkpoints@[i2]).0
    }

    /// Whether a trusted checkpoint for step `k` is cached.
    pub open spec fn cache_trusted_at(self, k: int) -> bool {
        cache_has(self.spec_cache(), k) && k <= self.spec_dirty_step()
    }

    /// Builds a molecule from one seed feature, which is applied to the
    /// empty molecule (it must apply cleanly: a structure always has a
    /// root), and relaxes the result.
    pub fn from_feature(feature: Feature, table: ElementTable) -> (m: Molecule)
        requires
            table.wf(),
            apply_ok(feature.model(), 0, Topo::empty()),
        ensures
            m.wf(),
            m.timeline() == seq![(0u64, feature.model())],
            m.spec_history_step() == 1,
            m.spec_dirty_step() == 1,
            m.spec_table() == table,
            m.spec_cache().len() == 0,
            m.spec_replay_errors().len() == 0,
            repr_matches(m.spec_repr(), apply_topo(feature.model(), 0, Topo::empty())),
            m.spec_repr().positions_map() == crate::dynamics::spec_relax(
                m.spec_repr().nodes(),
                m.spec_repr().edges(),
                apply_positions(feature.model(), 0, Topo::empty(), no_positions()),
                crate::dynamics::RELAX_THRESHOLD as int,
                crate::dynamics::RELAX_MAX_ITERS as nat,
            ),
    {
        let mut repr = MoleculeRepr::new();
        proof {
            assert(repr_matches(repr, Topo::empty()));
        }
        let _seed = feature.apply(0, &mut repr, &table);
        repr.relax(&table);
        let mut features = FeatureList::new();
        let _id = features.push_back(feature);
        let m = Molecule {
            repr,
            features,
            history_step: 1,
            checkpoints: Vec::new(),
            dirty_step: 1,
            table,
            transform: Transform::identity(),
            replay_errors: Vec::new(),
        };
        proof {
            assert(m.timeline() =~= seq![(0u64, feature.model())]);
            let prefix = m.timeline().subrange(0, 1);
            assert(prefix =~= m.timeline());
            assert(prefix.drop_last() =~= Seq::<(u64, FeatureModel)>::empty());
            assert(prefix.last() == (0u64, feature.model()));
            assert(replay(prefix.drop_last()) == Topo::empty());
            assert(replay(prefix) == apply_topo(feature.model(), 0, Topo::empty()));
            assert(repr_matches(m.repr, replay(prefix)));
        }
        m
    }

    /// The feature timeline.
    pub fn features(&self) -> (r: &FeatureList)
        ensures
            r@ == self.timeline(),
    {
        &self.features
    }

    /// The current history step.
    pub fn history_step(&self) -> (r: usize)
        ensures
            r == self.spec_history_step(),
    {
        self.history_step
    }

    /// The current dirty-step watermark.
    pub fn dirty_step(&self) -> (r: usize)
        ensures
            r == self.spec_dirty_step(),
    {
        self.dirty_step
    }

    /// The ids of the features whose application failed (and was skipped)
    /// during the most recent seek, in timeline order.
    pub fn replay_errors(&self) -> (r: &Vec<u64>)
        ensures
            r@ == self.spec_replay_errors(),
    {
        &self.replay_errors
    }

    /// Inserts a feature at the current history step.  The materialized
    /// state is untouched; cached checkpoints past the insertion point
    /// become untrusted (the watermark drops to the insertion point).
    pub fn push_feature(&mut self, feature: Feature)
        requires
            old(self).wf(),
            old(self).timeline().len() < 0x10000000000000,
        ensures
            final(self).wf(),
            final(self).timeline() == old(self).timeline().insert(
                old(self).spec_history_step(),
                (old(self).timeline().len() as u64, feature.model()),
            ),
            final(self).spec_history_step() == old(self).spec_history_step(),
            final(self).spec_dirty_step() == if old(self).spec_dirty_step() < old(
                self,
            ).spec_history_step() {
                old(self).spec_dirty_step()
            } else {
                old(self).spec_history_step()
            },
            final(self).spec_repr() == old(self).spec_repr(),
            final(self).spec_cache() == old(self).spec_cache(),
            final(self).spec_table() == old(self).spec_table(),
    {
        let position = self.history_step;
        let _id = self.features.insert(feature, position);
        if self.history_step < self.dirty_step {
            self.dirty_step = self.history_step;
        }
        proof {
            let pre = *old(self);
            let post = *self;
            let x = (pre.timeline().len() as u64, feature.model());
            lemma_insert_prefix(
                pre.timeline(),
                x,
                position as int,
                pre.spec_history_step(),
            );
            assert forall|i: int| 0 <= i < post.checkpoints@.len() implies {
                &&& (#[trigger] post.checkpoints@[i]).0 <= post.features@.len()
                &&& post.checkpoints@[i].1.wf()
                &&& post.checkpoints@[i].0 <= post.dirty_step ==> cp_matches(
                    post.checkpoints@[i].1,
                    replay(post.features@.subrange(0, post.checkpoints@[i].0 as int)),
                )
            } by {
                let k = post.checkpoints@[i].0;
                if k <= post.dirty_step {
                    lemma_insert_prefix(pre.timeline(), x, position as int, k as int);
                    assert(cp_matches(
                        pre.checkpoints@[i].1,
                        replay(pre.features@.subrange(0, k as int)),
                    ));
                }
            }
        }
    }
}

/// After evicting untrusted entries and optionally caching a fresh, honest
/// snapshot at the target step, the checkpoint cache is well formed again:
/// keys distinct and within the timeline, every entry well formed, and
/// every entry within the new watermark `target` the replay of its prefix.
proof fn lemma_final_cache_wf(
    timeline: Seq<(u64, FeatureModel)>,
    cache0: Seq<(usize, MoleculeCheckpoint)>,
    cache1: Seq<(usize, MoleculeCheckpoint)>,
    newcache: Seq<(usize, MoleculeCheckpoint)>,
    dirty0: int,
    target: int,
    pushed: Option<(usize, MoleculeCheckpoint)>,
)
    requires
        forall|i: int|
            0 <= i < cache0.len() ==> (#[trigger] cache0[i]).0 <= timeline.len() && cache0[i].1.wf()
                && (cache0[i].0 <= dirty0 ==> cp_matches(
                cache0[i].1,
                replay(timeline.subrange(0, cache0[i].0 as int)),
            )),
        forall|i: int|
            0 <= i < cache1.len() ==> (#[trigger] cache1[i]).0 <= dirty0 && exists|j: int|
                0 <= j < cache0.len() && cache0[j] == cache1[i],
        forall|i1: int, i2: int|
            0 <= i1 < i2 < cache1.len() ==> (#[trigger] cache1[i1]).0 != (#[trigger] cache1[i2]).0,
        0 <= target <= timeline.len(),
        match pushed {
            None => newcache == cache1,
            Some(e) => {
                &&& newcache == cache1.push(e)
                &&& e.0 == target
                &&& e.1.wf()
                &&& cp_matches(e.1, replay(timeline.subrange(0, target)))
                &&& forall|i: int| 0 <= i < cache1.len() ==> (#[trigger] cache1[i]).0 != target
            },
        },
    ensures
        forall|i: int|
            0 <= i < newcache.len() ==> (#[trigger] newcache[i]).0 <= timeline.len()
                && newcache[i].1.wf() && (newcache[i].0 <= target ==> cp_matches(
                newcache[i].1,
                replay(timeline.subrange(0, newcache[i].0 as int)),
            )),
        forall|i1: int, i2: int|
            0 <= i1 < i2 < newcache.len() ==> (#[trigger] newcache[i1]).0 != (
            #[trigger] newcache[i2]).0,
{
    assert forall|i: int| 0 <= i < newcache.len() implies (#[trigger] newcache[i]).0
        <= timeline.len() && newcache[i].1.wf() && (newcache[i].0 <= target ==> cp_matches(
        newcache[i].1,
        replay(timeline.subrange(0, newcache[i].0 as int)),
    )) by {
        if i < cache1.len() {
            assert(newcache[i] == cache1[i]);
            let j = choose|j: int| 0 <= j < cache0.len() && cache0[j] == cache1[i];
            assert(cache0[j].0 <= dirty0);
        }
    }
    assert forall|i1: int, i2: int|
        0 <= i1 < i2 < newcache.len() implies (#[trigger] newcache[i1]).0 != (
    #[trigger] newcache[i2]).0 by {
        if i2 == cache1.len() {
            assert(newcache[i1] == cache1[i1]);
        } else {
            assert(newcache[i1] == cache1[i1] && newcache[i2] == cache1[i2]);
        }
    }
}

/// The finishing argument of a seek: with the evicted cache, the best-scan
/// outcome, the restore facts and the optionally pushed snapshot in hand,
/// the final cache holds the materialized state at the target; a trusted
/// pre-existing checkpoint exactly at the target was restored verbatim; and
/// unless the seek could stop at the target without replaying, the resume
/// point lies strictly before the target.
#[verifier::rlimit(100)]
proof fn lemma_seek_finish(
    pre: Molecule,
    post: Molecule,
    cache0: Seq<(usize, MoleculeCheckpoint)>,
    cache1: Seq<(usize, MoleculeCheckpoint)>,
    dirty0: int,
    target: int,
    best: Option<usize>,
    hist1: int,
    repr1: MoleculeRepr,
    has_target: bool,
    pushed: Option<(usize, MoleculeCheckpoint)>,
)
    requires
        pre.wf(),
        cache0 == pre.spec_cache(),
        dirty0 == pre.spec_dirty_step(),
        0 <= target <= pre.timeline().len(),
        forall|i: int|
            0 <= i < cache1.len() ==> (#[trigger] cache1[i]).0 <= dirty0 && exists|j: int|
                0 <= j < cache0.len() && cache0[j] == cache1[i],
        forall|j: int|
            0 <= j < cache0.len() && (#[trigger] cache0[j]).0 <= dirty0 ==> exists|i: int|
                0 <= i < cache1.len() && #[trigger] cache1[i] == cache0[j],
        forall|i1: int, i2: int|
            0 <= i1 < i2 < cache1.len() ==> (#[trigger] cache1[i1]).0 != (#[trigger] cache1[i2]).0,
        match best {
            Some(bi) => 0 <= bi < cache1.len() && cache1[bi as int].0 <= target && forall|j: int|
                0 <= j < cache1.len() && (#[trigger] cache1[j]).0 <= target ==> cache1[j].0
                    <= cache1[bi as int].0,
            None => forall|j: int| 0 <= j < cache1.len() ==> (#[trigger] cache1[j]).0 > target,
        },
        match best {
            Some(bi) => hist1 == cache1[bi as int].0 && repr1.nodes() == cache1[bi as int].1.nodes()
                && repr1.edges() == cache1[bi as int].1.edges() && repr1.positions_map()
                == cache1[bi as int].1.positions_map(),
            None => hist1 == if pre.spec_history_step() > target {
                0
            } else {
                pre.spec_history_step()
            },
        },
        hist1 == target ==> post.spec_repr() == repr1,
        has_target == cache_has(cache1, target),
        has_target ==> post.spec_cache() == cache1,
        !has_target ==> match pushed {
            Some(e) => post.spec_cache() == cache1.push(e) && e.0 == target && e.1.nodes()
                == post.spec_repr().nodes() && e.1.edges() == post.spec_repr().edges()
                && e.1.positions_map() == post.spec_repr().positions_map(),
            None => false,
        },
    ensures
        pre.cache_trusted_at(target) ==> {
            &&& post.spec_repr().nodes() == cache_at(cache0, target).nodes()
            &&& post.spec_repr().edges() == cache_at(cache0, target).edges()
            &&& post.spec_repr().positions_map() == cache_at(cache0, target).positions_map()
        },
        cache_has(post.spec_cache(), target),
        cache_at(post.spec_cache(), target).nodes() == post.spec_repr().nodes(),
        cache_at(post.spec_cache(), target).edges() == post.spec_repr().edges(),
        cache_at(post.spec_cache(), target).positions_map() == post.spec_repr().positions_map(),
        !pre.cache_trusted_at(target) && pre.spec_history_step() != target && target > 0
            ==> hist1 < target,
{
    // The final cache's keys are distinct.
    assert forall|i1: int, i2: int|
        0 <= i1 < i2 < post.spec_cache().len() implies (#[trigger] post.spec_cache()[i1]).0 != (
    #[trigger] post.spec_cache()[i2]).0 by {
        if !has_target && i2 == cache1.len() {
            assert(post.spec_cache()[i1] == cache1[i1]);
            assert(cache1[i1].0 != target);
        } else {
            assert(post.spec_cache()[i1] == cache1[i1] && post.spec_cache()[i2] == cache1[i2]);
        }
    }
    if has_target {
        let w2 = choose|w2: int| 0 <= w2 < cache1.len() && (#[trigger] cache1[w2]).0 == target;
        assert(best is Some);
        let bi = best.unwrap() as int;
        assert(cache1[bi].0 == target);
        if w2 != bi {
            assert(cache1[w2].0 != cache1[bi].0);
        }
        assert(hist1 == target);
        assert(post.spec_repr() == repr1);
        lemma_cache_at(cache1, target, bi);
    } else {
        let e = pushed.unwrap();
        assert(post.spec_cache()[cache1.len() as int] == e);
        lemma_cache_at(post.spec_cache(), target, cache1.len() as int);
    }
    if pre.cache_trusted_at(target) {
        let w = choose|w: int| 0 <= w < cache0.len() && (#[trigger] cache0[w]).0 == target;
        assert(cache0[w].0 <= dirty0);
        let ik = choose|i3: int| 0 <= i3 < cache1.len() && #[trigger] cache1[i3] == cache0[w];
        assert(cache1[ik] == cache0[w]);
        assert(cache1[ik].0 == target);
        assert(has_target) by {
            if !has_target {
                assert(cache1[ik].0 != target);
            }
        }
        assert(best is Some);
        let bi = best.unwrap() as int;
        assert(cache1[bi].0 == target);
        if ik != bi {
            assert(cache1[ik].0 != cache1[bi].0);
        }
        lemma_cache_at(cache0, target, w);
        assert(post.spec_repr().nodes() == cache0[w].1.nodes());
        assert(post.spec_repr().edges() == cache0[w].1.edges());
        assert(post.spec_repr().positions_map() == cache0[w].1.positions_map());
    }
    if !pre.cache_trusted_at(target) && pre.spec_history_step() != target && target > 0 {
        if hist1 == target {
            match best {
                Some(bi) => {
                    if cache1[bi as int].0 == target {
                        let jj = choose|j: int|
                            0 <= j < cache0.len() && cache0[j] == cache1[bi as int];
                        assert(cache0[jj].0 == target && cache0[jj].0 <= dirty0);
                        assert(cache_has(cache0, target));
                        assert(pre.cache_trusted_at(target));
                    }
                },
                None => {},
            }
            assert(false);
        }
    }
}

/// What one seek guarantees, relating the molecule before the call to the
/// molecule after it.  After seeking to `target`, the materialized
/// topology is the replay of the first `target` timeline entries; a
/// trusted cached checkpoint at exactly `target` is restored verbatim
/// (graph, positions and all); and the cache afterwards holds a trusted
/// checkpoint at `target` whose state is exactly the materialized state.
pub open spec fn seek_rel(pre: Molecule, post: Molecule, target: int) -> bool {
    &&& post.wf()
    &&& post.timeline() == pre.timeline()
    &&& post.spec_table() == pre.spec_table()
    &&& post.spec_history_step() == target
    &&& post.spec_dirty_step() == target
    &&& repr_matches(post.spec_repr(), replay(pre.timeline().subrange(0, target)))
    &&& pre.cache_trusted_at(target) ==> {
        &&& post.spec_repr().nodes() == cache_at(pre.spec_cache(), target).nodes()
        &&& post.spec_repr().edges() == cache_at(pre.spec_cache(), target).edges()
        &&& post.spec_repr().positions_map() == cache_at(pre.spec_cache(), target).positions_map()
    }
    &&& post.cache_trusted_at(target)
    &&& cache_at(post.spec_cache(), target).nodes() == post.spec_repr().nodes()
    &&& cache_at(post.spec_cache(), target).edges() == post.spec_repr().edges()
    &&& cache_at(post.spec_cache(), target).positions_map() == post.spec_repr().positions_map()
}

/// Seeking to the same step twice in a row leaves the materialized state
/// exactly as the first seek left it: the first seek cached a checkpoint
/// of its result at the target step, and the second seek restores it.
pub proof fn lemma_seek_idempotent(m0: Molecule, m1: Molecule, m2: Molecule, target: int)
    requires
        seek_rel(m0, m1, target),
        seek_rel(m1, m2, target),
    ensures
        m2.spec_repr().nodes() == m1.spec_repr().nodes(),
        m2.spec_repr().edges() == m1.spec_repr().edges(),
        m2.spec_repr().positions_map() == m1.spec_repr().positions_map(),
{
}

/// The index of the cache entry with the greatest step at or before
/// `target`, if any entry qualifies.
fn best_checkpoint_index(c: &Vec<(usize, MoleculeCheckpoint)>, target: usize) -> (r: Option<usize>)
    ensures
        match r {
            Some(i) => i < c@.len() && c@[i as int].0 <= target && forall|j: int|
                0 <= j < c@.len() && (#[trigger] c@[j]).0 <= target ==> c@[j].0 <= c@[i as int].0,
            None => forall|j: int| 0 <= j < c@.len() ==> (#[trigger] c@[j]).0 > target,
        },
{
    let n = c.len();
    let mut best_idx: usize = 0;
    let mut have_best: bool = false;
    let mut i: usize = 0;
    while i < n
        invariant
            0 <= i <= n,
            n == c@.len(),
            have_best ==> 0 <= best_idx < i && c@[best_idx as int].0 <= target,
            have_best ==> forall|j: int|
                0 <= j < i && (#[trigger] c@[j]).0 <= target ==> c@[j].0 <= c@[best_idx as int].0,
            !have_best ==> forall|j: int| 0 <= j < i ==> (#[trigger] c@[j]).0 > target,
        decreases n - i,
    {
        let step = c[i].0;
        if step <= target && (!have_best || step > c[best_idx].0) {
            best_idx = i;
            have_best = true;
        }
        i = i + 1;
    }
    if have_best {
        Some(best_idx)
    } else {
        None
    }
}

impl Molecule {
    /// Drops every cached checkpoint past the dirty-step watermark: an
    /// earlier insertion made them untrustworthy.  Trusted entries all
    /// survive; nothing else changes.
    fn evict_untrusted(&mut self)
        requires
            old(self).wf(),
        ensures
            final(self).wf(),
            final(self).repr == old(self).repr,
            final(self).features == old(self).features,
            final(self).history_step == old(self).history_step,
            final(self).dirty_step == old(self).dirty_step,
            final(self).table == old(self).table,
            final(self).transform == old(self).transform,
            final(self).replay_errors == old(self).replay_errors,
            forall|i: int|
                0 <= i < final(self).checkpoints@.len() ==> (#[trigger] final(self).checkpoints@[i]).0
                    <= old(self).dirty_step && exists|j: int|
                    0 <= j < old(self).checkpoints@.len() && old(self).checkpoints@[j]
                        == final(self).checkpoints@[i],
            forall|j: int|
                0 <= j < old(self).checkpoints@.len() && (#[trigger] old(self).checkpoints@[j]).0
                    <= old(self).dirty_step ==> exists|i: int|
                    0 <= i < final(self).checkpoints@.len() && #[trigger] final(self).checkpoints@[i]
                        == old(self).checkpoints@[j],
            final(self).checkpoints@.len() <= old(self).checkpoints@.len(),
    {
        let ghost pre = *old(self);
        let ghost cache0 = self.checkpoints@;
        let dirty0 = self.dirty_step;
        let mut kept: Vec<(usize, MoleculeCheckpoint)> = Vec::new();
        while self.checkpoints.len() > 0
            invariant
                pre.wf(),
                dirty0 == pre.dirty_step,
                cache0 == pre.checkpoints@,
                self.checkpoints@.len() <= cache0.len(),
                self.checkpoints@ == cache0.subrange(0, self.checkpoints@.len() as int),
                kept@.len() + self.checkpoints@.len() <= cache0.len(),
                forall|i: int|
                    0 <= i < kept@.len() ==> (#[trigger] kept@[i]).0 <= dirty0 && exists|j: int|
                        self.checkpoints@.len() <= j < cache0.len() && cache0[j] == #[trigger] kept@[i],
                forall|j: int|
                    self.checkpoints@.len() <= j < cache0.len() && (#[trigger] cache0[j]).0
                        <= dirty0 ==> exists|i: int|
                        0 <= i < kept@.len() && #[trigger] kept@[i] == cache0[j],
                forall|i1: int, i2: int|
                    0 <= i1 < i2 < kept@.len() ==> (#[trigger] kept@[i1]).0 != (
                    #[trigger] kept@[i2]).0,
                self.repr == pre.repr,
                self.features == pre.features,
                self.history_step == pre.history_step,
                self.dirty_step == dirty0,
                self.table == pre.table,
                self.transform == pre.transform,
                self.replay_errors == pre.replay_errors,
            decreases self.checkpoints@.len(),
        {
            let ghost rem_pre = self.checkpoints@;
            let e = self.checkpoints.pop().unwrap();
            proof {
                assert(e == cache0[rem_pre.len() - 1]);
                assert(self.checkpoints@ =~= cache0.subrange(0, self.checkpoints@.len() as int));
            }
            let ghost kept_pre = kept@;
            if e.0 <= dirty0 {
                kept.push(e);
                proof {
                    assert forall|i1: int, i2: int|
                        0 <= i1 < i2 < kept@.len() implies (#[trigger] kept@[i1]).0 != (
                    #[trigger] kept@[i2]).0 by {
                        if i2 == kept@.len() - 1 {
                            let j1 = choose|j: int|
                                rem_pre.len() <= j < cache0.len() && cache0[j] == #[trigger] kept_pre[i1];
                            assert(cache0[rem_pre.len() - 1].0 != cache0[j1].0);
                        }
                    }
                }
            }
            proof {
                assert forall|i: int| 0 <= i < kept@.len() implies (#[trigger] kept@[i]).0
                    <= dirty0 && exists|j: int|
                    self.checkpoints@.len() <= j < cache0.len() && cache0[j] == kept@[i] by {
                    if i < kept_pre.len() {
                        let j0 = choose|j: int|
                            rem_pre.len() <= j < cache0.len() && cache0[j] == kept_pre[i];
                        assert(self.checkpoints@.len() <= j0 < cache0.len() && cache0[j0]
                            == kept@[i]);
                    } else {
                        assert(kept@[i] == e);
                        assert(cache0[rem_pre.len() - 1] == kept@[i]);
                    }
                }
                assert forall|j: int|
                    self.checkpoints@.len() <= j < cache0.len() && (#[trigger] cache0[j]).0
                        <= dirty0 implies exists|i: int|
                    0 <= i < kept@.len() && #[trigger] kept@[i] == cache0[j] by {
                    if j >= rem_pre.len() {
                        let i0 = choose|i: int|
                            0 <= i < kept_pre.len() && kept_pre[i] == cache0[j];
                        assert(kept@[i0] == cache0[j]);
                    } else {
                        assert(j == rem_pre.len() - 1);
                        assert(kept@[kept@.len() - 1] == cache0[j]);
                    }
                }
            }
        }
        self.checkpoints = kept;
        proof {
            let post = *self;
            assert forall|i: int| 0 <= i < post.checkpoints@.len() implies {
                &&& (#[trigger] post.checkpoints@[i]).0 <= post.features@.len()
                &&& post.checkpoints@[i].1.wf()
                &&& post.checkpoints@[i].0 <= post.dirty_step ==> cp_matches(
                    post.checkpoints@[i].1,
                    replay(post.features@.subrange(0, post.checkpoints@[i].0 as int)),
                )
            } by {
                let j0 = choose|j: int| 0 <= j < cache0.len() && cache0[j] == post.checkpoints@[i];
                assert(cache0[j0] == post.checkpoints@[i]);
            }
            assert(post.wf());
        }
    }
}

impl Molecule {
    /// Seeks the history cursor to `target`, materializing exactly the
    /// first `target` features of the timeline.  Untrusted checkpoints are
    /// evicted; the best trusted checkpoint at or before `target` is
    /// restored; the remaining features are replayed in order (a feature
    /// that fails to apply is recorded in `replay_errors` and skipped, not
    /// rolled back), relaxing positions after each; and the result is
    /// cached as a checkpoint at `target`.  Whenever the replay loop runs,
    /// the committed positions are the relaxation of the final graph over
    /// the last feature's placements — never raw, unrelaxed placements.
    #[verifier::rlimit(100)]
    pub fn set_history_step(&mut self, target: usize)
        requires
            old(self).wf(),
            target <= old(self).timeline().len(),
        ensures
            seek_rel(*old(self), *final(self), target as int),
            final(self).spec_transform() == old(self).spec_transform(),
            final(self).spec_cache().len() <= old(self).spec_cache().len() + 1,
            exists|resume: int|
                0 <= resume <= target && final(self).spec_replay_errors() == #[trigger] failed_ids(
                    old(self).timeline(),
                    resume,
                    target as int,
                ),
            !old(self).cache_trusted_at(target as int) && old(self).spec_history_step()
                != target && target > 0 ==> exists|pm: Map<AtomSpecifier, Pos>|
                final(self).spec_repr().positions_map() == #[trigger] crate::dynamics::spec_relax(
                    final(self).spec_repr().nodes(),
                    final(self).spec_repr().edges(),
                    apply_positions(
                        old(self).timeline()[target - 1].1,
                        old(self).timeline()[target - 1].0,
                        replay(old(self).timeline().subrange(0, target - 1)),
                        pm,
                    ),
                    crate::dynamics::RELAX_THRESHOLD as int,
                    crate::dynamics::RELAX_MAX_ITERS as nat,
                ),
    {
        self.replay_errors = Vec::new();
        let ghost pre = *old(self);
        let ghost cache0 = self.checkpoints@;
        let dirty0 = self.dirty_step;

        // Evict checkpoints past the watermark: they were invalidated by an
        // insertion into their prefix.
        self.evict_untrusted();
        let ghost cache1 = self.checkpoints@;

        proof {
            assert(forall|i1: int, i2: int|
                0 <= i1 < i2 < cache1.len() ==> (#[trigger] cache1[i1]).0 != (
                #[trigger] cache1[i2]).0);
        }

        // Pick the best usable checkpoint: the greatest cached step at or
        // before the target.
        let best = best_checkpoint_index(&self.checkpoints, target);

        // Restore from the best checkpoint, or restart from scratch when
        // seeking backward past every cache entry.
        match best {
            Some(best_idx) => {
                let step = self.checkpoints[best_idx].0;
                let cp = self.checkpoints[best_idx].1.duplicate();
                proof {
                    assert(self.checkpoints@[best_idx as int].1.wf());
                }
                self.repr.set_checkpoint(cp, &self.table);
                self.history_step = step;
                proof {
                    let e = cache1[best_idx as int];
                    let jj = choose|j: int| 0 <= j < cache0.len() && cache0[j] == e;
                    assert(cache0[jj] == e && e.0 <= dirty0);
                    let t = replay(pre.timeline().subrange(0, e.0 as int));
                    assert(cp_matches(e.1, t));
                    e.1.lemma_same_state(cp);
                    assert forall|a: AtomSpecifier, b: AtomSpecifier, w: u8| #[trigger]
                        self.repr.bond_count(a, b, w) == t.bonds.count((a, b, w)) by {
                        assert(self.repr.bond_count(a, b, w) == cp.cp_bond_count(a, b, w));
                        assert(cp.cp_bond_count(a, b, w) == e.1.cp_bond_count(a, b, w));
                        assert(e.1.cp_bond_count(a, b, w) == t.bonds.count((a, b, w)));
                    }
                    assert(repr_matches(self.repr, t));
                }
            },
            None => {
                if self.history_step > target {
                    self.repr.clear();
                    self.history_step = 0;
                    proof {
                        let prefix = pre.timeline().subrange(0, 0);
                        assert(prefix =~= Seq::<(u64, FeatureModel)>::empty());
                        assert(replay(prefix) == Topo::empty());
                        assert(self.repr.atoms() =~= Topo::empty().atoms);
                        assert(repr_matches(self.repr, replay(prefix)));
                    }
                }
            },
        }

        let ghost repr1 = self.repr;
        let ghost hist1 = self.history_step;
        proof {
            assert(self.replay_errors@ =~= failed_ids(
                pre.timeline(),
                hist1 as int,
                hist1 as int,
            ));
        }
        // Replay the features between the resume point and the target, in
        // timeline order, relaxing after each.
        while self.history_step < target
            invariant
                hist1 == target ==> self.history_step == hist1 && self.repr == repr1,
                self.replay_errors@ == failed_ids(
                    pre.timeline(),
                    hist1 as int,
                    self.history_step as int,
                ),
                hist1 < self.history_step ==> exists|pm: Map<AtomSpecifier, Pos>|
                    self.repr.positions_map() == #[trigger] crate::dynamics::spec_relax(
                        self.repr.nodes(),
                        self.repr.edges(),
                        apply_positions(
                            pre.timeline()[self.history_step - 1].1,
                            pre.timeline()[self.history_step - 1].0,
                            replay(pre.timeline().subrange(0, self.history_step - 1)),
                            pm,
                        ),
                        crate::dynamics::RELAX_THRESHOLD as int,
                        crate::dynamics::RELAX_MAX_ITERS as nat,
                    ),
                hist1 <= self.history_step,
                self.transform == pre.transform,
                self.history_step <= target <= pre.timeline().len(),
                self.features == pre.features,
                self.table == pre.table,
                self.dirty_step == dirty0,
                self.checkpoints@ == cache1,
                self.repr.wf(),
                pre.table.wf(),
                pre.features.wf(),
                repr_matches(
                    self.repr,
                    replay(pre.timeline().subrange(0, self.history_step as int)),
                ),
            decreases target - self.history_step,
        {
            let i = self.history_step;
            let ghost t_i = replay(pre.timeline().subrange(0, i as int));
            let ghost pm_before = self.repr.positions_map();
            let entry = self.features.entry_at(i);
            let fid = entry.0;
            let res = entry.1.apply(fid, &mut self.repr, &self.table);
            proof {
                assert(res is Ok <==> apply_ok(
                    pre.timeline()[i as int].1,
                    pre.timeline()[i as int].0,
                    t_i,
                ));
            }
            if res.is_err() {
                self.replay_errors.push(fid);
            }
            proof {
                // The positions the feature application left behind.
                assert(self.repr.positions_map() == apply_positions(
                    pre.timeline()[i as int].1,
                    pre.timeline()[i as int].0,
                    t_i,
                    pm_before,
                ));
            }
            self.repr.relax(&self.table);
            self.history_step = i + 1;
            proof {
                let prefix1 = pre.timeline().subrange(0, i + 1);
                assert(prefix1.drop_last() =~= pre.timeline().subrange(0, i as int));
                assert(prefix1.last() == pre.timeline()[i as int]);
                assert(repr_matches(self.repr, replay(prefix1)));
                assert(self.repr.positions_map() == crate::dynamics::spec_relax(
                    self.repr.nodes(),
                    self.repr.edges(),
                    apply_positions(
                        pre.timeline()[i as int].1,
                        pre.timeline()[i as int].0,
                        t_i,
                        pm_before,
                    ),
                    crate::dynamics::RELAX_THRESHOLD as int,
                    crate::dynamics::RELAX_MAX_ITERS as nat,
                ));
                if res is Ok {
                    assert(self.replay_errors@ =~= failed_ids(
                        pre.timeline(),
                        hist1 as int,
                        i + 1,
                    ));
                } else {
                    assert(self.replay_errors@ =~= failed_ids(
                        pre.timeline(),
                        hist1 as int,
                        i + 1,
                    ));
                }
            }
        }

        // Cache the result at the target step, unless a checkpoint for the
        // target is already there (then it was just restored verbatim).
        let mut has_target: bool = false;
        let mut j: usize = 0;
        let cache_len2 = self.checkpoints.len();
        while j < cache_len2
            invariant
                0 <= j <= cache_len2,
                cache_len2 == self.checkpoints@.len(),
                has_target ==> cache_has(self.checkpoints@, target as int),
                !has_target ==> forall|i2: int|
                    0 <= i2 < j ==> (#[trigger] self.checkpoints@[i2]).0 != target,
            decreases cache_len2 - j,
        {
            if self.checkpoints[j].0 == target {
                has_target = true;
            }
            j = j + 1;
        }
        let ghost mut pushed: Option<(usize, MoleculeCheckpoint)> = None;
        if !has_target {
            let cp = self.repr.make_checkpoint();
            proof {
                pushed = Some((target, cp));
                lemma_checkpoint_realizes(self.repr, cp);
                let t = replay(pre.timeline().subrange(0, target as int));
                assert forall|a: AtomSpecifier, b: AtomSpecifier, w: u8| #[trigger]
                    cp.cp_bond_count(a, b, w) == t.bonds.count((a, b, w)) by {
                    assert(cp.cp_bond_count(a, b, w) == self.repr.bond_count(a, b, w));
                }
                assert(cp_matches(cp, t));
            }
            self.checkpoints.push((target, cp));
        }
        self.dirty_step = target;
        self.history_step = target;

        proof {
            let post = *self;
            let prefix_t = pre.timeline().subrange(0, target as int);

            // Well-formedness of the final cache.
            assert forall|i: int| 0 <= i < cache0.len() implies (#[trigger] cache0[i]).0
                <= pre.timeline().len() && cache0[i].1.wf() && (cache0[i].0 <= dirty0
                ==> cp_matches(
                cache0[i].1,
                replay(pre.timeline().subrange(0, cache0[i].0 as int)),
            )) by {}
            lemma_final_cache_wf(
                pre.timeline(),
                cache0,
                cache1,
                post.checkpoints@,
                dirty0 as int,
                target as int,
                pushed,
            );
            assert(post.wf());

            assert(post.spec_replay_errors() == failed_ids(
                pre.timeline(),
                hist1 as int,
                target as int,
            ));

            // The finishing argument: restore exactness, the cached
            // snapshot at the target, and (unless the seek could stop at
            // the target without replaying) that the replay loop ran.
            assert(has_target == cache_has(cache1, target as int)) by {
                if !has_target && cache_has(cache1, target as int) {
                    let w = choose|w: int|
                        0 <= w < cache1.len() && (#[trigger] cache1[w]).0 == target as int;
                    assert(false);
                }
            }
            lemma_seek_finish(
                pre,
                post,
                cache0,
                cache1,
                dirty0 as int,
                target as int,
                best,
                hist1 as int,
                repr1,
                has_target,
                pushed,
            );
        }
    }

    /// Seeks to the end of the timeline, materializing every feature.
    pub fn apply_all_features(&mut self)
        requires
            old(self).wf(),
        ensures
            seek_rel(*old(self), *final(self), old(self).timeline().len() as int),
    {
        let n = self.features.len();
        self.set_history_step(n);
    }

    /// Casts a ray against the materialized molecule with the injected
    /// element table; the result is exactly [`MoleculeRepr::get_ray_hit`]'s
    /// (gate, march and first-hit semantics included).
    pub fn get_ray_hit(&self, origin: Pos, direction: Pos) -> (r: Option<AtomSpecifier>)
        requires
            self.wf(),
            origin.wf(),
            dir_wf(direction),
        ensures
            match crate::repr::spec_ray_gate(
                self.spec_repr().spec_bounding_box(),
                self.spec_table().spec_radius(crate::elements::Element(1)),
                origin,
                direction,
            ) {
                None => r is None,
                Some(gate) => {
                    &&& (r is None <==> self.spec_repr().spec_march_misses(
                        self.spec_table(),
                        origin,
                        direction,
                        gate.0,
                        gate.1,
                        gate.2,
                    ))
                    &&& match r {
                        Some(s) => self.spec_repr().spec_sphere_hits(
                            self.spec_table(),
                            s,
                            origin.x + crate::geom::spec_tdiv(
                                self.spec_repr().spec_first_hit(
                                    self.spec_table(),
                                    origin,
                                    direction,
                                    gate.0,
                                    gate.1,
                                    gate.2,
                                ) * direction.x,
                                1000,
                            ),
                            origin.y + crate::geom::spec_tdiv(
                                self.spec_repr().spec_first_hit(
                                    self.spec_table(),
                                    origin,
                                    direction,
                                    gate.0,
                                    gate.1,
                                    gate.2,
                                ) * direction.y,
                                1000,
                            ),
                            origin.z + crate::geom::spec_tdiv(
                                self.spec_repr().spec_first_hit(
                                    self.spec_table(),
                                    origin,
                                    direction,
                                    gate.0,
                                    gate.1,
                                    gate.2,
                                ) * direction.z,
                                1000,
                            ),
                        ),
                        None => true,
                    }
                },
            },
            match r {
                Some(s) => self.spec_repr().atoms().contains_key(s),
                None => true,
            },
    {
        self.repr.get_ray_hit(&self.table, origin, direction)
    }
}

/// Everything a saved structure stores: the timeline, the cursor, the
/// watermark, and the checkpoint cache — never the live graph or
/// positions, which are reconstructed by replaying from a checkpoint.
pub struct SaveData {
    pub features: FeatureList,
    pub history_step: usize,
    pub dirty_step: usize,
    pub transform: Transform,
    pub checkpoints: Vec<(usize, MoleculeCheckpoint)>,
}

/// What makes saved data loadable: a coherent timeline, trusted
/// checkpoints that really are the replay of their prefix, and a trusted
/// checkpoint at the saved history step itself, so that reloading replays
/// no feature at all.
pub open spec fn save_ok(d: SaveData) -> bool {
    &&& d.features.wf()
    &&& d.history_step <= d.features@.len()
    &&& d.history_step <= d.dirty_step
    &&& forall|i: int|
        0 <= i < d.checkpoints@.len() ==> {
            &&& (#[trigger] d.checkpoints@[i]).0 <= d.features@.len()
            &&& d.checkpoints@[i].1.wf()
            &&& d.checkpoints@[i].0 <= d.dirty_step ==> cp_matches(
                d.checkpoints@[i].1,
                replay(d.features@.subrange(0, d.checkpoints@[i].0 as int)),
            )
        }
    &&& forall|i1: int, i2: int|
        0 <= i1 < i2 < d.checkpoints@.len() ==> (#[trigger] d.checkpoints@[i1]).0 != (
        #[trigger] d.checkpoints@[i2]).0
    &&& cache_has(d.checkpoints@, d.history_step as int)
}

impl Molecule {
    /// Packages the molecule for persistence.  A checkpoint of the current
    /// state is always included at the current history step, so reloading
    /// is a single checkpoint restore; untrusted cache entries are left
    /// out.
    #[verifier::rlimit(100)]
    #[verifier::spinoff_prover]
    pub fn save_data(&self) -> (d: SaveData)
        requires
            self.wf(),
        ensures
            save_ok(d),
            d.features@ == self.timeline(),
            d.history_step == self.spec_history_step(),
            d.transform == self.spec_transform(),
            d.dirty_step == if self.spec_dirty_step() > self.spec_history_step() {
                self.spec_dirty_step()
            } else {
                self.spec_history_step()
            },
            d.checkpoints@.len() <= self.spec_cache().len() + 1,
            cache_at(d.checkpoints@, d.history_step as int).nodes() == self.spec_repr().nodes(),
            cache_at(d.checkpoints@, d.history_step as int).edges() == self.spec_repr().edges(),
            cache_at(d.checkpoints@, d.history_step as int).positions_map()
                == self.spec_repr().positions_map(),
            forall|i: int|
                0 <= i < d.checkpoints@.len() ==> (#[trigger] d.checkpoints@[i]).0
                    == self.spec_history_step() || (cache_has(
                    self.spec_cache(),
                    d.checkpoints@[i].0 as int,
                ) && d.checkpoints@[i].0 <= self.spec_dirty_step()),
            forall|j: int|
                0 <= j < self.spec_cache().len() && (#[trigger] self.spec_cache()[j]).0
                    <= self.spec_dirty_step() && self.spec_cache()[j].0 != self.spec_history_step()
                    ==> cache_has(d.checkpoints@, self.spec_cache()[j].0 as int),
    {
        let features = self.features.duplicate();
        let dirty0 = self.dirty_step;
        let history = self.history_step;
        let new_dirty = if dirty0 > history {
            dirty0
        } else {
            history
        };
        let n = self.checkpoints.len();
        let mut out: Vec<(usize, MoleculeCheckpoint)> = Vec::new();
        let mut i: usize = 0;
        while i < n
            invariant
                0 <= i <= n,
                n == self.checkpoints@.len(),
                self.wf(),
                history == self.history_step,
                dirty0 == self.dirty_step,
                forall|k: int|
                    0 <= k < out@.len() ==> {
                        &&& (#[trigger] out@[k]).0 <= dirty0
                        &&& out@[k].0 != history
                        &&& out@[k].0 <= self.features@.len()
                        &&& out@[k].1.wf()
                        &&& cp_matches(
                            out@[k].1,
                            replay(self.features@.subrange(0, out@[k].0 as int)),
                        )
                    },
                forall|k1: int, k2: int|
                    0 <= k1 < k2 < out@.len() ==> (#[trigger] out@[k1]).0 != (
                    #[trigger] out@[k2]).0,
                out@.len() <= i,
                forall|k1: int|
                    0 <= k1 < out@.len() ==> cache_has(
                        self.checkpoints@.subrange(0, i as int),
                        (#[trigger] out@[k1]).0 as int,
                    ),
                forall|j: int|
                    0 <= j < i && (#[trigger] self.checkpoints@[j]).0 <= dirty0
                        && self.checkpoints@[j].0 != history ==> cache_has(
                        out@,
                        self.checkpoints@[j].0 as int,
                    ),
            decreases n - i,
        {
            let entry = &self.checkpoints[i];
            if entry.0 <= dirty0 && entry.0 != history {
                let ghost out_pre = out@;
                let cp = entry.1.duplicate();
                proof {
                    entry.1.lemma_same_state(cp);
                    let t = replay(self.features@.subrange(0, entry.0 as int));
                    assert(cp_matches(entry.1, t));
                    assert forall|a: AtomSpecifier, b: AtomSpecifier, w: u8| #[trigger]
                        cp.cp_bond_count(a, b, w) == t.bonds.count((a, b, w)) by {
                        assert(cp.cp_bond_count(a, b, w) == entry.1.cp_bond_count(a, b, w));
                    }
                    assert(cp_matches(cp, t));
                }
                out.push((entry.0, cp));
                proof {
                    let sub1 = self.checkpoints@.subrange(0, i + 1);
                    assert forall|k1: int, k2: int|
                        0 <= k1 < k2 < out@.len() implies (#[trigger] out@[k1]).0 != (
                    #[trigger] out@[k2]).0 by {
                        if k2 == out@.len() - 1 {
                            let sub0 = self.checkpoints@.subrange(0, i as int);
                            let w = choose|w: int|
                                0 <= w < sub0.len() && (#[trigger] sub0[w]).0 == out_pre[k1].0;
                            assert(self.checkpoints@[w].0 != self.checkpoints@[i as int].0);
                        }
                    }
                    assert(out@[out@.len() - 1] == (entry.0, cp));
                    assert forall|k1: int| 0 <= k1 < out@.len() implies cache_has(
                        sub1,
                        (#[trigger] out@[k1]).0 as int,
                    ) by {
                        if k1 < out_pre.len() {
                            let sub0 = self.checkpoints@.subrange(0, i as int);
                            let w = choose|w: int|
                                0 <= w < sub0.len() && (#[trigger] sub0[w]).0 == out_pre[k1].0;
                            assert(out@[k1] == out_pre[k1]);
                            assert(sub1[w].0 == out@[k1].0);
                            assert(cache_has(sub1, out@[k1].0 as int));
                        } else {
                            assert(out@[k1] == (entry.0, cp));
                            assert(sub1[i as int].0 == out@[k1].0);
                            assert(cache_has(sub1, out@[k1].0 as int));
                        }
                    }
                    assert forall|j: int|
                        0 <= j < i + 1 && (#[trigger] self.checkpoints@[j]).0 <= dirty0
                            && self.checkpoints@[j].0 != history implies cache_has(
                        out@,
                        self.checkpoints@[j].0 as int,
                    ) by {
                        if j < i {
                            let k0 = choose|k2: int|
                                0 <= k2 < out_pre.len() && (#[trigger] out_pre[k2]).0
                                    == self.checkpoints@[j].0;
                            assert(out@[k0] == out_pre[k0]);
                            assert(cache_has(out@, self.checkpoints@[j].0 as int));
                        } else {
                            assert(out@[out@.len() - 1].0 == self.checkpoints@[j].0);
                            assert(cache_has(out@, self.checkpoints@[j].0 as int));
                        }
                    }
                }
            } else {
                proof {
                    let sub1 = self.checkpoints@.subrange(0, i + 1);
                    assert forall|k1: int| 0 <= k1 < out@.len() implies cache_has(
                        sub1,
                        (#[trigger] out@[k1]).0 as int,
                    ) by {
                        let sub0 = self.checkpoints@.subrange(0, i as int);
                        let w = choose|w: int|
                            0 <= w < sub0.len() && (#[trigger] sub0[w]).0 == out@[k1].0;
                        assert(sub1[w].0 == out@[k1].0);
                        assert(cache_has(sub1, out@[k1].0 as int));
                    }
                    assert forall|j: int|
                        0 <= j < i + 1 && (#[trigger] self.checkpoints@[j]).0 <= dirty0
                            && self.checkpoints@[j].0 != history implies cache_has(
                        out@,
                        self.checkpoints@[j].0 as int,
                    ) by {
                        if j == i {
                            assert(!(self.checkpoints@[j].0 <= dirty0 && self.checkpoints@[j].0
                                != history));
                        }
                    }
                }
            }
            i = i + 1;
        }
        let ghost out_pre2 = out@;
        let cp = self.repr.make_checkpoint();
        proof {
            lemma_checkpoint_realizes(self.repr, cp);
            let prefix = self.features@.subrange(0, history as int);
            assert(cp_matches(cp, replay(prefix)));
        }
        out.push((history, cp));
        let d = SaveData {
            features,
            history_step: history,
            dirty_step: new_dirty,
            transform: self.transform,
            checkpoints: out,
        };
        proof {
            lemma_cache_at(d.checkpoints@, history as int, out_pre2.len() as int);
            assert(save_ok(d));
            assert forall|i2: int|
                0 <= i2 < d.checkpoints@.len() implies (#[trigger] d.checkpoints@[i2]).0
                == self.spec_history_step() || (cache_has(
                self.spec_cache(),
                d.checkpoints@[i2].0 as int,
            ) && d.checkpoints@[i2].0 <= self.spec_dirty_step()) by {
                if i2 < out_pre2.len() {
                    assert(d.checkpoints@[i2] == out_pre2[i2]);
                    let subn = self.checkpoints@.subrange(0, n as int);
                    assert(subn =~= self.checkpoints@);
                    let w = choose|w: int|
                        0 <= w < subn.len() && (#[trigger] subn[w]).0 == out_pre2[i2].0;
                    assert(self.spec_cache()[w].0 == d.checkpoints@[i2].0);
                    assert(cache_has(self.spec_cache(), d.checkpoints@[i2].0 as int));
                } else {
                    assert(d.checkpoints@[i2] == (history, cp));
                }
            }
            assert forall|j: int|
                0 <= j < self.spec_cache().len() && (#[trigger] self.spec_cache()[j]).0
                    <= self.spec_dirty_step() && self.spec_cache()[j].0
                    != self.spec_history_step() implies cache_has(
                d.checkpoints@,
                self.spec_cache()[j].0 as int,
            ) by {
                let k1 = choose|k2: int|
                    0 <= k2 < out_pre2.len() && (#[trigger] out_pre2[k2]).0 == self.checkpoints@[
                    j].0;
                assert(d.checkpoints@[k1] == out_pre2[k1]);
                assert(cache_has(d.checkpoints@, self.spec_cache()[j].0 as int));
            }
        }
        d
    }

    /// Rebuilds a molecule from saved data: the timeline, cursor, watermark
    /// and checkpoint cache are adopted, and the materialized state is
    /// reconstructed by seeking to the saved history step (a single
    /// checkpoint restore, since saving forced a checkpoint there).
    pub fn from_save_data(d: SaveData, table: ElementTable) -> (m: Molecule)
        requires
            save_ok(d),
            table.wf(),
        ensures
            m.wf(),
            m.timeline() == d.features@,
            m.spec_history_step() == d.history_step,
            m.spec_dirty_step() == d.history_step,
            m.spec_table() == table,
            m.spec_transform() == d.transform,
            m.spec_repr().nodes() == cache_at(d.checkpoints@, d.history_step as int).nodes(),
            m.spec_repr().edges() == cache_at(d.checkpoints@, d.history_step as int).edges(),
            m.spec_repr().positions_map() == cache_at(
                d.checkpoints@,
                d.history_step as int,
            ).positions_map(),
    {
        let ghost d0 = d;
        let SaveData { features, history_step, dirty_step, transform, checkpoints } = d;
        // Find the forced checkpoint at the saved history step and restore
        // it directly: reloading replays no feature at all.
        let n = checkpoints.len();
        let mut at: usize = 0;
        let mut found: bool = false;
        let mut i: usize = 0;
        while i < n
            invariant
                0 <= i <= n,
                n == checkpoints@.len(),
                checkpoints@ == d0.checkpoints@,
                found ==> at < n && checkpoints@[at as int].0 == history_step,
                !found ==> forall|j: int|
                    0 <= j < i ==> (#[trigger] checkpoints@[j]).0 != history_step,
            decreases n - i,
        {
            if checkpoints[i].0 == history_step {
                at = i;
                found = true;
            }
            i = i + 1;
        }
        proof {
            if !found {
                let w = choose|w: int|
                    0 <= w < d0.checkpoints@.len() && (#[trigger] d0.checkpoints@[w]).0
                        == history_step as int;
                assert(false);
            }
            lemma_cache_at(d0.checkpoints@, history_step as int, at as int);
        }
        let cp = checkpoints[at].1.duplicate();
        let mut repr = MoleculeRepr::new();
        repr.set_checkpoint(cp, &table);
        let m = Molecule {
            repr,
            features,
            history_step,
            checkpoints,
            dirty_step: history_step,
            table,
            transform,
            replay_errors: Vec::new(),
        };
        proof {
            let e = d0.checkpoints@[at as int];
            let t = replay(d0.features@.subrange(0, history_step as int));
            assert(cp_matches(e.1, t));
            e.1.lemma_same_state(cp);
            assert forall|a: AtomSpecifier, b: AtomSpecifier, w: u8| #[trigger]
                m.repr.bond_count(a, b, w) == t.bonds.count((a, b, w)) by {
                assert(m.repr.bond_count(a, b, w) == cp.cp_bond_count(a, b, w));
                assert(cp.cp_bond_count(a, b, w) == e.1.cp_bond_count(a, b, w));
                assert(e.1.cp_bond_count(a, b, w) == t.bonds.count((a, b, w)));
            }
            assert(repr_matches(m.repr, t));
            assert forall|i2: int| 0 <= i2 < m.checkpoints@.len() implies {
                &&& (#[trigger] m.checkpoints@[i2]).0 <= m.features@.len()
                &&& m.checkpoints@[i2].1.wf()
                &&& m.checkpoints@[i2].0 <= m.dirty_step ==> cp_matches(
                    m.checkpoints@[i2].1,
                    replay(m.features@.subrange(0, m.checkpoints@[i2].0 as int)),
                )
            } by {
                assert(d0.checkpoints@[i2].0 <= d0.dirty_step ==> cp_matches(
                    d0.checkpoints@[i2].1,
                    replay(d0.features@.subrange(0, d0.checkpoints@[i2].0 as int)),
                ));
            }
            assert(m.wf());
        }
        m
    }
}

impl Molecule {
    /// Rebuilds a molecule from a bare timeline by replaying it from the
    /// empty molecule up to `target`, trusting nothing but the timeline
    /// itself: no checkpoint is adopted.  This is the slow, revalidating
    /// alternative to [`Molecule::from_save_data`] for data of unknown
    /// provenance.
    pub fn from_timeline(features: FeatureList, target: usize, table: ElementTable) -> (m:
        Molecule)
        requires
            features.wf(),
            target <= features@.len(),
            table.wf(),
        ensures
            m.wf(),
            m.timeline() == features@,
            m.spec_history_step() == target,
            m.spec_dirty_step() == target,
            m.spec_table() == table,
            repr_matches(m.spec_repr(), replay(features@.subrange(0, target as int))),
            target > 0 ==> exists|pm: Map<AtomSpecifier, Pos>|
                m.spec_repr().positions_map() == #[trigger] crate::dynamics::spec_relax(
                    m.spec_repr().nodes(),
                    m.spec_repr().edges(),
                    apply_positions(
                        features@[target - 1].1,
                        features@[target - 1].0,
                        replay(features@.subrange(0, target - 1)),
                        pm,
                    ),
                    crate::dynamics::RELAX_THRESHOLD as int,
                    crate::dynamics::RELAX_MAX_ITERS as nat,
                ),
    {
        let mut m = Molecule {
            repr: MoleculeRepr::new(),
            features,
            history_step: 0,
            checkpoints: Vec::new(),
            dirty_step: 0,
            table,
            transform: Transform::identity(),
            replay_errors: Vec::new(),
        };
        proof {
            let prefix = m.features@.subrange(0, 0);
            assert(prefix =~= Seq::<(u64, FeatureModel)>::empty());
            assert(replay(prefix) == Topo::empty());
            assert(m.repr.atoms() =~= Topo::empty().atoms);
            assert(m.wf());
        }
        let ghost m0 = m;
        m.set_history_step(target);
        proof {
            if target > 0 {
                assert(!m0.cache_trusted_at(target as int)) by {
                    if cache_has(m0.spec_cache(), target as int) {
                        let w = choose|w: int|
                            0 <= w < m0.spec_cache().len() && (#[trigger] m0.spec_cache()[w]).0
                                == target as int;
                        assert(false);
                    }
                }
            }
        }
        m
    }
}

/// Saving at step `k` and loading the result reconstructs the graph
/// topology and the positions at step `k` exactly: the reloaded structure
/// restores the very checkpoint the save recorded.
pub proof fn lemma_save_round_trip(m: Molecule, d: SaveData, m2: Molecule)
    requires
        // What `save_data` guarantees of `d = m.save_data()`:
        d.features@ == m.timeline(),
        d.history_step == m.spec_history_step(),
        cache_at(d.checkpoints@, d.history_step as int).nodes() == m.spec_repr().nodes(),
        cache_at(d.checkpoints@, d.history_step as int).edges() == m.spec_repr().edges(),
        cache_at(d.checkpoints@, d.history_step as int).positions_map()
            == m.spec_repr().positions_map(),
        // What `from_save_data` guarantees of `m2 = Molecule::from_save_data(d, t)`:
        m2.timeline() == d.features@,
        m2.spec_history_step() == d.history_step,
        m2.spec_repr().nodes() == cache_at(d.checkpoints@, d.history_step as int).nodes(),
        m2.spec_repr().edges() == cache_at(d.checkpoints@, d.history_step as int).edges(),
        m2.spec_repr().positions_map() == cache_at(
            d.checkpoints@,
            d.history_step as int,
        ).positions_map(),
    ensures
        m2.timeline() == m.timeline(),
        m2.spec_history_step() == m.spec_history_step(),
        m2.spec_repr().nodes() == m.spec_repr().nodes(),
        m2.spec_repr().edges() == m.spec_repr().edges(),
        m2.spec_repr().positions_map() == m.spec_repr().positions_map(),
{
}

/// Rewriting history is never masked by a stale checkpoint: inserting a
/// feature at position `p` (the history step at the time of the push) and
/// then seeking to any step `k` past it materializes the replay of a
/// prefix that contains the new feature at position `p`.
pub proof fn lemma_no_stale_checkpoint(m0: Molecule, m1: Molecule, m2: Molecule, f: FeatureModel, k: int)
    requires
        // What `push_feature` guarantees of the step from `m0` to `m1`:
        m1.timeline() == m0.timeline().insert(
            m0.spec_history_step(),
            (m0.timeline().len() as u64, f),
        ),
        m0.spec_history_step() <= m0.timeline().len(),
        // What `set_history_step(k)` guarantees of the step from `m1` to `m2`:
        seek_rel(m1, m2, k),
        m0.spec_history_step() < k <= m1.timeline().len(),
    ensures
        repr_matches(
            m2.spec_repr(),
            replay(
                m0.timeline().subrange(0, m0.spec_history_step()) + seq![
                    (m0.timeline().len() as u64, f),
                ] + m0.timeline().subrange(m0.spec_history_step(), k - 1),
            ),
        ),
        m1.timeline().subrange(0, k)[m0.spec_history_step()] == (m0.timeline().len() as u64, f),
{
    lemma_insert_in_prefix(
        m0.timeline(),
        (m0.timeline().len() as u64, f),
        m0.spec_history_step(),
        k,
    );
}

} // verus!
