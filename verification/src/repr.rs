//! The materialized molecule: a stable graph of atoms and bonds, a
//! specifier-to-index map kept bijective with the live atoms, a position for
//! every live atom, and a bounding volume that encloses them all.

use vstd::prelude::*;
use vstd::multiset::Multiset;
use vstd::multiset::group_multiset_axioms;
use vstd::multiset::group_multiset_properties;

use crate::atom::AtomNode;
use crate::elements::Element;
use crate::elements::ElementTable;
use crate::error::FeatureError;
use crate::geom::BoundingBox;
use crate::geom::Pos;
use crate::geom::spec_clamp;
use crate::geom::spec_tdiv;
use crate::graph_ext::g_add_edge;
use crate::graph_ext::g_add_node;
use crate::graph_ext::g_clear;
use crate::graph_ext::g_clone;
use crate::graph_ext::g_new;
use crate::graph_ext::g_node_list;
use crate::graph_ext::g_node_weight;
use crate::graph_ext::g_remove_node;
use crate::graph_ext::graph_edges;
use crate::graph_ext::graph_nodes;
use crate::graph_ext::MoleculeGraph;
use crate::ids::AtomSpecifier;
use crate::spec_map::SpecMap;

verus! {

broadcast use group_multiset_axioms, group_multiset_properties, vstd::seq_lib::group_to_multiset_ensures;

/// The order of a bond: single bond 1, double bond 2, and so on.  Nothing
/// prevents an unrealistic order, but normally a bond has order 1 through 4.
pub type BondOrder = u8;

/// An index that represents an atom inside the graph.  To refer to an atom
/// across edits, use [`AtomSpecifier`] instead: internal indices may be
/// reused by later insertions.
pub type AtomIndex = usize;

/// A map that gives each atom in a molecule a coordinate.
pub type AtomPositions = SpecMap<Pos>;

/// A sequence that enumerates a node map exactly: every entry is a node,
/// every node appears, and the entries are in strictly increasing index
/// order.
pub open spec fn list_matches(nodes: Map<int, AtomNode>, l: Seq<(usize, AtomNode)>) -> bool {
    &&& forall|k: int|
        0 <= k < l.len() ==> nodes.contains_key((#[trigger] l[k]).0 as int) && nodes[l[k].0 as int]
            == l[k].1
    &&& forall|i: int|
        #[trigger] nodes.contains_key(i) ==> exists|k: int|
            0 <= k < l.len() && (#[trigger] l[k]).0 == i
    &&& forall|k1: int, k2: int|
        0 <= k1 < k2 < l.len() ==> (#[trigger] l[k1]).0 < (#[trigger] l[k2]).0
}

/// The enumeration of a node map in increasing index order (meaningful for
/// the node maps of real graphs, which are finite).
pub open spec fn sorted_node_list(nodes: Map<int, AtomNode>) -> Seq<(usize, AtomNode)> {
    choose|l: Seq<(usize, AtomNode)>| #[trigger] list_matches(nodes, l)
}

/// A node map has at most one sorted enumeration.
pub proof fn lemma_list_matches_unique(
    nodes: Map<int, AtomNode>,
    l1: Seq<(usize, AtomNode)>,
    l2: Seq<(usize, AtomNode)>,
)
    requires
        list_matches(nodes, l1),
        list_matches(nodes, l2),
    ensures
        l1 == l2,
    decreases l1.len(),
{
    if l1.len() == 0 {
        if l2.len() > 0 {
            assert(nodes.contains_key(l2[0].0 as int));
            assert(false);
        }
        assert(l1 =~= l2);
    } else if l2.len() == 0 {
        assert(nodes.contains_key(l1[0].0 as int));
        assert(false);
    } else {
        let a = l1.last();
        let b = l2.last();
        // The last entries carry the same (maximal) index.
        let ka = choose|k: int| 0 <= k < l2.len() && (#[trigger] l2[k]).0 == a.0;
        assert(nodes.contains_key(a.0 as int));
        if ka < l2.len() - 1 {
            assert(l2[ka].0 < b.0);
        }
        let kb = choose|k: int| 0 <= k < l1.len() && (#[trigger] l1[k]).0 == b.0;
        assert(nodes.contains_key(b.0 as int));
        if kb < l1.len() - 1 {
            assert(l1[kb].0 < a.0);
        }
        assert(a.0 == b.0);
        assert(a == b);
        let rest = nodes.remove(a.0 as int);
        assert forall|k: int| 0 <= k < l1.drop_last().len() implies rest.contains_key(
            (#[trigger] l1.drop_last()[k]).0 as int,
        ) && rest[l1.drop_last()[k].0 as int] == l1.drop_last()[k].1 by {
            assert(l1[k].0 < a.0);
        }
        assert forall|k: int| 0 <= k < l2.drop_last().len() implies rest.contains_key(
            (#[trigger] l2.drop_last()[k]).0 as int,
        ) && rest[l2.drop_last()[k].0 as int] == l2.drop_last()[k].1 by {
            assert(l2[k].0 < b.0);
        }
        assert forall|i: int| #[trigger] rest.contains_key(i) implies exists|k: int|
            0 <= k < l1.drop_last().len() && (#[trigger] l1.drop_last()[k]).0 == i by {
            let k = choose|k: int| 0 <= k < l1.len() && (#[trigger] l1[k]).0 == i;
            assert(k < l1.len() - 1);
            assert(l1.drop_last()[k].0 == i);
        }
        assert forall|i: int| #[trigger] rest.contains_key(i) implies exists|k: int|
            0 <= k < l2.drop_last().len() && (#[trigger] l2.drop_last()[k]).0 == i by {
            let k = choose|k: int| 0 <= k < l2.len() && (#[trigger] l2[k]).0 == i;
            assert(k < l2.len() - 1);
            assert(l2.drop_last()[k].0 == i);
        }
        assert(list_matches(rest, l1.drop_last()));
        assert(list_matches(rest, l2.drop_last()));
        lemma_list_matches_unique(rest, l1.drop_last(), l2.drop_last());
        assert forall|k: int| 0 <= k < l1.len() implies l1[k] == #[trigger] l2[k] by {
            if k < l1.len() - 1 {
                assert(l1.drop_last()[k] == l1[k]);
                assert(l2.drop_last()[k] == l2[k]);
            }
        }
        assert(l1 =~= l2);
    }
}

/// Any sequence that enumerates the node map is the sorted enumeration.
pub proof fn lemma_sorted_node_list(nodes: Map<int, AtomNode>, l: Seq<(usize, AtomNode)>)
    requires
        list_matches(nodes, l),
    ensures
        sorted_node_list(nodes) == l,
{
    lemma_list_matches_unique(nodes, sorted_node_list(nodes), l);
}

/// The set of specifiers the nodes of a graph carry.
pub open spec fn node_specs(nodes: Map<int, AtomNode>) -> Set<AtomSpecifier> {
    Set::new(|s: AtomSpecifier| exists|i: int| #[trigger] nodes.contains_key(i) && nodes[i].spec == s)
}

/// The concrete representation of the molecule at some point in the feature
/// history.
pub struct MoleculeRepr {
    atom_map: SpecMap<usize>,
    graph: MoleculeGraph,
    bounding_box: BoundingBox,
    render_synced: bool,
    positions: SpecMap<Pos>,
}

impl MoleculeRepr {
    /// The graph's nodes, keyed by stable internal index.
    pub closed spec fn nodes(self) -> Map<int, AtomNode> {
        graph_nodes(self.graph)
    }

    /// The graph's edges as (source index, target index, order) triples.
    pub closed spec fn edges(self) -> Multiset<(int, int, u8)> {
        graph_edges(self.graph)
    }

    /// The specifier-to-index map.
    pub closed spec fn index_map(self) -> Map<AtomSpecifier, usize> {
        self.atom_map@
    }

    /// The live atoms, keyed by their stable specifier.
    pub closed spec fn atoms(self) -> Map<AtomSpecifier, AtomNode> {
        Map::new(
            |s: AtomSpecifier| self.atom_map@.contains_key(s),
            |s: AtomSpecifier| graph_nodes(self.graph)[self.atom_map@[s] as int],
        )
    }

    /// How many bonds of order `w` run from `a` to `b` (in that insertion
    /// orientation).
    pub closed spec fn bond_count(self, a: AtomSpecifier, b: AtomSpecifier, w: u8) -> nat {
        if self.atom_map@.contains_key(a) && self.atom_map@.contains_key(b) {
            graph_edges(self.graph).count(
                (self.atom_map@[a] as int, self.atom_map@[b] as int, w),
            )
        } else {
            0
        }
    }

    /// The position of every live atom.
    pub closed spec fn positions_map(self) -> Map<AtomSpecifier, Pos> {
        self.positions@
    }

    /// The current bounding volume.
    pub closed spec fn spec_bounding_box(self) -> BoundingBox {
        self.bounding_box
    }

    /// Whether the last upload to a renderer is still current.
    pub closed spec fn spec_synced(self) -> bool {
        self.render_synced
    }

    /// The bounding volume is exactly the smallest box around the live
    /// atoms' spheres (at their table radii): empty precisely when there is
    /// no atom; otherwise it contains every atom's sphere and each of its
    /// six faces touches some atom's sphere.
    pub open spec fn bbox_is_tight(self, table: ElementTable) -> bool {
        &&& (self.spec_bounding_box().spec_is_empty() <==> !(exists|s: AtomSpecifier|
            #[trigger] self.positions_map().contains_key(s)))
        &&& forall|s: AtomSpecifier|
            #[trigger] self.positions_map().contains_key(s)
                ==> self.spec_bounding_box().spec_contains_sphere(
                self.positions_map()[s],
                table.spec_radius(self.atoms()[s].element),
            )
        &&& !self.spec_bounding_box().spec_is_empty() ==> {
            &&& exists|s: AtomSpecifier|
                #[trigger] self.positions_map().contains_key(s) && self.positions_map()[s].x
                    - table.spec_radius(self.atoms()[s].element)
                    == self.spec_bounding_box().min.x
            &&& exists|s: AtomSpecifier|
                #[trigger] self.positions_map().contains_key(s) && self.positions_map()[s].y
                    - table.spec_radius(self.atoms()[s].element)
                    == self.spec_bounding_box().min.y
            &&& exists|s: AtomSpecifier|
                #[trigger] self.positions_map().contains_key(s) && self.positions_map()[s].z
                    - table.spec_radius(self.atoms()[s].element)
                    == self.spec_bounding_box().min.z
            &&& exists|s: AtomSpecifier|
                #[trigger] self.positions_map().contains_key(s) && self.positions_map()[s].x
                    + table.spec_radius(self.atoms()[s].element)
                    == self.spec_bounding_box().max.x
            &&& exists|s: AtomSpecifier|
                #[trigger] self.positions_map().contains_key(s) && self.positions_map()[s].y
                    + table.spec_radius(self.atoms()[s].element)
                    == self.spec_bounding_box().max.y
            &&& exists|s: AtomSpecifier|
                #[trigger] self.positions_map().contains_key(s) && self.positions_map()[s].z
                    + table.spec_radius(self.atoms()[s].element)
                    == self.spec_bounding_box().max.z
        }
    }

    /// Everything except the bounding volume: the graph, the specifier map
    /// and the position map agree with one another.
    pub closed spec fn geom_wf(self) -> bool {
        &&& graph_nodes(self.graph).dom().finite()
        &&& forall|i: int|
            #[trigger] graph_nodes(self.graph).contains_key(i) ==> {
                &&& self.atom_map@.contains_key(graph_nodes(self.graph)[i].spec)
                &&& self.atom_map@[graph_nodes(self.graph)[i].spec] as int == i
                &&& graph_nodes(self.graph)[i].element.wf()
            }
        &&& forall|s: AtomSpecifier|
            #[trigger] self.atom_map@.contains_key(s) ==> {
                &&& graph_nodes(self.graph).contains_key(self.atom_map@[s] as int)
                &&& graph_nodes(self.graph)[self.atom_map@[s] as int].spec == s
            }
        &&& forall|s: AtomSpecifier|
            self.atom_map@.contains_key(s) <==> #[trigger] self.positions@.contains_key(s)
        &&& forall|s: AtomSpecifier|
            #[trigger] self.positions@.contains_key(s) ==> self.positions@[s].wf()
        &&& forall|e: (int, int, u8)|
            #[trigger] graph_edges(self.graph).count(e) > 0 ==> graph_nodes(
                self.graph,
            ).contains_key(e.0) && graph_nodes(self.graph).contains_key(e.1)
    }

    /// The full invariant: geometry is coherent and the bounding volume
    /// contains every live atom's position.
    pub closed spec fn wf(self) -> bool {
        &&& self.geom_wf()
        &&& self.bounding_box.wf()
        &&& forall|s: AtomSpecifier|
            #[trigger] self.positions@.contains_key(s) ==> self.bounding_box.spec_contains(
                self.positions@[s],
            )
    }

    /// The full invariant implies the geometric part.
    pub proof fn lemma_wf_geom(self)
        requires
            self.wf(),
        ensures
            self.geom_wf(),
    {
    }

    /// What the invariant gives every caller: atoms and positions share
    /// their key set, positions are in range, and each atom record carries
    /// its own specifier and a covered element.
    pub proof fn lemma_wf_atoms_positions(self)
        requires
            self.wf(),
        ensures
            forall|s: AtomSpecifier|
                self.atoms().contains_key(s) <==> #[trigger] self.positions_map().contains_key(s),
            forall|s: AtomSpecifier|
                #[trigger] self.positions_map().contains_key(s) ==> self.positions_map()[s].wf(),
            forall|s: AtomSpecifier|
                #[trigger] self.atoms().contains_key(s) ==> self.atoms()[s].spec == s
                    && self.atoms()[s].element.wf(),
    {
    }

    /// Distinct live nodes carry distinct specifiers.
    pub proof fn lemma_spec_injective(self, i: int, j: int)
        requires
            self.geom_wf(),
            self.nodes().contains_key(i),
            self.nodes().contains_key(j),
            i != j,
        ensures
            self.nodes()[i].spec != self.nodes()[j].spec,
    {
    }

    /// An empty molecule.
    pub fn new() -> (r: MoleculeRepr)
        ensures
            r.wf(),
            r.atoms() == Map::<AtomSpecifier, AtomNode>::empty(),
            r.positions_map() == Map::<AtomSpecifier, Pos>::empty(),
            forall|a: AtomSpecifier, b: AtomSpecifier, w: u8| #[trigger] r.bond_count(a, b, w) == 0,
            r.edges() == crate::graph_ext::empty_edges(),
            r.spec_bounding_box().spec_is_empty(),
    {
        let r = MoleculeRepr {
            atom_map: SpecMap::new(),
            graph: g_new(),
            bounding_box: BoundingBox::empty(),
            render_synced: false,
            positions: SpecMap::new(),
        };
        proof {
            assert(r.atoms() =~= Map::<AtomSpecifier, AtomNode>::empty());
        }
        r
    }

    /// Looks an atom up by its specifier.
    pub fn find_atom(&self, spec: &AtomSpecifier) -> (r: Option<AtomNode>)
        requires
            self.wf(),
        ensures
            r == if self.atoms().contains_key(*spec) {
                Some(self.atoms()[*spec])
            } else {
                None::<AtomNode>
            },
    {
        match self.atom_map.get(spec) {
            Some(ix) => g_node_weight(&self.graph, ix),
            None => None,
        }
    }

    /// Looks an atom's position up by its specifier.
    pub fn pos(&self, spec: &AtomSpecifier) -> (r: Option<Pos>)
        ensures
            r == if self.positions_map().contains_key(*spec) {
                Some(self.positions_map()[*spec])
            } else {
                None::<Pos>
            },
    {
        self.positions.get(spec)
    }

    /// The current bounding volume.
    pub fn bounding_box(&self) -> (r: BoundingBox)
        ensures
            r == self.spec_bounding_box(),
    {
        self.bounding_box
    }

    /// Whether the last upload to a renderer is still current.
    pub fn is_synced(&self) -> (r: bool)
        ensures
            r == self.spec_synced(),
    {
        self.render_synced
    }

    /// Records that a renderer has consumed the current state.
    pub fn mark_synced(&mut self)
        requires
            old(self).wf(),
        ensures
            final(self).wf(),
            final(self).spec_synced(),
            final(self).atoms() == old(self).atoms(),
            final(self).positions_map() == old(self).positions_map(),
            final(self).nodes() == old(self).nodes(),
            final(self).edges() == old(self).edges(),
            final(self).spec_bounding_box() == old(self).spec_bounding_box(),
            forall|a: AtomSpecifier, b: AtomSpecifier, w: u8|
                #[trigger] final(self).bond_count(a, b, w) == old(self).bond_count(a, b, w),
    {
        self.render_synced = true;
    }

    /// Adds an atom.  Fails with `AtomOverwrite` if the specifier is
    /// already in use, and with `UnknownElement` if the element is not one
    /// the radius table covers; on failure nothing changes.  On success the
    /// atom is recorded with its (clamped) position, the bounding volume
    /// grows around the new atom's sphere, and the render-sync flag drops.
    pub fn add_atom(
        &mut self,
        table: &ElementTable,
        element: Element,
        pos: Pos,
        spec: AtomSpecifier,
        head: Option<AtomSpecifier>,
    ) -> (r: Result<(), FeatureError>)
        requires
            old(self).wf(),
            table.wf(),
        ensures
            final(self).wf(),
            old(self).atoms().contains_key(spec) ==> r == Err::<(), FeatureError>(
                FeatureError::AtomOverwrite,
            ) && *final(self) == *old(self),
            !old(self).atoms().contains_key(spec) && !element.wf() ==> r == Err::<(),
                FeatureError,
            >(FeatureError::UnknownElement) && *final(self) == *old(self),
            !old(self).atoms().contains_key(spec) && element.wf() ==> {
                &&& r == Ok::<(), FeatureError>(())
                &&& final(self).atoms() == old(self).atoms().insert(
                    spec,
                    AtomNode { element, spec, head },
                )
                &&& final(self).positions_map() == old(self).positions_map().insert(
                    spec,
                    pos.spec_clamped(),
                )
                &&& final(self).edges() == old(self).edges()
                &&& forall|a: AtomSpecifier, b: AtomSpecifier, w: u8|
                    #[trigger] final(self).bond_count(a, b, w) == old(self).bond_count(a, b, w)
                &&& final(self).spec_bounding_box() == old(self).spec_bounding_box().spec_union(
                    BoundingBox::sphere_box(pos.spec_clamped(), table.spec_radius(element)),
                )
                &&& !final(self).spec_synced()
            },
    {
        if self.atom_map.contains(&spec) {
            proof {
                assert(old(self).atoms().contains_key(spec));
            }
            return Err(FeatureError::AtomOverwrite);
        }
        if !element.is_valid() {
            return Err(FeatureError::UnknownElement);
        }
        let node = AtomNode { element, spec, head };
        let ix = g_add_node(&mut self.graph, node);
        self.atom_map.insert(spec, ix);
        let p = pos.clamped();
        self.positions.insert(spec, p);
        let radius = table.radius(element);
        self.bounding_box.enclose_sphere(p, radius);
        self.render_synced = false;
        proof {
            let pre = *old(self);
            let post = *self;
            assert forall|e: (int, int, u8)| #[trigger]
                graph_edges(post.graph).count(e) > 0 implies graph_nodes(
                post.graph,
            ).contains_key(e.0) && graph_nodes(post.graph).contains_key(e.1) by {
                assert(graph_edges(pre.graph).count(e) > 0);
            }
            assert(post.atoms() =~= pre.atoms().insert(spec, node));
            assert forall|s: AtomSpecifier| #[trigger]
                post.positions@.contains_key(s) implies post.bounding_box.spec_contains(
                post.positions@[s],
            ) by {
                if s != spec {
                    assert(pre.positions@.contains_key(s));
                    assert(pre.bounding_box.spec_contains(pre.positions@[s]));
                }
            }
            assert forall|a: AtomSpecifier, b: AtomSpecifier, w: u8| #[trigger]
                post.bond_count(a, b, w) == pre.bond_count(a, b, w) by {
                if pre.atom_map@.contains_key(a) && pre.atom_map@.contains_key(b) {
                    assert(post.bond_count(a, b, w) == pre.bond_count(a, b, w));
                } else {
                    if post.atom_map@.contains_key(a) && post.atom_map@.contains_key(b) {
                        // At least one of the two is the fresh atom, whose fresh
                        // index no existing edge can touch.
                        if graph_edges(post.graph).count(
                            (post.atom_map@[a] as int, post.atom_map@[b] as int, w),
                        ) > 0 {
                            assert(false);
                        }
                    }
                }
            }
        }
        Ok(())
    }

    /// Removes an atom and every bond that touches it.  Fails with
    /// `BrokenReference` if the specifier is unknown; on failure nothing
    /// changes.  The bounding volume is recomputed from scratch, since
    /// removal cannot shrink it incrementally.
    pub fn remove_atom(&mut self, table: &ElementTable, target: &AtomSpecifier) -> (r: Result<
        (),
        FeatureError,
    >)
        requires
            old(self).wf(),
            table.wf(),
        ensures
            final(self).wf(),
            !old(self).atoms().contains_key(*target) ==> r == Err::<(), FeatureError>(
                FeatureError::BrokenReference,
            ) && *final(self) == *old(self),
            old(self).atoms().contains_key(*target) ==> {
                &&& r == Ok::<(), FeatureError>(())
                &&& final(self).atoms() == old(self).atoms().remove(*target)
                &&& final(self).positions_map() == old(self).positions_map().remove(*target)
                &&& forall|a: AtomSpecifier, b: AtomSpecifier, w: u8|
                    #[trigger] final(self).bond_count(a, b, w) == if a == *target || b == *target {
                        0
                    } else {
                        old(self).bond_count(a, b, w)
                    }
                &&& final(self).bbox_is_tight(*table)
                &&& !final(self).spec_synced()
            },
    {
        let ix = match self.atom_map.get(target) {
            None => {
                return Err(FeatureError::BrokenReference);
            },
            Some(ix) => ix,
        };
        let _removed = g_remove_node(&mut self.graph, ix);
        self.atom_map.remove(*target);
        self.positions.remove(*target);
        self.render_synced = false;
        proof {
            let pre = *old(self);
            let post = *self;
            assert forall|i: int| #[trigger]
                graph_nodes(post.graph).contains_key(i) implies {
                &&& post.atom_map@.contains_key(graph_nodes(post.graph)[i].spec)
                &&& post.atom_map@[graph_nodes(post.graph)[i].spec] as int == i
                &&& graph_nodes(post.graph)[i].element.wf()
            } by {
                assert(graph_nodes(pre.graph).contains_key(i));
                assert(graph_nodes(pre.graph)[i].spec != *target);
            }
            assert forall|e: (int, int, u8)| #[trigger]
                graph_edges(post.graph).count(e) > 0 implies graph_nodes(
                post.graph,
            ).contains_key(e.0) && graph_nodes(post.graph).contains_key(e.1) by {
                assert(graph_edges(pre.graph).count(e) > 0);
            }
            assert(post.atoms() =~= pre.atoms().remove(*target));
            assert forall|a: AtomSpecifier, b: AtomSpecifier, w: u8| #[trigger]
                post.bond_count(a, b, w) == if a == *target || b == *target {
                0nat
            } else {
                pre.bond_count(a, b, w)
            } by {
                if a == *target || b == *target {
                    assert(post.bond_count(a, b, w) == 0);
                } else {
                    if pre.atom_map@.contains_key(a) && pre.atom_map@.contains_key(b) {
                        assert(pre.atom_map@[a] as int != ix as int && pre.atom_map@[b] as int
                            != ix as int);
                    }
                }
            }
        }
        self.recompute_bounding_box(table);
        Ok(())
    }

    /// Adds a bond of the given order between two atoms.  Fails with
    /// `BrokenReference` if either endpoint is unknown; on failure nothing
    /// changes.  Parallel bonds between the same pair are permitted.
    pub fn create_bond(&mut self, a: &AtomSpecifier, b: &AtomSpecifier, order: u8) -> (r: Result<
        (),
        FeatureError,
    >)
        requires
            old(self).wf(),
        ensures
            final(self).wf(),
            !(old(self).atoms().contains_key(*a) && old(self).atoms().contains_key(*b)) ==> r
                == Err::<(), FeatureError>(FeatureError::BrokenReference) && *final(self) == *old(
                self,
            ),
            old(self).atoms().contains_key(*a) && old(self).atoms().contains_key(*b) ==> {
                &&& r == Ok::<(), FeatureError>(())
                &&& final(self).atoms() == old(self).atoms()
                &&& final(self).positions_map() == old(self).positions_map()
                &&& forall|x: AtomSpecifier, y: AtomSpecifier, v: u8|
                    #[trigger] final(self).bond_count(x, y, v) == old(self).bond_count(x, y, v) + (
                    if x == *a && y == *b && v == order {
                        1nat
                    } else {
                        0nat
                    })
                &&& final(self).spec_bounding_box() == old(self).spec_bounding_box()
            },
    {
        let ia = match self.atom_map.get(a) {
            None => {
                return Err(FeatureError::BrokenReference);
            },
            Some(ix) => ix,
        };
        let ib = match self.atom_map.get(b) {
            None => {
                return Err(FeatureError::BrokenReference);
            },
            Some(ix) => ix,
        };
        g_add_edge(&mut self.graph, ia, ib, order);
        proof {
            let pre = *old(self);
            let post = *self;
            assert(post.atoms() =~= pre.atoms());
            assert forall|e: (int, int, u8)| #[trigger]
                graph_edges(post.graph).count(e) > 0 implies graph_nodes(
                post.graph,
            ).contains_key(e.0) && graph_nodes(post.graph).contains_key(e.1) by {
                if e != (ia as int, ib as int, order) {
                    assert(graph_edges(pre.graph).count(e) > 0);
                }
            }
            assert forall|x: AtomSpecifier, y: AtomSpecifier, v: u8| #[trigger]
                post.bond_count(x, y, v) == pre.bond_count(x, y, v) + (if x == *a && y == *b && v
                == order {
                1nat
            } else {
                0nat
            }) by {
                if pre.atom_map@.contains_key(x) && pre.atom_map@.contains_key(y) {
                    if x == *a && y == *b && v == order {
                    } else {
                        // Injectivity: a different specifier pair resolves to a
                        // different index pair, so the inserted triple differs.
                        assert((pre.atom_map@[x] as int, pre.atom_map@[y] as int, v) != (
                        ia as int,
                        ib as int,
                        order,
                        ));
                    }
                }
            }
        }
        Ok(())
    }

    /// Adds an atom bonded to an existing atom: the atom is inserted with
    /// `bond_target` as its head, then a bond of the given order is
    /// created.  If bonding fails the atom stays inserted, mirroring the
    /// sequential contract of the two steps.
    pub fn add_bonded_atom(
        &mut self,
        table: &ElementTable,
        element: Element,
        pos: Pos,
        spec: AtomSpecifier,
        bond_target: AtomSpecifier,
        bond_order: u8,
    ) -> (r: Result<(), FeatureError>)
        requires
            old(self).wf(),
            table.wf(),
        ensures
            final(self).wf(),
            old(self).atoms().contains_key(spec) ==> r == Err::<(), FeatureError>(
                FeatureError::AtomOverwrite,
            ) && *final(self) == *old(self),
            !old(self).atoms().contains_key(spec) && !element.wf() ==> r == Err::<(),
                FeatureError,
            >(FeatureError::UnknownElement) && *final(self) == *old(self),
            !old(self).atoms().contains_key(spec) && element.wf() ==> {
                &&& final(self).atoms() == old(self).atoms().insert(
                    spec,
                    AtomNode { element, spec, head: Some(bond_target) },
                )
                &&& final(self).positions_map() == old(self).positions_map().insert(
                    spec,
                    pos.spec_clamped(),
                )
                &&& (old(self).atoms().contains_key(bond_target) || bond_target == spec) ==> {
                    &&& r == Ok::<(), FeatureError>(())
                    &&& forall|x: AtomSpecifier, y: AtomSpecifier, v: u8|
                        #[trigger] final(self).bond_count(x, y, v) == old(self).bond_count(x, y, v)
                            + (if x == spec && y == bond_target && v == bond_order {
                            1nat
                        } else {
                            0nat
                        })
                }
                &&& !(old(self).atoms().contains_key(bond_target) || bond_target == spec) ==> {
                    &&& r == Err::<(), FeatureError>(FeatureError::BrokenReference)
                    &&& forall|x: AtomSpecifier, y: AtomSpecifier, v: u8|
                        #[trigger] final(self).bond_count(x, y, v) == old(self).bond_count(x, y, v)
                }
            },
    {
        self.add_atom(table, element, pos, spec, Some(bond_target))?;
        let r = self.create_bond(&spec, &bond_target, bond_order);
        proof {
            if !old(self).atoms().contains_key(spec) && element.wf() {
                assert(old(self).bond_count(spec, bond_target, bond_order) == 0);
            }
        }
        r
    }

    /// Resets to the empty molecule.
    pub fn clear(&mut self)
        requires
            old(self).wf(),
        ensures
            final(self).wf(),
            final(self).atoms() == Map::<AtomSpecifier, AtomNode>::empty(),
            final(self).positions_map() == Map::<AtomSpecifier, Pos>::empty(),
            forall|a: AtomSpecifier, b: AtomSpecifier, w: u8|
                #[trigger] final(self).bond_count(a, b, w) == 0,
            final(self).edges() == crate::graph_ext::empty_edges(),
            final(self).spec_bounding_box().spec_is_empty(),
            !final(self).spec_synced(),
    {
        g_clear(&mut self.graph);
        self.atom_map = SpecMap::new();
        self.positions = SpecMap::new();
        self.bounding_box = BoundingBox::empty();
        self.render_synced = false;
        proof {
            assert(self.atoms() =~= Map::<AtomSpecifier, AtomNode>::empty());
        }
    }

    /// Rebuilds the bounding volume from scratch around the current atoms,
    /// leaving it tight.  Needs only geometric coherence, so it can run
    /// while the stored volume is stale.
    #[verifier::rlimit(60)]
    fn recompute_bbox_inner(&mut self, table: &ElementTable)
        requires
            old(self).geom_wf(),
            table.wf(),
        ensures
            final(self).wf(),
            final(self).atom_map@ == old(self).atom_map@,
            final(self).graph == old(self).graph,
            final(self).positions@ == old(self).positions@,
            final(self).spec_synced() == old(self).spec_synced(),
            final(self).bbox_is_tight(*table),
    {
        let list = g_node_list(&self.graph);
        let ghost g0 = self.graph;
        let mut bb = BoundingBox::empty();
        let mut i: usize = 0;
        while i < list.len()
            invariant
                0 <= i <= list@.len(),
                self == old(self),
                self.geom_wf(),
                table.wf(),
                forall|k: int|
                    0 <= k < list@.len() ==> graph_nodes(self.graph).contains_key(
                        (#[trigger] list@[k]).0 as int,
                    ) && graph_nodes(self.graph)[list@[k].0 as int] == list@[k].1,
                bb.wf(),
                bb.spec_is_empty() <==> i == 0,
                forall|k: int|
                    0 <= k < i ==> bb.spec_contains_sphere(
                        self.positions@[(#[trigger] list@[k]).1.spec],
                        table.spec_radius(list@[k].1.element),
                    ),
                i > 0 ==> exists|k: int|
                    0 <= k < i && self.positions@[(#[trigger] list@[k]).1.spec].x
                        - table.spec_radius(list@[k].1.element) == bb.min.x,
                i > 0 ==> exists|k: int|
                    0 <= k < i && self.positions@[(#[trigger] list@[k]).1.spec].y
                        - table.spec_radius(list@[k].1.element) == bb.min.y,
                i > 0 ==> exists|k: int|
                    0 <= k < i && self.positions@[(#[trigger] list@[k]).1.spec].z
                        - table.spec_radius(list@[k].1.element) == bb.min.z,
                i > 0 ==> exists|k: int|
                    0 <= k < i && self.positions@[(#[trigger] list@[k]).1.spec].x
                        + table.spec_radius(list@[k].1.element) == bb.max.x,
                i > 0 ==> exists|k: int|
                    0 <= k < i && self.positions@[(#[trigger] list@[k]).1.spec].y
                        + table.spec_radius(list@[k].1.element) == bb.max.y,
                i > 0 ==> exists|k: int|
                    0 <= k < i && self.positions@[(#[trigger] list@[k]).1.spec].z
                        + table.spec_radius(list@[k].1.element) == bb.max.z,
            decreases list@.len() - i,
        {
            let entry = &list[i];
            let p = self.positions.get(&entry.1.spec).unwrap();
            let radius = table.radius(entry.1.element);
            let ghost bb0 = bb;
            bb.enclose_sphere(p, radius);
            proof {
                assert(bb == bb0.spec_union(BoundingBox::sphere_box(p, radius)));
                assert forall|k: int|
                    0 <= k < i + 1 implies bb.spec_contains_sphere(
                    self.positions@[(#[trigger] list@[k]).1.spec],
                    table.spec_radius(list@[k].1.element),
                ) by {
                    if k < i {
                        assert(bb0.spec_contains_sphere(
                            self.positions@[list@[k].1.spec],
                            table.spec_radius(list@[k].1.element),
                        ));
                    }
                }
            }
            i = i + 1;
        }
        self.bounding_box = bb;
        proof {
            let post = *self;
            let pm = post.positions@;
            assert forall|s: AtomSpecifier| #[trigger]
                pm.contains_key(s) implies post.bounding_box.spec_contains_sphere(
                pm[s],
                table.spec_radius(post.atoms()[s].element),
            ) && post.bounding_box.spec_contains(pm[s]) by {
                assert(post.atom_map@.contains_key(s));
                let ix = post.atom_map@[s];
                assert(graph_nodes(post.graph).contains_key(ix as int));
                let k = choose|k: int|
                    0 <= k < list@.len() && (#[trigger] list@[k]).0 == ix as int;
                assert(list@[k].1 == graph_nodes(post.graph)[ix as int]);
                assert(list@[k].1.spec == s);
                assert(post.atoms()[s] == list@[k].1);
            }
            if !post.bounding_box.spec_is_empty() {
                assert(list@.len() > 0);
                assert(pm.contains_key(list@[0].1.spec));
                assert(post.positions_map().contains_key(list@[0].1.spec));
                assert forall|k: int|
                    0 <= k < list@.len() implies #[trigger] pm.contains_key(list@[k].1.spec)
                        && post.atoms()[list@[k].1.spec] == list@[k].1 by {
                    assert(graph_nodes(post.graph).contains_key(list@[k].0 as int));
                    assert(post.atom_map@.contains_key(list@[k].1.spec));
                }
                let b = post.bounding_box;
                let kx = choose|k: int|
                    0 <= k < list@.len() && pm[(#[trigger] list@[k]).1.spec].x - table.spec_radius(
                        list@[k].1.element,
                    ) == b.min.x;
                assert(pm.contains_key(list@[kx].1.spec) && pm[list@[kx].1.spec].x
                    - table.spec_radius(post.atoms()[list@[kx].1.spec].element) == b.min.x);
                let ky = choose|k: int|
                    0 <= k < list@.len() && pm[(#[trigger] list@[k]).1.spec].y - table.spec_radius(
                        list@[k].1.element,
                    ) == b.min.y;
                assert(pm.contains_key(list@[ky].1.spec) && pm[list@[ky].1.spec].y
                    - table.spec_radius(post.atoms()[list@[ky].1.spec].element) == b.min.y);
                let kz = choose|k: int|
                    0 <= k < list@.len() && pm[(#[trigger] list@[k]).1.spec].z - table.spec_radius(
                        list@[k].1.element,
                    ) == b.min.z;
                assert(pm.contains_key(list@[kz].1.spec) && pm[list@[kz].1.spec].z
                    - table.spec_radius(post.atoms()[list@[kz].1.spec].element) == b.min.z);
                let kx2 = choose|k: int|
                    0 <= k < list@.len() && pm[(#[trigger] list@[k]).1.spec].x + table.spec_radius(
                        list@[k].1.element,
                    ) == b.max.x;
                assert(pm.contains_key(list@[kx2].1.spec) && pm[list@[kx2].1.spec].x
                    + table.spec_radius(post.atoms()[list@[kx2].1.spec].element) == b.max.x);
                let ky2 = choose|k: int|
                    0 <= k < list@.len() && pm[(#[trigger] list@[k]).1.spec].y + table.spec_radius(
                        list@[k].1.element,
                    ) == b.max.y;
                assert(pm.contains_key(list@[ky2].1.spec) && pm[list@[ky2].1.spec].y
                    + table.spec_radius(post.atoms()[list@[ky2].1.spec].element) == b.max.y);
                let kz2 = choose|k: int|
                    0 <= k < list@.len() && pm[(#[trigger] list@[k]).1.spec].z + table.spec_radius(
                        list@[k].1.element,
                    ) == b.max.z;
                assert(pm.contains_key(list@[kz2].1.spec) && pm[list@[kz2].1.spec].z
                    + table.spec_radius(post.atoms()[list@[kz2].1.spec].element) == b.max.z);
                assert(post.bbox_is_tight(*table));
            } else {
                assert(list@.len() == 0);
                assert forall|s: AtomSpecifier| !(#[trigger] post.positions_map().contains_key(
                    s,
                )) by {
                    if pm.contains_key(s) {
                        let ix = post.atom_map@[s];
                        assert(graph_nodes(post.graph).contains_key(ix as int));
                        let k = choose|k: int|
                            0 <= k < list@.len() && (#[trigger] list@[k]).0 == ix as int;
                        assert(false);
                    }
                }
                assert(post.bbox_is_tight(*table));
            }
        }
    }

    /// Recomputes the bounding volume over all live atoms; the volume
    /// cannot shrink incrementally, so removal and relaxation call this.
    pub fn recompute_bounding_box(&mut self, table: &ElementTable)
        requires
            old(self).wf(),
            table.wf(),
        ensures
            final(self).wf(),
            final(self).atoms() == old(self).atoms(),
            final(self).positions_map() == old(self).positions_map(),
            final(self).nodes() == old(self).nodes(),
            final(self).edges() == old(self).edges(),
            forall|a: AtomSpecifier, b: AtomSpecifier, w: u8|
                #[trigger] final(self).bond_count(a, b, w) == old(self).bond_count(a, b, w),
            final(self).spec_synced() == old(self).spec_synced(),
            final(self).bbox_is_tight(*table),
    {
        self.recompute_bbox_inner(table);
        proof {
            assert(final(self).atoms() =~= old(self).atoms());
        }
    }
}

/// A snapshot of the molecule's graph and positions at one history step,
/// without the caches a full representation carries.
pub struct MoleculeCheckpoint {
    graph: MoleculeGraph,
    positions: SpecMap<Pos>,
}

impl MoleculeCheckpoint {
    /// The snapshot's nodes, keyed by stable internal index.
    pub closed spec fn nodes(self) -> Map<int, AtomNode> {
        graph_nodes(self.graph)
    }

    /// The snapshot's edges.
    pub closed spec fn edges(self) -> Multiset<(int, int, u8)> {
        graph_edges(self.graph)
    }

    /// The snapshot's positions.
    pub closed spec fn positions_map(self) -> Map<AtomSpecifier, Pos> {
        self.positions@
    }

    /// Whether the snapshot holds an atom with this specifier.
    pub open spec fn has_atom(self, s: AtomSpecifier) -> bool {
        node_specs(self.nodes()).contains(s)
    }

    /// The index of the atom with specifier `s` (meaningful when present).
    pub open spec fn idx_of(self, s: AtomSpecifier) -> int {
        choose|i: int| #[trigger] self.nodes().contains_key(i) && self.nodes()[i].spec == s
    }

    /// The snapshot's atoms, keyed by specifier.
    pub open spec fn atoms_map(self) -> Map<AtomSpecifier, AtomNode> {
        Map::new(|s: AtomSpecifier| self.has_atom(s), |s: AtomSpecifier| self.nodes()[self.idx_of(s)])
    }

    /// How many bonds of order `w` run from `a` to `b` in the snapshot.
    pub open spec fn cp_bond_count(self, a: AtomSpecifier, b: AtomSpecifier, w: u8) -> nat {
        if self.has_atom(a) && self.has_atom(b) {
            self.edges().count((self.idx_of(a), self.idx_of(b), w))
        } else {
            0
        }
    }

    /// The snapshot is internally coherent: distinct nodes carry distinct
    /// specifiers of covered elements, positions exist exactly for the
    /// atoms, and edges join live nodes.
    pub closed spec fn wf(self) -> bool {
        &&& graph_nodes(self.graph).dom().finite()
        &&& forall|i: int, j: int|
            #[trigger] graph_nodes(self.graph).contains_key(i) && #[trigger] graph_nodes(
                self.graph,
            ).contains_key(j) && i != j ==> graph_nodes(self.graph)[i].spec != graph_nodes(
                self.graph,
            )[j].spec
        &&& forall|i: int|
            #[trigger] graph_nodes(self.graph).contains_key(i) ==> graph_nodes(
                self.graph,
            )[i].element.wf() && self.positions@.contains_key(graph_nodes(self.graph)[i].spec)
        &&& forall|s: AtomSpecifier|
            #[trigger] self.positions@.contains_key(s) ==> node_specs(
                graph_nodes(self.graph),
            ).contains(s)
        &&& forall|s: AtomSpecifier|
            #[trigger] self.positions@.contains_key(s) ==> self.positions@[s].wf()
        &&& forall|e: (int, int, u8)|
            #[trigger] graph_edges(self.graph).count(e) > 0 ==> graph_nodes(
                self.graph,
            ).contains_key(e.0) && graph_nodes(self.graph).contains_key(e.1)
    }

    /// A copy with the same graph and positions.
    pub fn duplicate(&self) -> (r: MoleculeCheckpoint)
        ensures
            r.nodes() == self.nodes(),
            r.edges() == self.edges(),
            r.positions_map() == self.positions_map(),
            self.wf() ==> r.wf(),
    {
        MoleculeCheckpoint { graph: g_clone(&self.graph), positions: self.positions.duplicate() }
    }

    /// Two snapshots with the same graph and positions realize the same
    /// atoms and bond counts.
    pub proof fn lemma_same_state(self, other: MoleculeCheckpoint)
        requires
            self.nodes() == other.nodes(),
            self.edges() == other.edges(),
        ensures
            self.atoms_map() == other.atoms_map(),
            forall|a: AtomSpecifier, b: AtomSpecifier, w: u8|
                #![trigger self.cp_bond_count(a, b, w)]
                #![trigger other.cp_bond_count(a, b, w)]
                self.cp_bond_count(a, b, w) == other.cp_bond_count(a, b, w),
    {
        assert(self.atoms_map() =~= other.atoms_map());
    }
}

/// A snapshot holding a molecule's exact graph and positions realizes the
/// molecule's atoms and bond counts.
pub proof fn lemma_checkpoint_realizes(r: MoleculeRepr, cp: MoleculeCheckpoint)
    requires
        r.wf(),
        cp.nodes() == r.nodes(),
        cp.edges() == r.edges(),
    ensures
        cp.atoms_map() == r.atoms(),
        forall|a: AtomSpecifier, b: AtomSpecifier, w: u8|
            #[trigger] cp.cp_bond_count(a, b, w) == r.bond_count(a, b, w),
{
    assert forall|s: AtomSpecifier| r.atom_map@.contains_key(s) == #[trigger] cp.has_atom(s) by {
        if r.atom_map@.contains_key(s) {
            let ix = r.atom_map@[s] as int;
            assert(graph_nodes(r.graph).contains_key(ix) && graph_nodes(r.graph)[ix].spec == s);
        }
        if cp.has_atom(s) {
            let i = choose|i: int| #[trigger]
                cp.nodes().contains_key(i) && cp.nodes()[i].spec == s;
            assert(graph_nodes(r.graph).contains_key(i));
            assert(r.atom_map@.contains_key(graph_nodes(r.graph)[i].spec));
        }
    }
    assert forall|s: AtomSpecifier| #[trigger]
        cp.has_atom(s) implies cp.idx_of(s) == r.atom_map@[s] as int by {
        let j = cp.idx_of(s);
        assert(cp.nodes().contains_key(j) && cp.nodes()[j].spec == s);
        assert(r.atom_map@[graph_nodes(r.graph)[j].spec] as int == j);
    }
    assert(cp.atoms_map() =~= r.atoms());
}

impl MoleculeRepr {
    /// Snapshots the current graph and positions.
    pub fn make_checkpoint(&self) -> (r: MoleculeCheckpoint)
        requires
            self.wf(),
        ensures
            r.wf(),
            r.nodes() == self.nodes(),
            r.edges() == self.edges(),
            r.positions_map() == self.positions_map(),
    {
        let cp = MoleculeCheckpoint {
            graph: g_clone(&self.graph),
            positions: self.positions.duplicate(),
        };
        proof {
            assert forall|i: int, j: int| #[trigger]
                graph_nodes(cp.graph).contains_key(i) && #[trigger] graph_nodes(
                cp.graph,
            ).contains_key(j) && i != j implies graph_nodes(cp.graph)[i].spec != graph_nodes(
                cp.graph,
            )[j].spec by {
                self.lemma_spec_injective(i, j);
            }
            assert forall|s: AtomSpecifier| #[trigger]
                cp.positions@.contains_key(s) implies node_specs(graph_nodes(cp.graph)).contains(
                s,
            ) by {
                assert(self.atom_map@.contains_key(s));
                let ix = self.atom_map@[s] as int;
                assert(graph_nodes(self.graph).contains_key(ix) && graph_nodes(self.graph)[ix].spec
                    == s);
            }
        }
        cp
    }

    /// Replaces the molecule's graph and positions with a checkpoint's,
    /// rebuilds the specifier-to-index map from the restored graph, and
    /// recomputes the bounding volume (a checkpoint does not store it).
    pub fn set_checkpoint(&mut self, checkpoint: MoleculeCheckpoint, table: &ElementTable)
        requires
            old(self).wf(),
            checkpoint.wf(),
            table.wf(),
        ensures
            final(self).wf(),
            final(self).nodes() == checkpoint.nodes(),
            final(self).edges() == checkpoint.edges(),
            final(self).positions_map() == checkpoint.positions_map(),
            final(self).atoms() == checkpoint.atoms_map(),
            forall|a: AtomSpecifier, b: AtomSpecifier, w: u8|
                #[trigger] final(self).bond_count(a, b, w) == checkpoint.cp_bond_count(a, b, w),
            final(self).bbox_is_tight(*table),
    {
        let ghost cp0 = checkpoint;
        let MoleculeCheckpoint { graph, positions } = checkpoint;
        self.graph = graph;
        self.positions = positions;
        self.atom_map = SpecMap::new();
        let list = g_node_list(&self.graph);
        let ghost g0 = self.graph;
        let mut i: usize = 0;
        while i < list.len()
            invariant
                0 <= i <= list@.len(),
                self.graph == g0,
                g0 == cp0.graph,
                self.positions@ == cp0.positions_map(),
                graph_nodes(g0) == cp0.nodes(),
                cp0.wf(),
                forall|k: int|
                    0 <= k < list@.len() ==> graph_nodes(g0).contains_key(
                        (#[trigger] list@[k]).0 as int,
                    ) && graph_nodes(g0)[list@[k].0 as int] == list@[k].1,
                forall|k1: int, k2: int|
                    0 <= k1 < k2 < list@.len() ==> (#[trigger] list@[k1]).0 < (
                    #[trigger] list@[k2]).0,
                forall|k: int|
                    0 <= k < i ==> self.atom_map@.contains_key((#[trigger] list@[k]).1.spec)
                        && self.atom_map@[list@[k].1.spec] == list@[k].0,
                forall|s: AtomSpecifier|
                    #[trigger] self.atom_map@.contains_key(s) ==> exists|k: int|
                        0 <= k < i && (#[trigger] list@[k]).1.spec == s,
            decreases list@.len() - i,
        {
            let entry = &list[i];
            self.atom_map.insert(entry.1.spec, entry.0);
            proof {
                assert forall|k: int|
                    0 <= k < i + 1 implies self.atom_map@.contains_key(
                    (#[trigger] list@[k]).1.spec,
                ) && self.atom_map@[list@[k].1.spec] == list@[k].0 by {
                    if k < i {
                        // The new entry's specifier differs: distinct indices
                        // carry distinct specifiers.
                        assert(list@[k].0 < list@[i as int].0);
                        assert(list@[k].1.spec != list@[i as int].1.spec);
                    }
                }
            }
            i = i + 1;
        }
        proof {
            let post = *self;
            assert forall|i2: int| #[trigger]
                graph_nodes(post.graph).contains_key(i2) implies {
                &&& post.atom_map@.contains_key(graph_nodes(post.graph)[i2].spec)
                &&& post.atom_map@[graph_nodes(post.graph)[i2].spec] as int == i2
                &&& graph_nodes(post.graph)[i2].element.wf()
            } by {
                let k = choose|k: int| 0 <= k < list@.len() && (#[trigger] list@[k]).0 == i2;
                assert(list@[k].1 == graph_nodes(g0)[i2]);
                assert(post.atom_map@[list@[k].1.spec] == list@[k].0);
            }
            assert forall|s: AtomSpecifier|
                post.atom_map@.contains_key(s) == #[trigger] post.positions@.contains_key(
                s,
            ) by {
                if post.atom_map@.contains_key(s) {
                    let k = choose|k: int| 0 <= k < list@.len() && (#[trigger] list@[k]).1.spec == s;
                    assert(graph_nodes(g0).contains_key(list@[k].0 as int));
                }
                if post.positions@.contains_key(s) {
                    assert(node_specs(graph_nodes(g0)).contains(s));
                    let i2 = choose|i2: int| #[trigger]
                        graph_nodes(g0).contains_key(i2) && graph_nodes(g0)[i2].spec == s;
                    let k = choose|k: int| 0 <= k < list@.len() && (#[trigger] list@[k]).0 == i2;
                    assert(post.atom_map@.contains_key(list@[k].1.spec));
                }
            }
            assert(post.geom_wf());
        }
        self.recompute_bbox_inner(table);
        proof {
            let post = *self;
            assert forall|s: AtomSpecifier| post.atom_map@.contains_key(s) implies checkpoint.idx_of(
                s,
            ) == post.atom_map@[s] as int by {
                let ix = post.atom_map@[s] as int;
                assert(graph_nodes(g0).contains_key(ix) && graph_nodes(g0)[ix].spec == s);
                let j = checkpoint.idx_of(s);
                assert(checkpoint.nodes().contains_key(j) && checkpoint.nodes()[j].spec == s);
                assert(j == ix);
            }
            assert forall|s: AtomSpecifier|
                post.atom_map@.contains_key(s) == #[trigger] checkpoint.has_atom(s) by {
                if post.atom_map@.contains_key(s) {
                    let ix = post.atom_map@[s] as int;
                    assert(graph_nodes(g0).contains_key(ix) && graph_nodes(g0)[ix].spec == s);
                }
                if checkpoint.has_atom(s) {
                    let i2 = choose|i2: int| #[trigger]
                        graph_nodes(g0).contains_key(i2) && graph_nodes(g0)[i2].spec == s;
                    assert(post.atom_map@.contains_key(graph_nodes(g0)[i2].spec));
                }
            }
            assert(post.atoms() =~= checkpoint.atoms_map());
            assert forall|a: AtomSpecifier, b: AtomSpecifier, w: u8| #[trigger]
                post.bond_count(a, b, w) == checkpoint.cp_bond_count(a, b, w) by {}
        }
    }
}

/// A flat per-atom record for a renderer: packed element kind and position.
#[derive(Clone, Copy, PartialEq, Eq, Structural, Debug)]
pub struct AtomRepr {
    pub kind: crate::elements::AtomKind,
    pub pos: Pos,
}

/// A flat per-bond record for a renderer: the two endpoint positions and
/// the bond order, padded to a round size.
#[derive(Clone, Copy, PartialEq, Eq, Structural, Debug)]
pub struct BondRepr {
    pub start_pos: Pos,
    pub end_pos: Pos,
    pub order: u32,
    pub pad: u32,
}

/// A direction roughly one unit long: each component within two units and
/// the squared magnitude at least half a unit squared.
pub open spec fn dir_wf(d: Pos) -> bool {
    &&& -2000 <= d.x <= 2000
    &&& -2000 <= d.y <= 2000
    &&& -2000 <= d.z <= 2000
    &&& d.x * d.x + d.y * d.y + d.z * d.z >= 250000
}

/// The fixed-point unit vector from `sp` toward `hp`: each component is
/// the displacement scaled by 1000 and divided (truncating) by the
/// displacement's integer-square-root magnitude, clamped to unit length;
/// +z when the two points coincide.
pub open spec fn spec_forward(hp: Pos, sp: Pos) -> Pos {
    if (hp.x - sp.x) * (hp.x - sp.x) + (hp.y - sp.y) * (hp.y - sp.y) + (hp.z - sp.z) * (hp.z
        - sp.z) == 0 {
        Pos { x: 0, y: 0, z: 1000 }
    } else {
        Pos {
            x: crate::geom::spec_clamp(
                crate::geom::spec_tdiv(
                    (hp.x - sp.x) * 1000,
                    crate::geom::spec_isqrt(
                        (hp.x - sp.x) * (hp.x - sp.x) + (hp.y - sp.y) * (hp.y - sp.y) + (hp.z
                            - sp.z) * (hp.z - sp.z),
                    ),
                ),
                1000,
            ) as i64,
            y: crate::geom::spec_clamp(
                crate::geom::spec_tdiv(
                    (hp.y - sp.y) * 1000,
                    crate::geom::spec_isqrt(
                        (hp.x - sp.x) * (hp.x - sp.x) + (hp.y - sp.y) * (hp.y - sp.y) + (hp.z
                            - sp.z) * (hp.z - sp.z),
                    ),
                ),
                1000,
            ) as i64,
            z: crate::geom::spec_clamp(
                crate::geom::spec_tdiv(
                    (hp.z - sp.z) * 1000,
                    crate::geom::spec_isqrt(
                        (hp.x - sp.x) * (hp.x - sp.x) + (hp.y - sp.y) * (hp.y - sp.y) + (hp.z
                            - sp.z) * (hp.z - sp.z),
                    ),
                ),
                1000,
            ) as i64,
        }
    }
}

impl AtomNode {
    /// The direction this atom "faces": [`spec_forward`] toward its `head`
    /// atom, or the +z unit vector for a root atom.
    #[verifier::loop_isolation(false)]
    pub fn forward(&self, commands: &MoleculeRepr) -> (r: Pos)
        requires
            commands.wf(),
            match self.head {
                Some(h) => commands.positions_map().contains_key(h)
                    && commands.positions_map().contains_key(self.spec),
                None => true,
            },
        ensures
            r.wf(),
            -1000 <= r.x <= 1000,
            -1000 <= r.y <= 1000,
            -1000 <= r.z <= 1000,
            match self.head {
                None => r == (Pos { x: 0, y: 0, z: 1000 }),
                Some(h) => r == spec_forward(
                    commands.positions_map()[h],
                    commands.positions_map()[self.spec],
                ),
            },
    {
        let h = match self.head {
            None => {
                return Pos { x: 0, y: 0, z: 1000 };
            },
            Some(h) => h,
        };
        let hp = commands.pos(&h).unwrap();
        let sp = commands.pos(&self.spec).unwrap();
        let dx = hp.x as i128 - sp.x as i128;
        let dy = hp.y as i128 - sp.y as i128;
        let dz = hp.z as i128 - sp.z as i128;
        proof {
            assert(dx * dx + dy * dy + dz * dz < 0x4000000000000000i128 && dx * dx >= 0 && dy * dy
                >= 0 && dz * dz >= 0 && -0x8000000000000i128 <= dx * 1000
                <= 0x8000000000000i128 && -0x8000000000000i128 <= dy * 1000
                <= 0x8000000000000i128 && -0x8000000000000i128 <= dz * 1000
                <= 0x8000000000000i128) by (nonlinear_arith)
                requires
                    -0x40000000i128 <= dx <= 0x40000000i128,
                    -0x40000000i128 <= dy <= 0x40000000i128,
                    -0x40000000i128 <= dz <= 0x40000000i128,
            ;
        }
        let m2 = dx * dx + dy * dy + dz * dz;
        if m2 == 0 {
            return Pos { x: 0, y: 0, z: 1000 };
        }
        let mag_u = crate::geom::isqrt(m2 as u128);
        proof {
            assert(1 <= mag_u && mag_u < 0x80000000u128) by (nonlinear_arith)
                requires
                    0 < (m2 as u128) < 0x4000000000000000u128,
                    mag_u * mag_u <= m2 as u128,
                    (mag_u + 1) * (mag_u + 1) > m2 as u128,
            ;
        }
        let mag = mag_u as i128;
        Pos {
            x: crate::geom::clamp128(crate::geom::tdiv(dx * 1000, mag), 1000) as i64,
            y: crate::geom::clamp128(crate::geom::tdiv(dy * 1000, mag), 1000) as i64,
            z: crate::geom::clamp128(crate::geom::tdiv(dz * 1000, mag), 1000) as i64,
        }
    }
}

impl MoleculeRepr {
    /// Re-settles every atom's position with the relaxation engine, then
    /// regrows the bounding volume around the moved atoms.  The structure
    /// (atoms and bonds) is untouched; only positions change.
    pub fn relax(&mut self, table: &ElementTable)
        requires
            old(self).wf(),
            table.wf(),
        ensures
            final(self).wf(),
            final(self).atoms() == old(self).atoms(),
            final(self).nodes() == old(self).nodes(),
            final(self).edges() == old(self).edges(),
            forall|a: AtomSpecifier, b: AtomSpecifier, w: u8|
                #[trigger] final(self).bond_count(a, b, w) == old(self).bond_count(a, b, w),
            final(self).positions_map() == crate::dynamics::spec_relax(
                old(self).nodes(),
                old(self).edges(),
                old(self).positions_map(),
                crate::dynamics::RELAX_THRESHOLD as int,
                crate::dynamics::RELAX_MAX_ITERS as nat,
            ),
            final(self).positions_map().dom() == old(self).positions_map().dom(),
            final(self).spec_synced() == old(self).spec_synced(),
            final(self).bbox_is_tight(*table),
    {
        let new_positions = crate::dynamics::relax(
            &self.graph,
            &self.positions,
            crate::dynamics::RELAX_THRESHOLD,
            crate::dynamics::RELAX_MAX_ITERS,
        );
        self.positions = new_positions;
        proof {
            let pre = *old(self);
            let post = *self;
            assert forall|s: AtomSpecifier|
                post.atom_map@.contains_key(s) == #[trigger] post.positions@.contains_key(
                s,
            ) by {
                if post.atom_map@.contains_key(s) {
                    let ix = post.atom_map@[s] as int;
                    assert(graph_nodes(post.graph).contains_key(ix) && graph_nodes(
                        post.graph,
                    )[ix].spec == s);
                    assert(node_specs(graph_nodes(post.graph)).contains(s));
                }
                if post.positions@.contains_key(s) {
                    assert(node_specs(graph_nodes(post.graph)).contains(s));
                    let i = choose|i: int| #[trigger]
                        graph_nodes(post.graph).contains_key(i) && graph_nodes(post.graph)[i].spec
                            == s;
                    assert(post.atom_map@.contains_key(graph_nodes(post.graph)[i].spec));
                }
            }
            assert(post.positions@.dom() =~= pre.positions@.dom());
        }
        self.recompute_bbox_inner(table);
        proof {
            assert(final(self).atoms() =~= old(self).atoms());
        }
    }

    /// Whether one renderer atom record describes a live atom: its kind
    /// packs that atom's element and its position is that atom's position.
    pub open spec fn atom_repr_ok(self, ar: AtomRepr) -> bool {
        exists|s: AtomSpecifier|
            {
                &&& #[trigger] self.atoms().contains_key(s)
                &&& ar.kind.spec_element() == self.atoms()[s].element
                &&& ar.pos == self.positions_map()[s]
            }
    }

    /// Whether one renderer bond record describes a live bond: its order
    /// and endpoint positions come from a bond of the molecule.
    pub open spec fn bond_repr_ok(self, br: BondRepr) -> bool {
        exists|a: AtomSpecifier, b: AtomSpecifier|
            {
                &&& #[trigger] self.bond_count(a, b, br.order as u8) > 0
                &&& br.start_pos == self.positions_map()[a]
                &&& br.end_pos == self.positions_map()[b]
                &&& br.order < 256
            }
    }

    /// A flat snapshot of every atom for rendering: one record per live
    /// atom, holding its packed element kind and current position.
    #[verifier::loop_isolation(false)]
    pub fn atom_reprs(&self) -> (r: Vec<AtomRepr>)
        requires
            self.wf(),
        ensures
            r@.len() == sorted_node_list(self.nodes()).len(),
            forall|k: int|
                0 <= k < r@.len() ==> #[trigger] r@[k] == (AtomRepr {
                    kind: crate::elements::AtomKind::spec_new(
                        sorted_node_list(self.nodes())[k].1.element,
                    ),
                    pos: self.positions_map()[sorted_node_list(self.nodes())[k].1.spec],
                }),
            forall|k: int| 0 <= k < r@.len() ==> self.atom_repr_ok(#[trigger] r@[k]),
            forall|s: AtomSpecifier|
                #[trigger] self.atoms().contains_key(s) ==> exists|k: int|
                    0 <= k < r@.len() && (#[trigger] r@[k]).pos == self.positions_map()[s] && r@[k].kind.spec_element() == self.atoms()[s].element,
    {
        let list = g_node_list(&self.graph);
        proof {
            lemma_sorted_node_list(graph_nodes(self.graph), list@);
        }
        let mut out: Vec<AtomRepr> = Vec::new();
        let mut i: usize = 0;
        while i < list.len()
            invariant
                0 <= i <= list@.len(),
                out@.len() == i,
                sorted_node_list(self.nodes()) == list@,
                forall|k: int| 0 <= k < i ==> self.atom_repr_ok(#[trigger] out@[k]),
                forall|k: int|
                    0 <= k < i ==> #[trigger] out@[k] == (AtomRepr {
                        kind: crate::elements::AtomKind::spec_new(list@[k].1.element),
                        pos: self.positions_map()[list@[k].1.spec],
                    }),
                forall|k: int|
                    0 <= k < i ==> (#[trigger] out@[k]).pos == self.positions_map()[list@[k].1.spec] && out@[k].kind.spec_element() == self.atoms()[list@[k].1.spec].element,
            decreases list@.len() - i,
        {
            let entry = &list[i];
            proof {
                assert(graph_nodes(self.graph).contains_key(entry.0 as int));
                assert(self.atom_map@.contains_key(entry.1.spec));
                assert(self.atom_map@[entry.1.spec] as int == entry.0 as int);
                assert(self.atoms()[entry.1.spec] == entry.1);
            }
            let p = self.positions.get(&entry.1.spec).unwrap();
            let kind = crate::elements::AtomKind::new(entry.1.element);
            out.push(AtomRepr { kind, pos: p });
            proof {
                let s0 = entry.1.spec;
                assert(self.atoms().contains_key(s0) && out@[i as int].kind.spec_element()
                    == self.atoms()[s0].element && out@[i as int].pos == self.positions_map()[s0]);
                assert(self.atom_repr_ok(out@[i as int]));
            }
            i = i + 1;
        }
        proof {
            assert forall|s: AtomSpecifier| #[trigger]
                self.atoms().contains_key(s) implies exists|k: int|
                0 <= k < out@.len() && (#[trigger] out@[k]).pos == self.positions_map()[s] && out@[k].kind.spec_element() == self.atoms()[s].element by {
                let ix = self.atom_map@[s];
                assert(graph_nodes(self.graph).contains_key(ix as int));
                let k = choose|k: int| 0 <= k < list@.len() && (#[trigger] list@[k]).0 == ix as int;
                assert(list@[k].1.spec == s);
                assert(out@[k].pos == self.positions_map()[s] && out@[k].kind.spec_element()
                    == self.atoms()[s].element);
            }
        }
        out
    }

    /// The renderer record of one edge: the two endpoint positions and the
    /// bond order.
    pub open spec fn bond_record_of(self, e: (int, int, u8)) -> BondRepr {
        BondRepr {
            start_pos: self.positions_map()[self.nodes()[e.0].spec],
            end_pos: self.positions_map()[self.nodes()[e.1].spec],
            order: e.2 as u32,
            pad: 0,
        }
    }

    /// A flat snapshot of every bond for rendering: the records are some
    /// enumeration of the bond multiset, each mapped to its two endpoint
    /// positions and its order — exactly one record per bond.
    #[verifier::loop_isolation(false)]
    pub fn bond_reprs(&self) -> (r: Vec<BondRepr>)
        requires
            self.wf(),
        ensures
            r@.len() == self.edges().len(),
            exists|el: Seq<(int, int, u8)>|
                {
                    &&& #[trigger] el.to_multiset() == self.edges()
                    &&& r@.len() == el.len()
                    &&& forall|k: int|
                        0 <= k < el.len() ==> self.edges().count(#[trigger] el[k]) > 0 && r@[k]
                            == self.bond_record_of(el[k])
                },
            forall|k: int| 0 <= k < r@.len() ==> self.bond_repr_ok(#[trigger] r@[k]),
    {
        let edges = crate::graph_ext::g_edge_list(&self.graph);
        let ghost el = edges@.map_values(|t: (usize, usize, u8)| (t.0 as int, t.1 as int, t.2));
        proof {
            assert(el.to_multiset().len() == graph_edges(self.graph).len());
            assert(el.len() == edges@.len());
        }
        let mut out: Vec<BondRepr> = Vec::new();
        let mut i: usize = 0;
        while i < edges.len()
            invariant
                0 <= i <= edges@.len(),
                out@.len() == i,
                el == edges@.map_values(|t: (usize, usize, u8)| (t.0 as int, t.1 as int, t.2)),
                forall|k: int|
                    0 <= k < i ==> self.edges().count(#[trigger] el[k]) > 0 && out@[k]
                        == self.bond_record_of(el[k]),
                forall|k: int| 0 <= k < out@.len() ==> self.bond_repr_ok(#[trigger] out@[k]),
            decreases edges@.len() - i,
        {
            let e = edges[i];
            proof {
                assert(graph_edges(self.graph).count((e.0 as int, e.1 as int, e.2)) > 0);
                assert(graph_nodes(self.graph).contains_key(e.0 as int));
                assert(graph_nodes(self.graph).contains_key(e.1 as int));
            }
            let na = g_node_weight(&self.graph, e.0).unwrap();
            let nb = g_node_weight(&self.graph, e.1).unwrap();
            let pa = self.positions.get(&na.spec).unwrap();
            let pb = self.positions.get(&nb.spec).unwrap();
            let ghost pre_len = out@.len() as int;
            out.push(BondRepr { start_pos: pa, end_pos: pb, order: e.2 as u32, pad: 0 });
            proof {
                let br = out@[pre_len];
                assert(self.atom_map@[na.spec] as int == e.0 as int);
                assert(self.atom_map@[nb.spec] as int == e.1 as int);
                assert(br.order as u8 == e.2);
                assert(self.bond_count(na.spec, nb.spec, br.order as u8) > 0);
                assert(self.bond_repr_ok(br));
                assert(el[i as int] == (e.0 as int, e.1 as int, e.2));
                assert(self.nodes()[el[i as int].0].spec == na.spec);
                assert(self.nodes()[el[i as int].1].spec == nb.spec);
                assert(br == self.bond_record_of(el[i as int]));
            }
            i = i + 1;
        }
        proof {
            assert(el.to_multiset() == self.edges() && out@.len() == el.len() && forall|k: int|
                0 <= k < el.len() ==> self.edges().count(#[trigger] el[k]) > 0 && out@[k]
                    == self.bond_record_of(el[k]));
        }
        out
    }
}

/// Whether a ray with axis component `da` can meet the slab `[lo, hi]`
/// (a parallel ray must already lie inside it).
pub open spec fn spec_axis_passes(oa: int, da: int, lo: int, hi: int) -> bool {
    da != 0 || (lo <= oa && oa <= hi)
}

/// The scaled parameter at which the ray enters this axis's slab
/// (meaningful for `da != 0`), clamped to the supported band.
pub open spec fn spec_axis_lo(oa: int, da: int, lo: int, hi: int) -> int {
    let ad = if da > 0 {
        da
    } else {
        -da
    };
    let t0 = spec_tdiv((lo - oa) * 1000, ad);
    let t1 = spec_tdiv((hi - oa) * 1000, ad);
    let a0 = if da > 0 {
        t0
    } else {
        -t1
    };
    let a1 = if da > 0 {
        t1
    } else {
        -t0
    };
    spec_clamp(
        if a0 <= a1 {
            a0
        } else {
            a1
        },
        0x100000000000,
    )
}

/// The scaled parameter at which the ray leaves this axis's slab
/// (meaningful for `da != 0`), clamped to the supported band.
pub open spec fn spec_axis_hi(oa: int, da: int, lo: int, hi: int) -> int {
    let ad = if da > 0 {
        da
    } else {
        -da
    };
    let t0 = spec_tdiv((lo - oa) * 1000, ad);
    let t1 = spec_tdiv((hi - oa) * 1000, ad);
    let a0 = if da > 0 {
        t0
    } else {
        -t1
    };
    let a1 = if da > 0 {
        t1
    } else {
        -t0
    };
    spec_clamp(
        if a0 <= a1 {
            a1
        } else {
            a0
        },
        0x100000000000,
    )
}

/// The admission test of a ray cast against a bounding volume: `None`
/// when the ray cannot meet the volume (empty volume, a parallel ray
/// outside a slab, a miss, or a volume entirely behind the ray);
/// otherwise the march's
/// starting parameter, its last parameter, and its step, all in the
/// scaled ray parameter where the point at `t` is
/// `origin + t * direction / 1000`.
pub open spec fn spec_ray_gate(b: BoundingBox, h_radius: u32, origin: Pos, direction: Pos) -> Option<
    (int, int, int),
> {
    if b.spec_is_empty() {
        None
    } else if !spec_axis_passes(origin.x as int, direction.x as int, b.min.x as int, b.max.x as int)
        || !spec_axis_passes(origin.y as int, direction.y as int, b.min.y as int, b.max.y as int)
        || !spec_axis_passes(origin.z as int, direction.z as int, b.min.z as int, b.max.z as int) {
        None
    } else {
        let tmin_x = if direction.x != 0 {
            let v = spec_axis_lo(origin.x as int, direction.x as int, b.min.x as int, b.max.x as int);
            if v > -0x100000000000 {
                v
            } else {
                -0x100000000000
            }
        } else {
            -0x100000000000
        };
        let tmin_y = if direction.y != 0 {
            let v = spec_axis_lo(origin.y as int, direction.y as int, b.min.y as int, b.max.y as int);
            if v > tmin_x {
                v
            } else {
                tmin_x
            }
        } else {
            tmin_x
        };
        let tmin = if direction.z != 0 {
            let v = spec_axis_lo(origin.z as int, direction.z as int, b.min.z as int, b.max.z as int);
            if v > tmin_y {
                v
            } else {
                tmin_y
            }
        } else {
            tmin_y
        };
        let tmax_x = if direction.x != 0 {
            let v = spec_axis_hi(origin.x as int, direction.x as int, b.min.x as int, b.max.x as int);
            if v < 0x100000000000 {
                v
            } else {
                0x100000000000
            }
        } else {
            0x100000000000
        };
        let tmax_y = if direction.y != 0 {
            let v = spec_axis_hi(origin.y as int, direction.y as int, b.min.y as int, b.max.y as int);
            if v < tmax_x {
                v
            } else {
                tmax_x
            }
        } else {
            tmax_x
        };
        let tmax = if direction.z != 0 {
            let v = spec_axis_hi(origin.z as int, direction.z as int, b.min.z as int, b.max.z as int);
            if v < tmax_y {
                v
            } else {
                tmax_y
            }
        } else {
            tmax_y
        };
        if tmin > tmax || tmax <= 0 {
            None
        } else {
            let t0 = if tmin > 0 {
                tmin
            } else {
                0
            };
            let dm2 = (direction.x as int) * (direction.x as int) + (direction.y as int) * (
            direction.y as int) + (direction.z as int) * (direction.z as int);
            let dt0 = spec_tdiv((h_radius as int / 10) * 1000, crate::geom::spec_isqrt(dm2));
            let dt = if dt0 < 1 {
                1
            } else {
                dt0
            };
            Some((t0, tmax, dt))
        }
    }
}

/// Narrows a scaled-parameter interval to one axis's slab.  Returns false
/// when the ray runs parallel to the axis outside the slab, so the ray
/// cannot hit the box at all.
fn slab_axis(oa: i64, da: i64, lo: i64, hi: i64, tmin: &mut i128, tmax: &mut i128) -> (ok: bool)
    requires
        -0x20100000 <= oa <= 0x20100000,
        -2000 <= da <= 2000,
        -0x20100000 <= lo <= 0x20100000,
        -0x20100000 <= hi <= 0x20100000,
        -0x100000000000 <= *old(tmin) <= 0x100000000000,
        -0x100000000000 <= *old(tmax) <= 0x100000000000,
    ensures
        ok == spec_axis_passes(oa as int, da as int, lo as int, hi as int),
        !ok ==> *final(tmin) == *old(tmin) && *final(tmax) == *old(tmax),
        ok && da == 0 ==> *final(tmin) == *old(tmin) && *final(tmax) == *old(tmax),
        da != 0 ==> {
            let v = spec_axis_lo(oa as int, da as int, lo as int, hi as int);
            *final(tmin) as int == if v > *old(tmin) as int {
                v
            } else {
                *old(tmin) as int
            }
        },
        da != 0 ==> {
            let v = spec_axis_hi(oa as int, da as int, lo as int, hi as int);
            *final(tmax) as int == if v < *old(tmax) as int {
                v
            } else {
                *old(tmax) as int
            }
        },
        -0x100000000000 <= *final(tmin) <= 0x100000000000,
        -0x100000000000 <= *final(tmax) <= 0x100000000000,
{
    if da == 0 {
        if oa < lo || oa > hi {
            return false;
        }
        return true;
    }
    let div: i128 = if da > 0 {
        da as i128
    } else {
        -(da as i128)
    };
    let t0 = crate::geom::tdiv((lo as i128 - oa as i128) * 1000, div);
    let t1 = crate::geom::tdiv((hi as i128 - oa as i128) * 1000, div);
    let (a0, a1) = if da > 0 {
        (t0, t1)
    } else {
        (-t1, -t0)
    };
    let (s0, s1) = if a0 <= a1 {
        (a0, a1)
    } else {
        (a1, a0)
    };
    let c0 = crate::geom::clamp128(s0, 0x100000000000);
    let c1 = crate::geom::clamp128(s1, 0x100000000000);
    if c0 > *tmin {
        *tmin = c0;
    }
    if c1 < *tmax {
        *tmax = c1;
    }
    true
}

impl MoleculeRepr {
    /// Whether the sample point `(px, py, pz)` lies strictly inside the
    /// sphere of atom `s` (at its position, with its table radius).
    pub open spec fn spec_sphere_hits(
        self,
        table: ElementTable,
        s: AtomSpecifier,
        px: int,
        py: int,
        pz: int,
    ) -> bool {
        (px - self.positions_map()[s].x) * (px - self.positions_map()[s].x) + (py
            - self.positions_map()[s].y) * (py - self.positions_map()[s].y) + (pz
            - self.positions_map()[s].z) * (pz - self.positions_map()[s].z) < table.spec_radius(
            self.atoms()[s].element,
        ) * table.spec_radius(self.atoms()[s].element)
    }

    /// Whether any live atom's sphere contains the sample point.
    pub open spec fn spec_hit_at(self, table: ElementTable, px: int, py: int, pz: int) -> bool {
        exists|s: AtomSpecifier|
            #[trigger] self.positions_map().contains_key(s) && self.spec_sphere_hits(
                table,
                s,
                px,
                py,
                pz,
            )
    }

    /// Whether every sample of the march from `t` to `tmax` (inclusive,
    /// stepping by `dt`) misses every atom.  The sample at `t` is
    /// `origin + t * direction / 1000`, componentwise with truncating
    /// division.
    pub open spec fn spec_march_misses(
        self,
        table: ElementTable,
        origin: Pos,
        direction: Pos,
        t: int,
        tmax: int,
        dt: int,
    ) -> bool
        decreases tmax + dt - t
            when dt >= 1
    {
        if t > tmax {
            true
        } else {
            !self.spec_hit_at(
                table,
                origin.x + spec_tdiv(t * direction.x, 1000),
                origin.y + spec_tdiv(t * direction.y, 1000),
                origin.z + spec_tdiv(t * direction.z, 1000),
            ) && self.spec_march_misses(table, origin, direction, t + dt, tmax, dt)
        }
    }

    /// The scaled parameter of the first sample (from `t`, stepping by
    /// `dt`) that hits some atom; past `tmax` when no sample hits.
    pub open spec fn spec_first_hit(
        self,
        table: ElementTable,
        origin: Pos,
        direction: Pos,
        t: int,
        tmax: int,
        dt: int,
    ) -> int
        decreases tmax + dt - t
            when dt >= 1
    {
        if t > tmax {
            t
        } else if self.spec_hit_at(
            table,
            origin.x + spec_tdiv(t * direction.x, 1000),
            origin.y + spec_tdiv(t * direction.y, 1000),
            origin.z + spec_tdiv(t * direction.z, 1000),
        ) {
            t
        } else {
            self.spec_first_hit(table, origin, direction, t + dt, tmax, dt)
        }
    }

    /// Casts a ray and returns the first atom it hits, marching in fixed
    /// steps from where the ray enters the bounding volume.  `None` exactly
    /// when the admission test rejects the ray or no sample of the march
    /// lies inside any atom's sphere; a returned atom is a live atom whose
    /// sphere contains the first hitting sample.  Among
    /// several atoms containing that sample, the first in stable index
    /// order wins.
    #[verifier::loop_isolation(false)]
    #[verifier::rlimit(100)]
    pub fn get_ray_hit(&self, table: &ElementTable, origin: Pos, direction: Pos) -> (r: Option<
        AtomSpecifier,
    >)
        requires
            self.wf(),
            table.wf(),
            origin.wf(),
            dir_wf(direction),
        ensures
            match spec_ray_gate(
                self.spec_bounding_box(),
                table.spec_radius(crate::elements::Element(1)),
                origin,
                direction,
            ) {
                None => r is None,
                Some(gate) => {
                    &&& (r is None <==> self.spec_march_misses(
                        *table,
                        origin,
                        direction,
                        gate.0,
                        gate.1,
                        gate.2,
                    ))
                    &&& match r {
                        Some(s) => self.atoms().contains_key(s) && self.spec_sphere_hits(
                            *table,
                            s,
                            origin.x + spec_tdiv(
                                self.spec_first_hit(
                                    *table,
                                    origin,
                                    direction,
                                    gate.0,
                                    gate.1,
                                    gate.2,
                                ) * direction.x,
                                1000,
                            ),
                            origin.y + spec_tdiv(
                                self.spec_first_hit(
                                    *table,
                                    origin,
                                    direction,
                                    gate.0,
                                    gate.1,
                                    gate.2,
                                ) * direction.y,
                                1000,
                            ),
                            origin.z + spec_tdiv(
                                self.spec_first_hit(
                                    *table,
                                    origin,
                                    direction,
                                    gate.0,
                                    gate.1,
                                    gate.2,
                                ) * direction.z,
                                1000,
                            ),
                        ),
                        None => true,
                    }
                },
            },
            match r {
                Some(s) => self.atoms().contains_key(s),
                None => true,
            },
    {
        if self.bounding_box.is_empty() {
            return None;
        }
        let bb = self.bounding_box;
        // Slab intersection in the scaled ray parameter T, where the point
        // at T is origin + T * direction / 1000.
        let mut tmin: i128 = -0x100000000000;
        let mut tmax: i128 = 0x100000000000;
        if !slab_axis(origin.x, direction.x, bb.min.x, bb.max.x, &mut tmin, &mut tmax) {
            return None;
        }
        if !slab_axis(origin.y, direction.y, bb.min.y, bb.max.y, &mut tmin, &mut tmax) {
            return None;
        }
        if !slab_axis(origin.z, direction.z, bb.min.z, bb.max.z, &mut tmin, &mut tmax) {
            return None;
        }
        if tmin > tmax || tmax <= 0 {
            return None;
        }
        let mut t: i128 = if tmin > 0 {
            tmin
        } else {
            0
        };
        // March step: a tenth of the hydrogen radius, converted to the
        // scaled parameter using the direction's magnitude.
        let h_radius = table.radius(Element(1));
        let step = (h_radius / 10) as i128;
        proof {
            assert((direction.x as i128) * (direction.x as i128) <= 4000000 && (direction.y as i128)
                * (direction.y as i128) <= 4000000 && (direction.z as i128) * (direction.z as i128)
                <= 4000000 && (direction.x as i128) * (direction.x as i128) >= 0 && (
            direction.y as i128) * (direction.y as i128) >= 0 && (direction.z as i128) * (
            direction.z as i128) >= 0 && 250000 <= (direction.x as i128) * (direction.x as i128) + (
            direction.y as i128) * (direction.y as i128) + (direction.z as i128) * (
            direction.z as i128) <= 12000000) by (nonlinear_arith)
                requires
                    -2000 <= direction.x as i128 <= 2000,
                    -2000 <= direction.y as i128 <= 2000,
                    -2000 <= direction.z as i128 <= 2000,
                    (direction.x as i128) * (direction.x as i128) + (direction.y as i128)
                        * (direction.y as i128) + (direction.z as i128) * (direction.z as i128)
                        >= 250000,
            ;
        }
        let dm2 = (direction.x as i128) * (direction.x as i128) + (direction.y as i128)
            * (direction.y as i128) + (direction.z as i128) * (direction.z as i128);
        let mag_u = crate::geom::isqrt(dm2 as u128);
        proof {
            assert(500 <= mag_u && mag_u <= 4000) by (nonlinear_arith)
                requires
                    250000 <= (dm2 as u128) <= 12000000,
                    mag_u * mag_u <= dm2 as u128,
                    (mag_u + 1) * (mag_u + 1) > dm2 as u128,
            ;
        }
        let mag = mag_u as i128;
        let mut dt = crate::geom::tdiv(step * 1000, mag);
        if dt < 1 {
            dt = 1;
        }
        let ghost t0g = t as int;
        proof {
            assert(spec_ray_gate(
                self.spec_bounding_box(),
                table.spec_radius(crate::elements::Element(1)),
                origin,
                direction,
            ) == Some((t0g, tmax as int, dt as int)));
        }
        let list = g_node_list(&self.graph);
        while t <= tmax
            invariant
                -0x100000000000 <= t,
                1 <= dt <= 0x100000000,
                tmax <= 0x100000000000,
                self.spec_march_misses(*table, origin, direction, t0g, tmax as int, dt as int)
                    == self.spec_march_misses(
                    *table,
                    origin,
                    direction,
                    t as int,
                    tmax as int,
                    dt as int,
                ),
                self.spec_first_hit(*table, origin, direction, t0g, tmax as int, dt as int)
                    == self.spec_first_hit(
                    *table,
                    origin,
                    direction,
                    t as int,
                    tmax as int,
                    dt as int,
                ),
            decreases tmax + dt - t,
        {
            proof {
                assert(-0x800000000000000i128 <= t * (direction.x as i128) <= 0x800000000000000i128
                    && -0x800000000000000i128 <= t * (direction.y as i128)
                    <= 0x800000000000000i128 && -0x800000000000000i128 <= t * (direction.z as i128)
                    <= 0x800000000000000i128) by (nonlinear_arith)
                    requires
                        -0x100000000000 <= t <= 0x100000000000,
                        -2000 <= direction.x as i128 <= 2000,
                        -2000 <= direction.y as i128 <= 2000,
                        -2000 <= direction.z as i128 <= 2000,
                ;
            }
            let px = origin.x as i128 + crate::geom::tdiv(t * direction.x as i128, 1000);
            let py = origin.y as i128 + crate::geom::tdiv(t * direction.y as i128, 1000);
            let pz = origin.z as i128 + crate::geom::tdiv(t * direction.z as i128, 1000);
            proof {
                assert(px as int == origin.x + spec_tdiv(t as int * direction.x, 1000));
                assert(py as int == origin.y + spec_tdiv(t as int * direction.y, 1000));
                assert(pz as int == origin.z + spec_tdiv(t as int * direction.z, 1000));
            }
            let mut k: usize = 0;
            while k < list.len()
                invariant
                    0 <= k <= list@.len(),
                    forall|k2: int|
                        0 <= k2 < k ==> !self.spec_sphere_hits(
                            *table,
                            (#[trigger] list@[k2]).1.spec,
                            px as int,
                            py as int,
                            pz as int,
                        ),
                decreases list@.len() - k,
            {
                let node = &list[k];
                proof {
                    assert(graph_nodes(self.graph).contains_key(node.0 as int));
                    assert(self.atom_map@.contains_key(node.1.spec));
                }
                let radius = table.radius(node.1.element) as i128;
                let q = self.positions.get(&node.1.spec).unwrap();
                let ddx = px - q.x as i128;
                let ddy = py - q.y as i128;
                let ddz = pz - q.z as i128;
                proof {
                    assert(ddx * ddx >= 0 && ddx * ddx <= 0x40000000000000000000000000000i128
                        && ddy * ddy >= 0 && ddy * ddy <= 0x40000000000000000000000000000i128
                        && ddz * ddz >= 0 && ddz * ddz <= 0x40000000000000000000000000000i128
                        && radius * radius <= 0x10000000000000i128) by (nonlinear_arith)
                        requires
                            -0x200000000000000i128 <= ddx <= 0x200000000000000i128,
                            -0x200000000000000i128 <= ddy <= 0x200000000000000i128,
                            -0x200000000000000i128 <= ddz <= 0x200000000000000i128,
                            0 <= radius <= 1000000,
                    ;
                }
                proof {
                    assert(self.atoms()[node.1.spec] == node.1);
                    assert(self.positions_map()[node.1.spec] == q);
                }
                if ddx * ddx + ddy * ddy + ddz * ddz < radius * radius {
                    proof {
                        let sp = node.1.spec;
                        assert(self.positions_map().contains_key(sp));
                        assert(self.spec_sphere_hits(*table, sp, px as int, py as int, pz as int));
                        assert(self.spec_hit_at(*table, px as int, py as int, pz as int));
                        assert(self.spec_first_hit(
                            *table,
                            origin,
                            direction,
                            t as int,
                            tmax as int,
                            dt as int,
                        ) == t as int);
                        assert(!self.spec_march_misses(
                            *table,
                            origin,
                            direction,
                            t as int,
                            tmax as int,
                            dt as int,
                        ));
                    }
                    return Some(node.1.spec);
                }
                proof {
                    assert(!self.spec_sphere_hits(
                        *table,
                        node.1.spec,
                        px as int,
                        py as int,
                        pz as int,
                    ));
                }
                k = k + 1;
            }
            proof {
                assert forall|s2: AtomSpecifier| #[trigger]
                    self.positions_map().contains_key(s2) implies !self.spec_sphere_hits(
                    *table,
                    s2,
                    px as int,
                    py as int,
                    pz as int,
                ) by {
                    assert(self.atom_map@.contains_key(s2));
                    let ix = self.atom_map@[s2];
                    assert(graph_nodes(self.graph).contains_key(ix as int));
                    let k2 = choose|k2: int|
                        0 <= k2 < list@.len() && (#[trigger] list@[k2]).0 == ix as int;
                    assert(list@[k2].1.spec == s2);
                }
                assert(!self.spec_hit_at(*table, px as int, py as int, pz as int));
                assert(self.spec_march_misses(
                    *table,
                    origin,
                    direction,
                    t as int,
                    tmax as int,
                    dt as int,
                ) == self.spec_march_misses(
                    *table,
                    origin,
                    direction,
                    t as int + dt,
                    tmax as int,
                    dt as int,
                ));
                assert(self.spec_first_hit(
                    *table,
                    origin,
                    direction,
                    t as int,
                    tmax as int,
                    dt as int,
                ) == self.spec_first_hit(
                    *table,
                    origin,
                    direction,
                    t as int + dt,
                    tmax as int,
                    dt as int,
                ));
            }
            t = t + dt;
        }
        proof {
            assert(self.spec_march_misses(
                *table,
                origin,
                direction,
                t as int,
                tmax as int,
                dt as int,
            ));
        }
        None
    }
}

/// Every live atom resolves to exactly one position and one graph node,
/// and the specifier-to-index map is a bijection with the live nodes:
/// specifiers and nodes determine each other.
pub proof fn lemma_atoms_bijective(r: MoleculeRepr)
    requires
        r.wf(),
    ensures
        forall|s: AtomSpecifier|
            r.atoms().contains_key(s) <==> #[trigger] r.positions_map().contains_key(s),
        forall|s: AtomSpecifier|
            #[trigger] r.atoms().contains_key(s) ==> r.index_map().contains_key(s) && r.nodes().contains_key(
                r.index_map()[s] as int,
            ) && r.nodes()[r.index_map()[s] as int].spec == s,
        forall|i: int|
            #[trigger] r.nodes().contains_key(i) ==> r.index_map().contains_key(r.nodes()[i].spec)
                && r.index_map()[r.nodes()[i].spec] as int == i,
{
}

/// Removing one atom never disturbs the identity of any other: the removed
/// specifier no longer resolves, and every other specifier resolves to the
/// same atom and position as before.
pub proof fn lemma_removal_stability(pre: MoleculeRepr, post: MoleculeRepr, target: AtomSpecifier)
    requires
        post.atoms() == pre.atoms().remove(target),
        post.positions_map() == pre.positions_map().remove(target),
    ensures
        !post.atoms().contains_key(target),
        !post.positions_map().contains_key(target),
        forall|u: AtomSpecifier|
            u != target ==> #[trigger] post.atoms().contains_key(u) == pre.atoms().contains_key(u),
        forall|u: AtomSpecifier|
            u != target && pre.atoms().contains_key(u) ==> #[trigger] post.atoms()[u]
                == pre.atoms()[u],
        forall|u: AtomSpecifier|
            u != target ==> #[trigger] post.positions_map().contains_key(u)
                == pre.positions_map().contains_key(u),
        forall|u: AtomSpecifier|
            u != target && pre.positions_map().contains_key(u) ==> #[trigger] post.positions_map()[u] == pre.positions_map()[u],
{
}

impl MoleculeCheckpoint {
    /// Flattens the snapshot into plain lists for persistence: one
    /// (atom, position) pair per live atom, and one (from, to, order)
    /// triple per bond, referencing atoms by their index in the first
    /// list.  Every listed bond is a bond of the snapshot.
    #[verifier::loop_isolation(false)]
    pub fn to_parts(&self) -> (r: (Vec<(AtomNode, Pos)>, Vec<(usize, usize, u8)>))
        requires
            self.wf(),
        ensures
            r.0@.len() == sorted_node_list(self.nodes()).len(),
            forall|k: int|
                0 <= k < r.0@.len() ==> #[trigger] r.0@[k] == (
                    sorted_node_list(self.nodes())[k].1,
                    self.positions_map()[sorted_node_list(self.nodes())[k].1.spec],
                ),
            forall|k: int|
                0 <= k < r.0@.len() ==> self.has_atom((#[trigger] r.0@[k]).0.spec)
                    && self.atoms_map()[r.0@[k].0.spec] == r.0@[k].0 && self.positions_map()[r.0@[k].0.spec] == r.0@[k].1,
            forall|s: AtomSpecifier|
                #[trigger] self.has_atom(s) ==> exists|k: int|
                    0 <= k < r.0@.len() && (#[trigger] r.0@[k]).0.spec == s,
            r.1@.len() == self.edges().len(),
            exists|el: Seq<(int, int, u8)>|
                {
                    &&& #[trigger] el.to_multiset() == self.edges()
                    &&& r.1@.len() == el.len()
                    &&& forall|k: int|
                        0 <= k < el.len() ==> (#[trigger] r.1@[k]).0 < r.0@.len() && r.1@[k].1
                            < r.0@.len() && r.1@[k].2 == el[k].2 && r.0@[r.1@[k].0 as int].0.spec
                            == self.nodes()[el[k].0].spec && r.0@[r.1@[k].1 as int].0.spec
                            == self.nodes()[el[k].1].spec
                },
            forall|k: int|
                0 <= k < r.1@.len() ==> (#[trigger] r.1@[k]).0 < r.0@.len() && r.1@[k].1
                    < r.0@.len() && self.cp_bond_count(
                    r.0@[r.1@[k].0 as int].0.spec,
                    r.0@[r.1@[k].1 as int].0.spec,
                    r.1@[k].2,
                ) > 0,
    {
        let list = g_node_list(&self.graph);
        proof {
            lemma_sorted_node_list(graph_nodes(self.graph), list@);
        }
        let mut atoms: Vec<(AtomNode, Pos)> = Vec::new();
        let mut i: usize = 0;
        while i < list.len()
            invariant
                0 <= i <= list@.len(),
                atoms@.len() == i,
                forall|k: int|
                    0 <= k < i ==> (#[trigger] atoms@[k]).0 == list@[k].1 && atoms@[k].1
                        == self.positions@[list@[k].1.spec],
            decreases list@.len() - i,
        {
            let entry = &list[i];
            proof {
                assert(graph_nodes(self.graph).contains_key(entry.0 as int));
            }
            let p = self.positions.get(&entry.1.spec).unwrap();
            atoms.push((entry.1, p));
            i = i + 1;
        }
        proof {
            assert forall|k: int| 0 <= k < atoms@.len() implies self.has_atom(
                (#[trigger] atoms@[k]).0.spec,
            ) && self.atoms_map()[atoms@[k].0.spec] == atoms@[k].0 && self.positions_map()[atoms@[k].0.spec] == atoms@[k].1 by {
                let ix = list@[k].0;
                assert(graph_nodes(self.graph).contains_key(ix as int));
                assert(self.has_atom(atoms@[k].0.spec));
                let j = self.idx_of(atoms@[k].0.spec);
                assert(self.nodes().contains_key(j) && self.nodes()[j].spec == atoms@[k].0.spec);
                assert(j == ix as int);
            }
            assert forall|s: AtomSpecifier| #[trigger] self.has_atom(s) implies exists|k: int|
                0 <= k < atoms@.len() && (#[trigger] atoms@[k]).0.spec == s by {
                let i2 = choose|i2: int| #[trigger]
                    self.nodes().contains_key(i2) && self.nodes()[i2].spec == s;
                let k = choose|k: int| 0 <= k < list@.len() && (#[trigger] list@[k]).0 == i2;
                assert(atoms@[k].0.spec == s);
            }
        }
        let edges = crate::graph_ext::g_edge_list(&self.graph);
        let ghost el = edges@.map_values(|t: (usize, usize, u8)| (t.0 as int, t.1 as int, t.2));
        proof {
            assert(el.to_multiset().len() == graph_edges(self.graph).len());
            assert(el.len() == edges@.len());
        }
        let mut bonds: Vec<(usize, usize, u8)> = Vec::new();
        let mut e: usize = 0;
        while e < edges.len()
            invariant
                0 <= e <= edges@.len(),
                bonds@.len() == e,
                el == edges@.map_values(|t: (usize, usize, u8)| (t.0 as int, t.1 as int, t.2)),
                forall|k: int|
                    0 <= k < e ==> (#[trigger] bonds@[k]).0 < atoms@.len() && bonds@[k].1
                        < atoms@.len() && bonds@[k].2 == el[k].2 && atoms@[bonds@[k].0 as int].0.spec
                        == self.nodes()[el[k].0].spec && atoms@[bonds@[k].1 as int].0.spec
                        == self.nodes()[el[k].1].spec,
                forall|k: int|
                    0 <= k < bonds@.len() ==> (#[trigger] bonds@[k]).0 < atoms@.len() && bonds@[k].1 < atoms@.len() && self.cp_bond_count(
                        atoms@[bonds@[k].0 as int].0.spec,
                        atoms@[bonds@[k].1 as int].0.spec,
                        bonds@[k].2,
                    ) > 0,
            decreases edges@.len() - e,
        {
            let edge = edges[e];
            proof {
                assert(graph_edges(self.graph).count((edge.0 as int, edge.1 as int, edge.2)) > 0);
                assert(graph_nodes(self.graph).contains_key(edge.0 as int));
                assert(graph_nodes(self.graph).contains_key(edge.1 as int));
            }
            let mut ka: usize = 0;
            let mut kb: usize = 0;
            let mut found_a: bool = false;
            let mut found_b: bool = false;
            let mut k: usize = 0;
            while k < list.len()
                invariant
                    0 <= k <= list@.len(),
                    atoms@.len() == list@.len(),
                    found_a ==> ka < list@.len() && list@[ka as int].0 == edge.0,
                    found_b ==> kb < list@.len() && list@[kb as int].0 == edge.1,
                    !found_a ==> forall|k2: int|
                        0 <= k2 < k ==> (#[trigger] list@[k2]).0 != edge.0,
                    !found_b ==> forall|k2: int|
                        0 <= k2 < k ==> (#[trigger] list@[k2]).0 != edge.1,
                decreases list@.len() - k,
            {
                if list[k].0 == edge.0 {
                    ka = k;
                    found_a = true;
                }
                if list[k].0 == edge.1 {
                    kb = k;
                    found_b = true;
                }
                k = k + 1;
            }
            proof {
                let ke = choose|ke: int| 0 <= ke < list@.len() && (#[trigger] list@[ke]).0 == edge.0;
                assert(found_a);
                let ke2 = choose|ke2: int|
                    0 <= ke2 < list@.len() && (#[trigger] list@[ke2]).0 == edge.1;
                assert(found_b);
            }
            bonds.push((ka, kb, edge.2));
            proof {
                let sa = atoms@[ka as int].0.spec;
                let sb = atoms@[kb as int].0.spec;
                assert(self.idx_of(sa) == edge.0 as int);
                assert(self.idx_of(sb) == edge.1 as int);
                assert(self.cp_bond_count(sa, sb, edge.2) > 0);
                assert(el[e as int] == (edge.0 as int, edge.1 as int, edge.2));
                assert(atoms@[ka as int].0 == list@[ka as int].1);
                assert(list@[ka as int].1 == self.nodes()[edge.0 as int]);
                assert(atoms@[kb as int].0 == list@[kb as int].1);
                assert(list@[kb as int].1 == self.nodes()[edge.1 as int]);
            }
            e = e + 1;
        }
        proof {
            assert(el.to_multiset() == self.edges() && bonds@.len() == el.len() && forall|k: int|
                0 <= k < el.len() ==> (#[trigger] bonds@[k]).0 < atoms@.len() && bonds@[k].1
                    < atoms@.len() && bonds@[k].2 == el[k].2 && atoms@[bonds@[k].0 as int].0.spec
                    == self.nodes()[el[k].0].spec && atoms@[bonds@[k].1 as int].0.spec
                    == self.nodes()[el[k].1].spec);
        }
        (atoms, bonds)
    }

    /// Rebuilds a snapshot from flattened lists, validating as it goes:
    /// every specifier distinct, every element covered, every bond index in
    /// range.  Returns `None` on invalid data.  The rebuilt snapshot holds
    /// exactly the listed atoms at the listed positions (clamped into the
    /// storable range) and a bond for every listed triple.
    pub fn from_parts(atoms: Vec<(AtomNode, Pos)>, bonds: Vec<(usize, usize, u8)>) -> (r: Option<
        MoleculeCheckpoint,
    >)
        ensures
            match r {
                Some(cp) => {
                    &&& cp.wf()
                    &&& forall|k: int|
                        0 <= k < atoms@.len() ==> cp.has_atom((#[trigger] atoms@[k]).0.spec)
                            && cp.atoms_map()[atoms@[k].0.spec] == atoms@[k].0
                            && cp.positions_map()[atoms@[k].0.spec] == atoms@[k].1.spec_clamped()
                    &&& forall|s: AtomSpecifier|
                        #[trigger] cp.has_atom(s) ==> exists|k: int|
                            0 <= k < atoms@.len() && (#[trigger] atoms@[k]).0.spec == s
                },
                None => true,
            },
    {
        let mut graph = g_new();
        let mut positions: SpecMap<Pos> = SpecMap::new();
        let mut seen: SpecMap<usize> = SpecMap::new();
        let mut indices: Vec<usize> = Vec::new();
        let mut i: usize = 0;
        while i < atoms.len()
            invariant
                0 <= i <= atoms@.len(),
                graph_nodes(graph).dom().finite(),
                indices@.len() == i,
                forall|k: int|
                    0 <= k < i ==> graph_nodes(graph).contains_key(
                        (#[trigger] indices@[k]) as int,
                    ) && graph_nodes(graph)[indices@[k] as int] == atoms@[k].0,
                forall|j: int|
                    #[trigger] graph_nodes(graph).contains_key(j) ==> exists|k: int|
                        0 <= k < i && (#[trigger] indices@[k]) as int == j,
                forall|k1: int, k2: int|
                    0 <= k1 < k2 < i ==> (#[trigger] atoms@[k1]).0.spec != (
                    #[trigger] atoms@[k2]).0.spec,
                forall|k1: int, k2: int|
                    0 <= k1 < k2 < i ==> (#[trigger] indices@[k1]) != (#[trigger] indices@[k2]),
                forall|k: int|
                    0 <= k < i ==> seen@.contains_key((#[trigger] atoms@[k]).0.spec),
                forall|s: AtomSpecifier|
                    #[trigger] seen@.contains_key(s) ==> exists|k: int|
                        0 <= k < i && (#[trigger] atoms@[k]).0.spec == s,
                forall|k: int|
                    0 <= k < i ==> (#[trigger] atoms@[k]).0.element.wf(),
                forall|k: int|
                    0 <= k < i ==> positions@.contains_key((#[trigger] atoms@[k]).0.spec)
                        && positions@[atoms@[k].0.spec] == atoms@[k].1.spec_clamped(),
                forall|s: AtomSpecifier|
                    #[trigger] positions@.contains_key(s) ==> seen@.contains_key(s)
                        && positions@[s].wf(),
                graph_edges(graph) == crate::graph_ext::empty_edges(),
            decreases atoms@.len() - i,
        {
            let entry = &atoms[i];
            if seen.contains(&entry.0.spec) {
                return None;
            }
            if !entry.0.element.is_valid() {
                return None;
            }
            let ghost g_pre = graph;
            let ghost ind_pre = indices@;
            let ix = g_add_node(&mut graph, entry.0);
            seen.insert(entry.0.spec, ix);
            positions.insert(entry.0.spec, entry.1.clamped());
            indices.push(ix);
            proof {
                assert forall|j: int| #[trigger]
                    graph_nodes(graph).contains_key(j) implies exists|k: int|
                    0 <= k < i + 1 && (#[trigger] indices@[k]) as int == j by {
                    if j != ix as int {
                        assert(graph_nodes(g_pre).contains_key(j));
                        let k0 = choose|k: int| 0 <= k < i && (#[trigger] ind_pre[k]) as int == j;
                        assert(indices@[k0] as int == j);
                    } else {
                        assert(indices@[i as int] as int == j);
                    }
                }
            }
            i = i + 1;
        }
        let mut e: usize = 0;
        while e < bonds.len()
            invariant
                0 <= e <= bonds@.len(),
                graph_nodes(graph).dom().finite(),
                indices@.len() == atoms@.len(),
                forall|k: int|
                    0 <= k < atoms@.len() ==> graph_nodes(graph).contains_key(
                        (#[trigger] indices@[k]) as int,
                    ) && graph_nodes(graph)[indices@[k] as int] == atoms@[k].0,
                forall|j: int|
                    #[trigger] graph_nodes(graph).contains_key(j) ==> exists|k: int|
                        0 <= k < atoms@.len() && (#[trigger] indices@[k]) as int == j,
                forall|k1: int, k2: int|
                    0 <= k1 < k2 < atoms@.len() ==> (#[trigger] atoms@[k1]).0.spec != (
                    #[trigger] atoms@[k2]).0.spec,
                forall|k: int|
                    0 <= k < atoms@.len() ==> (#[trigger] atoms@[k]).0.element.wf(),
                forall|k: int|
                    0 <= k < atoms@.len() ==> positions@.contains_key(
                        (#[trigger] atoms@[k]).0.spec,
                    ) && positions@[atoms@[k].0.spec] == atoms@[k].1.spec_clamped(),
                forall|s: AtomSpecifier|
                    #[trigger] positions@.contains_key(s) ==> positions@[s].wf() && exists|k: int|
                        0 <= k < atoms@.len() && (#[trigger] atoms@[k]).0.spec == s,
                forall|t: (int, int, u8)|
                    #[trigger] graph_edges(graph).count(t) > 0 ==> graph_nodes(
                        graph,
                    ).contains_key(t.0) && graph_nodes(graph).contains_key(t.1),
            decreases bonds@.len() - e,
        {
            let b = bonds[e];
            if b.0 >= indices.len() || b.1 >= indices.len() {
                return None;
            }
            let ia = indices[b.0];
            let ib = indices[b.1];
            g_add_edge(&mut graph, ia, ib, b.2);
            proof {
                assert forall|t: (int, int, u8)| #[trigger]
                    graph_edges(graph).count(t) > 0 implies graph_nodes(graph).contains_key(t.0)
                    && graph_nodes(graph).contains_key(t.1) by {}
            }
            e = e + 1;
        }
        let cp = MoleculeCheckpoint { graph, positions };
        proof {
            assert forall|i1: int, i2: int| #[trigger]
                graph_nodes(cp.graph).contains_key(i1) && #[trigger] graph_nodes(
                cp.graph,
            ).contains_key(i2) && i1 != i2 implies graph_nodes(cp.graph)[i1].spec != graph_nodes(
                cp.graph,
            )[i2].spec by {
                let k1 = choose|k: int|
                    0 <= k < atoms@.len() && (#[trigger] indices@[k]) as int == i1;
                let k2 = choose|k: int|
                    0 <= k < atoms@.len() && (#[trigger] indices@[k]) as int == i2;
                if k1 < k2 {
                    assert(atoms@[k1].0.spec != atoms@[k2].0.spec);
                } else if k2 < k1 {
                    assert(atoms@[k2].0.spec != atoms@[k1].0.spec);
                }
            }
            assert forall|k: int| 0 <= k < atoms@.len() implies cp.has_atom(
                (#[trigger] atoms@[k]).0.spec,
            ) && cp.atoms_map()[atoms@[k].0.spec] == atoms@[k].0 && cp.positions_map()[atoms@[k].0.spec] == atoms@[k].1.spec_clamped() by {
                assert(graph_nodes(cp.graph).contains_key(indices@[k] as int));
                assert(cp.has_atom(atoms@[k].0.spec));
                let j = cp.idx_of(atoms@[k].0.spec);
                assert(cp.nodes().contains_key(j) && cp.nodes()[j].spec == atoms@[k].0.spec);
                let kj = choose|kj: int|
                    0 <= kj < atoms@.len() && (#[trigger] indices@[kj]) as int == j;
                if kj < k {
                    assert(atoms@[kj].0.spec != atoms@[k].0.spec);
                } else if k < kj {
                    assert(atoms@[k].0.spec != atoms@[kj].0.spec);
                }
            }
            assert forall|s: AtomSpecifier| #[trigger] cp.has_atom(s) implies exists|k: int|
                0 <= k < atoms@.len() && (#[trigger] atoms@[k]).0.spec == s by {
                let i2 = choose|i2: int| #[trigger]
                    cp.nodes().contains_key(i2) && cp.nodes()[i2].spec == s;
                let k = choose|k: int|
                    0 <= k < atoms@.len() && (#[trigger] indices@[k]) as int == i2;
                assert(atoms@[k].0.spec == s);
            }
            assert forall|i2: int| #[trigger]
                graph_nodes(cp.graph).contains_key(i2) implies graph_nodes(
                cp.graph,
            )[i2].element.wf() && cp.positions@.contains_key(graph_nodes(cp.graph)[i2].spec) by {
                let k = choose|k: int|
                    0 <= k < atoms@.len() && (#[trigger] indices@[k]) as int == i2;
            }
            assert forall|s: AtomSpecifier| #[trigger]
                cp.positions@.contains_key(s) implies node_specs(graph_nodes(cp.graph)).contains(
                s,
            ) by {
                let k = choose|k: int|
                    0 <= k < atoms@.len() && (#[trigger] atoms@[k]).0.spec == s;
                assert(graph_nodes(cp.graph).contains_key(indices@[k] as int));
            }
            assert(cp.wf());
        }
        Some(cp)
    }
}

} // verus!
