//! Edit operations ("features"), their deterministic effect on the
//! molecule's topology, and the ordered feature timeline.
//!
//! Every feature's structural effect is given twice: as executable code
//! against [`MoleculeRepr`], and as a pure function [`apply_topo`] on an
//! abstract [`Topo`] (atoms plus a bond multiset).  The executable `apply`
//! is proved to track `apply_topo` exactly, so replaying a timeline is a
//! pure function of the timeline alone.

use vstd::prelude::*;
use vstd::multiset::Multiset;

use crate::atom::AtomNode;
use crate::elements::Element;
use crate::elements::ElementTable;
use crate::error::FeatureError;
use crate::geom::Pos;
use crate::ids::AtomSpecifier;
use crate::repr::MoleculeRepr;

verus! {

/// The abstract topology of a molecule: its atoms by specifier, and the
/// multiset of its bonds as (from, to, order) triples.
pub struct Topo {
    pub atoms: Map<AtomSpecifier, AtomNode>,
    pub bonds: Multiset<(AtomSpecifier, AtomSpecifier, u8)>,
}

impl Topo {
    /// The empty topology.
    pub open spec fn empty() -> Topo {
        Topo { atoms: Map::empty(), bonds: Multiset::empty() }
    }
}

/// Whether a concrete molecule realizes an abstract topology.
pub open spec fn repr_matches(r: MoleculeRepr, t: Topo) -> bool {
    &&& r.atoms() == t.atoms
    &&& forall|a: AtomSpecifier, b: AtomSpecifier, w: u8|
        #[trigger] r.bond_count(a, b, w) == t.bonds.count((a, b, w))
}

/// Whether adding an atom with this specifier and element succeeds.
pub open spec fn add_atom_ok(t: Topo, element: Element, spec: AtomSpecifier) -> bool {
    !t.atoms.contains_key(spec) && element.wf()
}

/// The topology after adding an atom (unchanged if the add fails).
pub open spec fn topo_add_atom(
    t: Topo,
    element: Element,
    spec: AtomSpecifier,
    head: Option<AtomSpecifier>,
) -> Topo {
    if add_atom_ok(t, element, spec) {
        Topo { atoms: t.atoms.insert(spec, AtomNode { element, spec, head }), bonds: t.bonds }
    } else {
        t
    }
}

/// Whether bonding `a` to `b` succeeds.
pub open spec fn create_bond_ok(t: Topo, a: AtomSpecifier, b: AtomSpecifier) -> bool {
    t.atoms.contains_key(a) && t.atoms.contains_key(b)
}

/// The topology after adding a bond (unchanged if an endpoint is missing).
pub open spec fn topo_create_bond(t: Topo, a: AtomSpecifier, b: AtomSpecifier, w: u8) -> Topo {
    if create_bond_ok(t, a, b) {
        Topo { atoms: t.atoms, bonds: t.bonds.insert((a, b, w)) }
    } else {
        t
    }
}

/// The empty position map.
pub open spec fn no_positions() -> Map<AtomSpecifier, Pos> {
    Map::empty()
}

/// The position map after an atom insert: the (clamped) position is
/// recorded exactly when the insert succeeds.
pub open spec fn apply_pos_add(
    t: Topo,
    pm: Map<AtomSpecifier, Pos>,
    element: Element,
    spec: AtomSpecifier,
    pos: Pos,
) -> Map<AtomSpecifier, Pos> {
    if add_atom_ok(t, element, spec) {
        pm.insert(spec, pos.spec_clamped())
    } else {
        pm
    }
}

/// Where a bonded atom is placed: one equilibrium bond length (4.0 units)
/// from the bond target along the target's facing direction — the unit
/// vector toward the target's head, or +z when the target has no head or
/// the head has no position.
pub open spec fn bonded_placement(t: Topo, pm: Map<AtomSpecifier, Pos>, b: BondedAtom) -> Pos {
    let tp = pm[b.target];
    let u = match t.atoms[b.target].head {
        Some(h) => if pm.contains_key(h) {
            crate::repr::spec_forward(pm[h], tp)
        } else {
            Pos { x: 0, y: 0, z: 1000 }
        },
        None => Pos { x: 0, y: 0, z: 1000 },
    };
    Pos { x: (tp.x + u.x * 4) as i64, y: (tp.y + u.y * 4) as i64, z: (tp.z + u.z * 4) as i64 }
}

/// The positions after adding the first `atoms.len()` imported atoms.
pub open spec fn import_atoms_pos_fold(
    t: Topo,
    pm: Map<AtomSpecifier, Pos>,
    fid: u64,
    atoms: Seq<ImportAtom>,
) -> Map<AtomSpecifier, Pos>
    decreases atoms.len(),
{
    if atoms.len() == 0 {
        pm
    } else {
        apply_pos_add(
            import_atoms_fold(t, fid, atoms.drop_last()),
            import_atoms_pos_fold(t, pm, fid, atoms.drop_last()),
            atoms.last().element,
            child_spec(fid, atoms.len() - 1),
            atoms.last().pos,
        )
    }
}

/// The positions after applying a feature: each successfully added atom is
/// recorded at its deterministic placement (the origin for a root atom,
/// [`bonded_placement`] for a bonded atom, the imported coordinates for a
/// bulk import); bonds leave positions untouched.
pub open spec fn apply_positions(
    m: FeatureModel,
    fid: u64,
    t: Topo,
    pm: Map<AtomSpecifier, Pos>,
) -> Map<AtomSpecifier, Pos> {
    match m {
        FeatureModel::Root(e) => apply_pos_add(
            t,
            pm,
            e,
            child_spec(fid, 0),
            Pos { x: 0, y: 0, z: 0 },
        ),
        FeatureModel::Bonded(b) => if !t.atoms.contains_key(b.target) {
            pm
        } else {
            apply_pos_add(t, pm, b.element, child_spec(fid, 0), bonded_placement(t, pm, b))
        },
        FeatureModel::Import(atoms, bonds) => import_atoms_pos_fold(t, pm, fid, atoms),
    }
}

/// The specifier of the `k`-th atom created by feature `fid`.
pub open spec fn child_spec(fid: u64, k: int) -> AtomSpecifier {
    AtomSpecifier { feature: fid, child: k as u64 }
}

/// An atom of a bulk import: its element and starting position.
#[derive(Clone, Copy, PartialEq, Eq, Structural, Debug)]
pub struct ImportAtom {
    pub element: Element,
    pub pos: Pos,
}

/// A bond of a bulk import, referencing two imported atoms by their index
/// in the import's atom list.
#[derive(Clone, Copy, PartialEq, Eq, Structural, Debug)]
pub struct ImportBond {
    pub a: usize,
    pub b: usize,
    pub order: u8,
}

/// The parameters of a bonded-atom feature: the existing atom to bond to,
/// the new atom's element, and the bond order.
#[derive(Clone, Copy, PartialEq, Eq, Structural, Debug)]
pub struct BondedAtom {
    pub target: AtomSpecifier,
    pub element: Element,
    pub order: u8,
}

/// A bulk import: a batch of atoms and bonds recorded as one timeline
/// entry (for example, the contents of an external structure file, already
/// decoded into plain values).
#[derive(PartialEq, Eq, Debug)]
pub struct ImportData {
    pub atoms: Vec<ImportAtom>,
    pub bonds: Vec<ImportBond>,
}

/// One recorded edit operation.
#[derive(PartialEq, Eq, Debug)]
pub enum Feature {
    /// Creates a free-standing atom of the given element at the origin.
    RootAtom(Element),
    /// Creates an atom bonded to an existing atom.
    BondedAtom(BondedAtom),
    /// Replays a bulk import.
    Import(ImportData),
}

/// The mathematical shape of a feature, with sequences for the bulk data.
pub enum FeatureModel {
    Root(Element),
    Bonded(BondedAtom),
    Import(Seq<ImportAtom>, Seq<ImportBond>),
}

impl Feature {
    /// The feature's mathematical shape.
    pub open spec fn model(self) -> FeatureModel {
        match self {
            Feature::RootAtom(e) => FeatureModel::Root(e),
            Feature::BondedAtom(b) => FeatureModel::Bonded(b),
            Feature::Import(d) => FeatureModel::Import(d.atoms@, d.bonds@),
        }
    }

    /// A copy with the same shape.
    pub fn duplicate(&self) -> (r: Feature)
        ensures
            r.model() == self.model(),
    {
        match self {
            Feature::RootAtom(e) => Feature::RootAtom(*e),
            Feature::BondedAtom(b) => Feature::BondedAtom(*b),
            Feature::Import(d) => Feature::Import(
                ImportData { atoms: copy_vec(&d.atoms), bonds: copy_vec(&d.bonds) },
            ),
        }
    }
}

/// A copy of a vector of copyable values.
pub fn copy_vec<T: Copy>(v: &Vec<T>) -> (r: Vec<T>)
    ensures
        r@ == v@,
{
    let mut out: Vec<T> = Vec::new();
    let mut i: usize = 0;
    while i < v.len()
        invariant
            0 <= i <= v@.len(),
            out@ == v@.subrange(0, i as int),
        decreases v@.len() - i,
    {
        out.push(v[i]);
        proof {
            assert(out@ =~= v@.subrange(0, i + 1));
        }
        i = i + 1;
    }
    proof {
        assert(out@ =~= v@);
    }
    out
}

/// The topology after adding the first `atoms.len()` imported atoms.
pub open spec fn import_atoms_fold(t: Topo, fid: u64, atoms: Seq<ImportAtom>) -> Topo
    decreases atoms.len(),
{
    if atoms.len() == 0 {
        t
    } else {
        topo_add_atom(
            import_atoms_fold(t, fid, atoms.drop_last()),
            atoms.last().element,
            child_spec(fid, atoms.len() - 1),
            None,
        )
    }
}

/// Whether every imported atom was added successfully.
pub open spec fn import_atoms_ok(t: Topo, fid: u64, atoms: Seq<ImportAtom>) -> bool
    decreases atoms.len(),
{
    if atoms.len() == 0 {
        true
    } else {
        import_atoms_ok(t, fid, atoms.drop_last()) && add_atom_ok(
            import_atoms_fold(t, fid, atoms.drop_last()),
            atoms.last().element,
            child_spec(fid, atoms.len() - 1),
        )
    }
}

/// The topology after adding the imported bonds.
pub open spec fn import_bonds_fold(t: Topo, fid: u64, bonds: Seq<ImportBond>) -> Topo
    decreases bonds.len(),
{
    if bonds.len() == 0 {
        t
    } else {
        topo_create_bond(
            import_bonds_fold(t, fid, bonds.drop_last()),
            child_spec(fid, bonds.last().a as int),
            child_spec(fid, bonds.last().b as int),
            bonds.last().order,
        )
    }
}

/// Whether every imported bond was created successfully.
pub open spec fn import_bonds_ok(t: Topo, fid: u64, bonds: Seq<ImportBond>) -> bool
    decreases bonds.len(),
{
    if bonds.len() == 0 {
        true
    } else {
        import_bonds_ok(t, fid, bonds.drop_last()) && create_bond_ok(
            import_bonds_fold(t, fid, bonds.drop_last()),
            child_spec(fid, bonds.last().a as int),
            child_spec(fid, bonds.last().b as int),
        )
    }
}

/// The effect of a bonded-atom feature: nothing if the bond target is
/// missing or the new atom cannot be added; otherwise the new atom plus
/// one bond from it to the target.
pub open spec fn apply_bonded(t: Topo, fid: u64, b: BondedAtom) -> Topo {
    if !t.atoms.contains_key(b.target) {
        t
    } else if !add_atom_ok(t, b.element, child_spec(fid, 0)) {
        t
    } else {
        topo_create_bond(
            topo_add_atom(t, b.element, child_spec(fid, 0), Some(b.target)),
            child_spec(fid, 0),
            b.target,
            b.order,
        )
    }
}

/// Applying a feature with timeline id `fid` to a topology.  A failing
/// part of a feature is skipped; whatever else the feature did remains.
pub open spec fn apply_topo(m: FeatureModel, fid: u64, t: Topo) -> Topo {
    match m {
        FeatureModel::Root(e) => topo_add_atom(t, e, child_spec(fid, 0), None),
        FeatureModel::Bonded(b) => apply_bonded(t, fid, b),
        FeatureModel::Import(atoms, bonds) => import_bonds_fold(
            import_atoms_fold(t, fid, atoms),
            fid,
            bonds,
        ),
    }
}

/// Whether applying the feature succeeds completely.
pub open spec fn apply_ok(m: FeatureModel, fid: u64, t: Topo) -> bool {
    match m {
        FeatureModel::Root(e) => add_atom_ok(t, e, child_spec(fid, 0)),
        FeatureModel::Bonded(b) => t.atoms.contains_key(b.target) && add_atom_ok(
            t,
            b.element,
            child_spec(fid, 0),
        ),
        FeatureModel::Import(atoms, bonds) => import_atoms_ok(t, fid, atoms) && import_bonds_ok(
            import_atoms_fold(t, fid, atoms),
            fid,
            bonds,
        ),
    }
}

/// A successful atom insert realizes `topo_add_atom`.
proof fn lemma_matches_add_atom(
    pre: MoleculeRepr,
    post: MoleculeRepr,
    t: Topo,
    element: Element,
    spec: AtomSpecifier,
    head: Option<AtomSpecifier>,
)
    requires
        repr_matches(pre, t),
        !pre.atoms().contains_key(spec),
        element.wf(),
        post.atoms() == pre.atoms().insert(spec, AtomNode { element, spec, head }),
        forall|a: AtomSpecifier, b: AtomSpecifier, w: u8|
            #[trigger] post.bond_count(a, b, w) == pre.bond_count(a, b, w),
    ensures
        repr_matches(post, topo_add_atom(t, element, spec, head)),
{
}

/// A successful bond insert realizes `topo_create_bond`.
proof fn lemma_matches_create_bond(
    pre: MoleculeRepr,
    post: MoleculeRepr,
    t: Topo,
    a: AtomSpecifier,
    b: AtomSpecifier,
    w: u8,
)
    requires
        repr_matches(pre, t),
        pre.atoms().contains_key(a),
        pre.atoms().contains_key(b),
        post.atoms() == pre.atoms(),
        forall|x: AtomSpecifier, y: AtomSpecifier, v: u8|
            #[trigger] post.bond_count(x, y, v) == pre.bond_count(x, y, v) + (if x == a && y == b
                && v == w {
                1nat
            } else {
                0nat
            }),
    ensures
        repr_matches(post, topo_create_bond(t, a, b, w)),
{
    broadcast use vstd::multiset::group_multiset_axioms;

    let t2 = topo_create_bond(t, a, b, w);
    assert forall|x: AtomSpecifier, y: AtomSpecifier, v: u8| #[trigger]
        post.bond_count(x, y, v) == t2.bonds.count((x, y, v)) by {
        assert(t2.bonds == t.bonds.insert((a, b, w)));
        if x == a && y == b && v == w {
            assert(t.bonds.insert((a, b, w)).count((a, b, w)) == t.bonds.count((a, b, w)) + 1);
        } else {
            assert(t.bonds.insert((a, b, w)).count((x, y, v)) == t.bonds.count((x, y, v)));
        }
    }
}

impl Feature {
    /// Applies the feature to a molecule.  The structural effect is
    /// exactly `apply_topo` on any topology the molecule realizes, and the
    /// call reports success exactly when `apply_ok` holds; a failing part
    /// of a feature is skipped, not rolled back.  Positions of new atoms
    /// are chosen deterministically (origin for a root atom, one
    /// equilibrium bond length "in front of" the bond target otherwise).
    pub fn apply(&self, fid: u64, repr: &mut MoleculeRepr, table: &ElementTable) -> (r: Result<
        (),
        FeatureError,
    >)
        requires
            old(repr).wf(),
            table.wf(),
        ensures
            final(repr).wf(),
            forall|t: Topo|
                #[trigger] repr_matches(*old(repr), t) ==> repr_matches(
                    *final(repr),
                    apply_topo(self.model(), fid, t),
                ) && (r is Ok <==> apply_ok(self.model(), fid, t)) && final(repr).positions_map()
                    == apply_positions(self.model(), fid, t, old(repr).positions_map()),
    {
        match self {
            Feature::RootAtom(e) => {
                let res = repr.add_atom(table, *e, Pos::origin(), AtomSpecifier::new(fid, 0), None);
                proof {
                    assert forall|t: Topo| #[trigger]
                        repr_matches(*old(repr), t) implies repr_matches(
                        *repr,
                        apply_topo(self.model(), fid, t),
                    ) && (res is Ok <==> apply_ok(self.model(), fid, t)) && repr.positions_map()
                        == apply_positions(self.model(), fid, t, old(repr).positions_map()) by {
                        let spec = child_spec(fid, 0);
                        if !old(repr).atoms().contains_key(spec) && e.wf() {
                            lemma_matches_add_atom(
                                *old(repr),
                                *repr,
                                t,
                                *e,
                                spec,
                                None,
                            );
                            assert((Pos { x: 0, y: 0, z: 0 }).spec_clamped() == (Pos {
                                x: 0,
                                y: 0,
                                z: 0,
                            }));
                        }
                    }
                }
                res
            },
            Feature::BondedAtom(ba) => {
                proof {
                    old(repr).lemma_wf_atoms_positions();
                    old(repr).lemma_wf_geom();
                }
                let target_pos = match repr.pos(&ba.target) {
                    None => {
                        proof {
                            assert forall|t: Topo| #[trigger]
                                repr_matches(*old(repr), t) implies repr_matches(
                                *repr,
                                apply_topo(self.model(), fid, t),
                            ) && !apply_ok(self.model(), fid, t) && repr.positions_map()
                                == apply_positions(
                                self.model(),
                                fid,
                                t,
                                old(repr).positions_map(),
                            ) by {
                                assert(!old(repr).atoms().contains_key(ba.target));
                            }
                        }
                        return Err(FeatureError::BrokenReference);
                    },
                    Some(p) => p,
                };
                proof {
                    assert(old(repr).atoms().contains_key(ba.target));
                }
                let tnode = repr.find_atom(&ba.target).unwrap();
                // Place the new atom one equilibrium bond length along the
                // target's facing direction (falling back to +z when the
                // target's head is gone or has no position).
                let u: Pos = match tnode.head {
                    Some(h) => {
                        match repr.pos(&h) {
                            Some(_) => tnode.forward(repr),
                            None => Pos { x: 0, y: 0, z: 1000 },
                        }
                    },
                    None => Pos { x: 0, y: 0, z: 1000 },
                };
                let np = Pos {
                    x: target_pos.x + u.x * 4,
                    y: target_pos.y + u.y * 4,
                    z: target_pos.z + u.z * 4,
                };
                let new_spec = AtomSpecifier::new(fid, 0);
                let res = repr.add_atom(table, ba.element, np, new_spec, Some(ba.target));
                if res.is_err() {
                    proof {
                        assert forall|t: Topo| #[trigger]
                            repr_matches(*old(repr), t) implies repr_matches(
                            *repr,
                            apply_topo(self.model(), fid, t),
                        ) && !apply_ok(self.model(), fid, t) && repr.positions_map()
                            == apply_positions(
                            self.model(),
                            fid,
                            t,
                            old(repr).positions_map(),
                        ) by {}
                    }
                    return res;
                }
                let ghost mid = *repr;
                let res2 = repr.create_bond(&new_spec, &ba.target, ba.order);
                proof {
                    assert forall|t: Topo| #[trigger]
                        repr_matches(*old(repr), t) implies repr_matches(
                        *repr,
                        apply_topo(self.model(), fid, t),
                    ) && (res2 is Ok <==> apply_ok(self.model(), fid, t)) && repr.positions_map()
                        == apply_positions(self.model(), fid, t, old(repr).positions_map()) by {
                        let spec = child_spec(fid, 0);
                        lemma_matches_add_atom(*old(repr), mid, t, ba.element, spec, Some(ba.target));
                        let t1 = topo_add_atom(t, ba.element, spec, Some(ba.target));
                        lemma_matches_create_bond(mid, *repr, t1, spec, ba.target, ba.order);
                        // The computed placement is the specified placement.
                        assert(t.atoms[ba.target] == old(repr).atoms()[ba.target]);
                        assert(np == bonded_placement(t, old(repr).positions_map(), *ba));
                        assert(repr.positions_map() == mid.positions_map());
                    }
                }
                res2
            },
            Feature::Import(d) => {
                let mut err: Option<FeatureError> = None;
                let atom_count = d.atoms.len();
                let mut k: usize = 0;
                while k < atom_count
                    invariant
                        0 <= k <= atom_count,
                        atom_count == d.atoms@.len(),
                        repr.wf(),
                        table.wf(),
                        forall|t: Topo|
                            #[trigger] repr_matches(*old(repr), t) ==> repr_matches(
                                *repr,
                                import_atoms_fold(t, fid, d.atoms@.subrange(0, k as int)),
                            ) && (err is None <==> import_atoms_ok(
                                t,
                                fid,
                                d.atoms@.subrange(0, k as int),
                            )) && repr.positions_map() == import_atoms_pos_fold(
                                t,
                                old(repr).positions_map(),
                                fid,
                                d.atoms@.subrange(0, k as int),
                            ),
                    decreases atom_count - k,
                {
                    let item = d.atoms[k];
                    let ghost pre = *repr;
                    let res = repr.add_atom(
                        table,
                        item.element,
                        item.pos,
                        AtomSpecifier::new(fid, k as u64),
                        None,
                    );
                    if res.is_err() && err.is_none() {
                        err = Some(match res {
                            Err(e) => e,
                            Ok(_) => FeatureError::BrokenReference,
                        });
                    }
                    proof {
                        assert forall|t: Topo| #[trigger]
                            repr_matches(*old(repr), t) implies repr_matches(
                            *repr,
                            import_atoms_fold(t, fid, d.atoms@.subrange(0, k + 1)),
                        ) && (err is None <==> import_atoms_ok(
                            t,
                            fid,
                            d.atoms@.subrange(0, k + 1),
                        )) && repr.positions_map() == import_atoms_pos_fold(
                            t,
                            old(repr).positions_map(),
                            fid,
                            d.atoms@.subrange(0, k + 1),
                        ) by {
                            let prefix = d.atoms@.subrange(0, k as int);
                            let prefix1 = d.atoms@.subrange(0, k + 1);
                            assert(prefix1.drop_last() =~= prefix);
                            assert(prefix1.last() == d.atoms@[k as int]);
                            let tk = import_atoms_fold(t, fid, prefix);
                            let spec = child_spec(fid, k as int);
                            if add_atom_ok(tk, item.element, spec) {
                                lemma_matches_add_atom(pre, *repr, tk, item.element, spec, None);
                            }
                        }
                    }
                    k = k + 1;
                }
                proof {
                    assert(d.atoms@.subrange(0, atom_count as int) =~= d.atoms@);
                }
                let ghost t_atoms_done = *repr;
                let bond_count = d.bonds.len();
                let mut k2: usize = 0;
                while k2 < bond_count
                    invariant
                        0 <= k2 <= bond_count,
                        bond_count == d.bonds@.len(),
                        repr.wf(),
                        table.wf(),
                        repr.positions_map() == t_atoms_done.positions_map(),
                        forall|t: Topo|
                            #[trigger] repr_matches(*old(repr), t)
                                ==> t_atoms_done.positions_map() == import_atoms_pos_fold(
                                t,
                                old(repr).positions_map(),
                                fid,
                                d.atoms@,
                            ),
                        forall|t: Topo|
                            #[trigger] repr_matches(*old(repr), t) ==> repr_matches(
                                *repr,
                                import_bonds_fold(
                                    import_atoms_fold(t, fid, d.atoms@),
                                    fid,
                                    d.bonds@.subrange(0, k2 as int),
                                ),
                            ) && (err is None <==> import_atoms_ok(t, fid, d.atoms@)
                                && import_bonds_ok(
                                import_atoms_fold(t, fid, d.atoms@),
                                fid,
                                d.bonds@.subrange(0, k2 as int),
                            )),
                    decreases bond_count - k2,
                {
                    let item = d.bonds[k2];
                    let ghost pre = *repr;
                    let sa = AtomSpecifier::new(fid, item.a as u64);
                    let sb = AtomSpecifier::new(fid, item.b as u64);
                    let res = repr.create_bond(&sa, &sb, item.order);
                    if res.is_err() && err.is_none() {
                        err = Some(FeatureError::BrokenReference);
                    }
                    proof {
                        assert forall|t: Topo| #[trigger]
                            repr_matches(*old(repr), t) implies repr_matches(
                            *repr,
                            import_bonds_fold(
                                import_atoms_fold(t, fid, d.atoms@),
                                fid,
                                d.bonds@.subrange(0, k2 + 1),
                            ),
                        ) && (err is None <==> import_atoms_ok(t, fid, d.atoms@)
                            && import_bonds_ok(
                            import_atoms_fold(t, fid, d.atoms@),
                            fid,
                            d.bonds@.subrange(0, k2 + 1),
                        )) by {
                            let base = import_atoms_fold(t, fid, d.atoms@);
                            let prefix = d.bonds@.subrange(0, k2 as int);
                            let prefix1 = d.bonds@.subrange(0, k2 + 1);
                            assert(prefix1.drop_last() =~= prefix);
                            assert(prefix1.last() == d.bonds@[k2 as int]);
                            let tk = import_bonds_fold(base, fid, prefix);
                            if create_bond_ok(tk, sa, sb) {
                                lemma_matches_create_bond(pre, *repr, tk, sa, sb, item.order);
                            }
                        }
                    }
                    k2 = k2 + 1;
                }
                proof {
                    assert(d.bonds@.subrange(0, bond_count as int) =~= d.bonds@);
                }
                match err {
                    None => Ok(()),
                    Some(e) => Err(e),
                }
            },
        }
    }
}

/// An ordered, insertable timeline of features.  Each feature gets a
/// stable id when it enters the list; ids never change, while positions
/// shift as earlier insertions are made.
pub struct FeatureList {
    entries: Vec<(u64, Feature)>,
}

impl View for FeatureList {
    type V = Seq<(u64, FeatureModel)>;

    closed spec fn view(&self) -> Seq<(u64, FeatureModel)> {
        self.entries@.map_values(|p: (u64, Feature)| (p.0, p.1.model()))
    }
}

impl FeatureList {
    /// Ids are assigned in creation order: each is smaller than the list's
    /// length and no two entries share one.
    pub open spec fn wf(self) -> bool {
        &&& forall|i: int| 0 <= i < self@.len() ==> (#[trigger] self@[i]).0 < self@.len()
        &&& forall|i: int, j: int|
            0 <= i < j < self@.len() ==> (#[trigger] self@[i]).0 != (#[trigger] self@[j]).0
    }

    /// The empty timeline.
    pub fn new() -> (r: FeatureList)
        ensures
            r@ == Seq::<(u64, FeatureModel)>::empty(),
            r.wf(),
    {
        let r = FeatureList { entries: Vec::new() };
        proof {
            assert(r@ =~= Seq::<(u64, FeatureModel)>::empty());
        }
        r
    }

    /// How many features the timeline holds.
    pub fn len(&self) -> (r: usize)
        ensures
            r == self@.len(),
    {
        self.entries.len()
    }

    /// Whether the timeline holds no feature.
    pub fn is_empty(&self) -> (r: bool)
        ensures
            r == (self@.len() == 0),
    {
        self.entries.len() == 0
    }

    /// Inserts a feature at a position, shifting later features back by
    /// one.  The feature's new stable id (the count of features ever
    /// inserted) is returned; no existing id changes.
    pub fn insert(&mut self, feature: Feature, position: usize) -> (id: u64)
        requires
            old(self).wf(),
            position <= old(self)@.len(),
            old(self)@.len() < 0x10000000000000,
        ensures
            final(self).wf(),
            id == old(self)@.len(),
            final(self)@ == old(self)@.insert(position as int, (id, feature.model())),
    {
        let id = self.entries.len() as u64;
        self.entries.insert(position, (id, feature));
        proof {
            assert(self@ =~= old(self)@.insert(position as int, (id, feature.model())));
            let post = self@;
            let pre = old(self)@;
            assert forall|i: int, j: int| 0 <= i < j < post.len() implies (#[trigger] post[i]).0
                != (#[trigger] post[j]).0 by {
                if i != position && j != position {
                    let i0 = if i < position { i } else { i - 1 };
                    let j0 = if j < position { j } else { j - 1 };
                    assert(post[i] == pre[i0] && post[j] == pre[j0]);
                }
            }
        }
        id
    }

    /// Appends a feature at the end of the timeline.
    pub fn push_back(&mut self, feature: Feature) -> (id: u64)
        requires
            old(self).wf(),
            old(self)@.len() < 0x10000000000000,
        ensures
            final(self).wf(),
            id == old(self)@.len(),
            final(self)@ == old(self)@.push((id, feature.model())),
    {
        let n = self.entries.len();
        let id = self.insert(feature, n);
        proof {
            assert(self@ =~= old(self)@.push((id, feature.model())));
        }
        id
    }

    /// The entry at a timeline position: the feature's stable id and the
    /// feature itself.
    pub fn entry_at(&self, position: usize) -> (r: &(u64, Feature))
        requires
            position < self@.len(),
        ensures
            r.0 == self@[position as int].0,
            r.1.model() == self@[position as int].1,
    {
        &self.entries[position]
    }

    /// Looks a feature up by its stable id.
    pub fn get(&self, id: u64) -> (r: Option<&Feature>)
        ensures
            match r {
                Some(f) => exists|i: int|
                    0 <= i < self@.len() && (#[trigger] self@[i]) == (id, f.model()),
                None => forall|i: int| 0 <= i < self@.len() ==> (#[trigger] self@[i]).0 != id,
            },
    {
        let n = self.entries.len();
        let mut i: usize = 0;
        while i < n
            invariant
                0 <= i <= n,
                n == self@.len(),
                forall|j: int| 0 <= j < i ==> (#[trigger] self@[j]).0 != id,
            decreases n - i,
        {
            if self.entries[i].0 == id {
                let r = &self.entries[i].1;
                proof {
                    assert(self@[i as int] == (id, r.model()));
                }
                return Some(r);
            }
            i = i + 1;
        }
        None
    }

    /// The feature ids in timeline order.
    pub fn order(&self) -> (r: Vec<u64>)
        ensures
            r@.len() == self@.len(),
            forall|i: int| 0 <= i < r@.len() ==> #[trigger] r@[i] == self@[i].0,
    {
        let n = self.entries.len();
        let mut out: Vec<u64> = Vec::new();
        let mut i: usize = 0;
        while i < n
            invariant
                0 <= i <= n,
                n == self@.len(),
                out@.len() == i,
                forall|j: int| 0 <= j < i ==> #[trigger] out@[j] == self@[j].0,
            decreases n - i,
        {
            out.push(self.entries[i].0);
            i = i + 1;
        }
        out
    }

    /// Rebuilds a timeline from saved (id, feature) entries, validating
    /// that ids are in range and distinct.  Returns `None` on invalid data.
    pub fn from_entries(entries: Vec<(u64, Feature)>) -> (r: Option<FeatureList>)
        ensures
            match r {
                Some(l) => l.wf() && l@.len() == entries@.len() && forall|i: int|
                    0 <= i < entries@.len() ==> (#[trigger] l@[i]).0 == entries@[i].0 && l@[i].1
                        == entries@[i].1.model(),
                None => true,
            },
    {
        let n = entries.len();
        let mut i: usize = 0;
        while i < n
            invariant
                0 <= i <= n,
                n == entries@.len(),
                forall|k: int| 0 <= k < i ==> (#[trigger] entries@[k]).0 < n,
                forall|k1: int, k2: int|
                    0 <= k1 < k2 < i ==> (#[trigger] entries@[k1]).0 != (
                    #[trigger] entries@[k2]).0,
            decreases n - i,
        {
            if entries[i].0 >= n as u64 {
                return None;
            }
            let mut j: usize = 0;
            while j < i
                invariant
                    0 <= j <= i < n,
                    n == entries@.len(),
                    forall|k: int| 0 <= k < j ==> (#[trigger] entries@[k]).0 != entries@[i as int].0,
                decreases i - j,
            {
                if entries[j].0 == entries[i].0 {
                    return None;
                }
                j = j + 1;
            }
            i = i + 1;
        }
        let r = FeatureList { entries };
        proof {
            assert forall|k: int| 0 <= k < r@.len() implies (#[trigger] r@[k]).0 < r@.len() by {
                assert(r@[k].0 == entries@[k].0);
            }
        }
        Some(r)
    }

    /// A copy with the same entries.
    pub fn duplicate(&self) -> (r: FeatureList)
        ensures
            r@ == self@,
    {
        let n = self.entries.len();
        let mut out: Vec<(u64, Feature)> = Vec::new();
        let mut i: usize = 0;
        while i < n
            invariant
                0 <= i <= n,
                n == self.entries@.len(),
                out@.len() == i,
                forall|j: int|
                    0 <= j < i ==> (#[trigger] out@[j]).0 == self.entries@[j].0 && out@[j].1.model()
                        == self.entries@[j].1.model(),
            decreases n - i,
        {
            let entry = &self.entries[i];
            let copy = entry.1.duplicate();
            out.push((entry.0, copy));
            i = i + 1;
        }
        let r = FeatureList { entries: out };
        proof {
            assert(r@ =~= self@);
        }
        r
    }
}

} // verus!
