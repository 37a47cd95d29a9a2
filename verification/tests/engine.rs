//! History-engine scenarios: seeking, checkpointing, saving and reloading.

use atomcad::elements::{Element, ElementTable};
use atomcad::feature::{BondedAtom, Feature, ImportAtom, ImportBond, ImportData};
use atomcad::geom::Pos;
use atomcad::history::Molecule;
use atomcad::ids::AtomSpecifier;

fn table() -> ElementTable {
    ElementTable::uniform(530).unwrap()
}

fn salt() -> Molecule {
    let mut m = Molecule::from_feature(Feature::RootAtom(Element(11)), table());
    m.push_feature(Feature::BondedAtom(BondedAtom {
        target: AtomSpecifier::new(0, 0),
        element: Element(17),
        order: 1,
    }));
    m.apply_all_features();
    m
}

#[test]
fn root_feature_materializes_one_atom() {
    let m = Molecule::from_feature(Feature::RootAtom(Element(11)), table());
    assert_eq!(m.history_step(), 1);
    let root = m.repr.find_atom(&AtomSpecifier::new(0, 0)).unwrap();
    assert_eq!(root.element, Element(11));
    assert_eq!(root.spec, AtomSpecifier::new(0, 0));
    assert!(root.head.is_none());
    assert!(m.repr.pos(&AtomSpecifier::new(0, 0)).is_some());
    assert_eq!(m.repr.atom_reprs().len(), 1);
}

#[test]
fn bonded_feature_adds_atom_and_bond() {
    let m = salt();
    assert_eq!(m.history_step(), 2);
    let cl = m.repr.find_atom(&AtomSpecifier::new(1, 0)).unwrap();
    assert_eq!(cl.element, Element(17));
    assert_eq!(cl.head, Some(AtomSpecifier::new(0, 0)));
    assert_eq!(m.repr.atom_reprs().len(), 2);
    let bonds = m.repr.bond_reprs();
    assert_eq!(bonds.len(), 1);
    assert_eq!(bonds[0].order, 1);
}

#[test]
fn seeking_backward_hides_later_features() {
    let mut m = salt();
    m.set_history_step(1);
    assert!(m.repr.find_atom(&AtomSpecifier::new(0, 0)).is_some());
    assert!(m.repr.find_atom(&AtomSpecifier::new(1, 0)).is_none());
    assert_eq!(m.repr.atom_reprs().len(), 1);
    m.set_history_step(2);
    assert!(m.repr.find_atom(&AtomSpecifier::new(1, 0)).is_some());
}

#[test]
fn seeking_twice_is_idempotent() {
    let mut m = salt();
    m.set_history_step(1);
    m.set_history_step(2);
    let na_first = m.repr.pos(&AtomSpecifier::new(0, 0)).unwrap();
    let cl_first = m.repr.pos(&AtomSpecifier::new(1, 0)).unwrap();
    let count_first = m.repr.atom_reprs().len();
    m.set_history_step(2);
    let na_second = m.repr.pos(&AtomSpecifier::new(0, 0)).unwrap();
    let cl_second = m.repr.pos(&AtomSpecifier::new(1, 0)).unwrap();
    assert_eq!(na_first, na_second);
    assert_eq!(cl_first, cl_second);
    assert_eq!(m.repr.atom_reprs().len(), count_first);
}

#[test]
fn save_and_reload_restores_topology_and_positions() {
    let m = salt();
    let saved = m.save_data();
    let m2 = Molecule::from_save_data(saved, table());
    assert_eq!(m2.history_step(), 2);
    for spec in [AtomSpecifier::new(0, 0), AtomSpecifier::new(1, 0)] {
        let a = m.repr.find_atom(&spec).unwrap();
        let b = m2.repr.find_atom(&spec).unwrap();
        assert_eq!(a, b);
        assert_eq!(m.repr.pos(&spec).unwrap(), m2.repr.pos(&spec).unwrap());
    }
    assert_eq!(m.repr.bond_reprs().len(), m2.repr.bond_reprs().len());
}

#[test]
fn inserting_into_history_invalidates_later_checkpoints() {
    // Build Na, then bond Cl; a checkpoint exists at step 2.
    let mut m = salt();
    // Rewind to step 1 and insert a new sulfur feature there (id 2).
    m.set_history_step(1);
    m.push_feature(Feature::BondedAtom(BondedAtom {
        target: AtomSpecifier::new(0, 0),
        element: Element(16),
        order: 1,
    }));
    // Seeking to step 2 must reflect the inserted feature, not the stale
    // checkpoint that held the chlorine.
    m.set_history_step(2);
    assert!(m.repr.find_atom(&AtomSpecifier::new(2, 0)).is_some());
    assert!(m.repr.find_atom(&AtomSpecifier::new(1, 0)).is_none());
    // Seeking to the end materializes all three atoms.
    m.apply_all_features();
    assert_eq!(m.history_step(), 3);
    assert!(m.repr.find_atom(&AtomSpecifier::new(0, 0)).is_some());
    assert!(m.repr.find_atom(&AtomSpecifier::new(1, 0)).is_some());
    assert!(m.repr.find_atom(&AtomSpecifier::new(2, 0)).is_some());
    assert_eq!(m.repr.bond_reprs().len(), 2);
}

#[test]
fn import_feature_replays_batch() {
    let data = ImportData {
        atoms: vec![
            ImportAtom { element: Element(6), pos: Pos::new(0, 0, 0) },
            ImportAtom { element: Element(8), pos: Pos::new(0, 0, 2000) },
        ],
        bonds: vec![ImportBond { a: 0, b: 1, order: 2 }],
    };
    let m = Molecule::from_feature(Feature::Import(data), table());
    let c = m.repr.find_atom(&AtomSpecifier::new(0, 0)).unwrap();
    let o = m.repr.find_atom(&AtomSpecifier::new(0, 1)).unwrap();
    assert_eq!(c.element, Element(6));
    assert_eq!(o.element, Element(8));
    let bonds = m.repr.bond_reprs();
    assert_eq!(bonds.len(), 1);
    assert_eq!(bonds[0].order, 2);
}

#[test]
fn failing_feature_is_skipped_and_recorded() {
    let mut m = Molecule::from_feature(Feature::RootAtom(Element(11)), table());
    // This feature references an atom that does not exist.
    m.push_feature(Feature::BondedAtom(BondedAtom {
        target: AtomSpecifier::new(9, 9),
        element: Element(17),
        order: 1,
    }));
    m.apply_all_features();
    assert_eq!(m.history_step(), 2);
    assert_eq!(m.repr.atom_reprs().len(), 1);
    assert_eq!(m.replay_errors().len(), 1);
    assert_eq!(m.replay_errors()[0], 1);
}

#[test]
fn relaxation_converges_to_equilibrium_separation() {
    // Two bonded atoms, initially far from the equilibrium separation.
    let m = salt();
    let a = m.repr.pos(&AtomSpecifier::new(0, 0)).unwrap();
    let b = m.repr.pos(&AtomSpecifier::new(1, 0)).unwrap();
    let d2 = a.dist_sq(b);
    // Equilibrium is 4.0 units (4000 fixed-point); the iteration stops once
    // per-atom deltas are below threshold, which brackets the separation.
    let lo: i128 = 3900 * 3900;
    let hi: i128 = 4100 * 4100;
    assert!(d2 >= lo, "separation too small: {}", d2);
    assert!(d2 <= hi, "separation too large: {}", d2);
}

#[test]
fn ray_hits_single_atom_and_misses_outside_box() {
    let m = Molecule::from_feature(Feature::RootAtom(Element(11)), table());
    // Atom of radius 0.53 units at the origin; aim straight at it from
    // outside the bounding volume.
    let hit = m.get_ray_hit(Pos::new(0, 0, -10000), Pos::new(0, 0, 1000));
    assert_eq!(hit, Some(AtomSpecifier::new(0, 0)));
    // A parallel ray far outside the bounding volume must miss.
    let miss = m.get_ray_hit(Pos::new(50000, 50000, -10000), Pos::new(0, 0, 1000));
    assert!(miss.is_none());
    // A ray pointing away (volume entirely behind it) must miss.
    let behind = m.get_ray_hit(Pos::new(0, 0, -10000), Pos::new(0, 0, -1000));
    assert!(behind.is_none());
}

#[test]
fn timeline_reports_order_and_ids() {
    let mut m = salt();
    assert_eq!(m.features().len(), 2);
    let order = m.features().order();
    assert_eq!(order, vec![0, 1]);
    // Insert at step 1: the new feature sits between the two, keeping ids.
    m.set_history_step(1);
    m.push_feature(Feature::RootAtom(Element(2)));
    let order = m.features().order();
    assert_eq!(order, vec![0, 2, 1]);
    assert!(m.features().get(2).is_some());
    assert!(m.features().get(7).is_none());
}

#[test]
fn rebuilding_from_the_bare_timeline_matches_replay() {
    let m = salt();
    let timeline = m.features().duplicate();
    let m2 = atomcad::history::Molecule::from_timeline(timeline, 2, table());
    assert_eq!(m2.history_step(), 2);
    for spec in [AtomSpecifier::new(0, 0), AtomSpecifier::new(1, 0)] {
        assert_eq!(m.repr.find_atom(&spec), m2.repr.find_atom(&spec));
    }
    assert_eq!(m2.repr.bond_reprs().len(), 1);
}

#[test]
fn transform_rides_through_save_and_reload() {
    let mut m = salt();
    let placed = atomcad::history::Transform {
        rw: 707,
        rx: 0,
        ry: 707,
        rz: 0,
        offset: Pos::new(5000, -3000, 250),
    };
    m.set_transform(placed);
    assert_eq!(m.transform(), placed);
    let m2 = Molecule::from_save_data(m.save_data(), table());
    assert_eq!(m2.transform(), placed);
}

#[test]
fn clean_seek_records_no_failures() {
    let mut m = salt();
    m.set_history_step(1);
    m.set_history_step(2);
    assert!(m.replay_errors().is_empty());
}

#[test]
fn relaxation_is_deterministic_across_identical_molecules() {
    let a = salt();
    let b = salt();
    for spec in [AtomSpecifier::new(0, 0), AtomSpecifier::new(1, 0)] {
        assert_eq!(a.repr.pos(&spec), b.repr.pos(&spec));
    }
}

#[test]
fn atom_snapshots_come_in_stable_index_order() {
    let m = salt();
    let reprs = m.repr.atom_reprs();
    assert_eq!(reprs.len(), 2);
    // The root sodium atom was inserted first, the chlorine second.
    assert_eq!(reprs[0].kind.element(), Element(11));
    assert_eq!(reprs[1].kind.element(), Element(17));
    assert_eq!(reprs[0].pos, m.repr.pos(&AtomSpecifier::new(0, 0)).unwrap());
}
