//! Graph-level editing: identifier stability, error reporting, snapshots.

use atomcad::elements::{Element, ElementTable};
use atomcad::error::FeatureError;
use atomcad::geom::Pos;
use atomcad::ids::AtomSpecifier;
use atomcad::repr::{MoleculeCheckpoint, MoleculeRepr};

fn table() -> ElementTable {
    ElementTable::uniform(700).unwrap()
}

fn two_atoms() -> (MoleculeRepr, AtomSpecifier, AtomSpecifier) {
    let t = table();
    let mut r = MoleculeRepr::new();
    let a = AtomSpecifier::new(0, 0);
    let b = AtomSpecifier::new(0, 1);
    r.add_atom(&t, Element(6), Pos::new(0, 0, 0), a, None).unwrap();
    r.add_atom(&t, Element(8), Pos::new(0, 0, 3000), b, Some(a)).unwrap();
    (r, a, b)
}

#[test]
fn every_live_atom_resolves_to_node_and_position() {
    let (mut r, a, b) = two_atoms();
    r.create_bond(&a, &b, 1).unwrap();
    for spec in [a, b] {
        let node = r.find_atom(&spec).unwrap();
        assert_eq!(node.spec, spec);
        assert!(r.pos(&spec).is_some());
    }
    assert_eq!(r.atom_reprs().len(), 2);
    assert!(r.find_atom(&AtomSpecifier::new(3, 3)).is_none());
    assert!(r.pos(&AtomSpecifier::new(3, 3)).is_none());
}

#[test]
fn removing_one_atom_leaves_others_resolvable() {
    let (mut r, a, b) = two_atoms();
    r.create_bond(&a, &b, 1).unwrap();
    let b_node = r.find_atom(&b).unwrap();
    let b_pos = r.pos(&b).unwrap();
    r.remove_atom(&table(), &a).unwrap();
    assert!(r.find_atom(&a).is_none());
    assert!(r.pos(&a).is_none());
    assert_eq!(r.find_atom(&b).unwrap(), b_node);
    assert_eq!(r.pos(&b).unwrap(), b_pos);
    // The incident bond went with the atom.
    assert_eq!(r.bond_reprs().len(), 0);
}

#[test]
fn duplicate_specifier_is_refused() {
    let (mut r, a, _b) = two_atoms();
    let err = r.add_atom(&table(), Element(7), Pos::new(5, 5, 5), a, None);
    assert_eq!(err, Err(FeatureError::AtomOverwrite));
    // Nothing changed: the atom that was there first is intact.
    assert_eq!(r.find_atom(&a).unwrap().element, Element(6));
}

#[test]
fn unknown_references_are_refused() {
    let (mut r, a, _b) = two_atoms();
    let ghost_spec = AtomSpecifier::new(9, 9);
    assert_eq!(r.remove_atom(&table(), &ghost_spec), Err(FeatureError::BrokenReference));
    assert_eq!(r.create_bond(&a, &ghost_spec, 1), Err(FeatureError::BrokenReference));
    assert_eq!(r.create_bond(&ghost_spec, &a, 1), Err(FeatureError::BrokenReference));
}

#[test]
fn uncovered_element_is_refused() {
    let mut r = MoleculeRepr::new();
    let err = r.add_atom(&table(), Element(0), Pos::new(0, 0, 0), AtomSpecifier::new(0, 0), None);
    assert_eq!(err, Err(FeatureError::UnknownElement));
    let err = r.add_atom(&table(), Element(200), Pos::new(0, 0, 0), AtomSpecifier::new(0, 0), None);
    assert_eq!(err, Err(FeatureError::UnknownElement));
}

#[test]
fn parallel_bonds_are_permitted() {
    let (mut r, a, b) = two_atoms();
    r.create_bond(&a, &b, 1).unwrap();
    r.create_bond(&a, &b, 1).unwrap();
    r.create_bond(&b, &a, 2).unwrap();
    assert_eq!(r.bond_reprs().len(), 3);
}

#[test]
fn checkpoint_round_trips_through_parts() {
    let (mut r, a, b) = two_atoms();
    r.create_bond(&a, &b, 1).unwrap();
    let cp = r.make_checkpoint();
    let (atoms, bonds) = cp.to_parts();
    assert_eq!(atoms.len(), 2);
    assert_eq!(bonds.len(), 1);
    let rebuilt = MoleculeCheckpoint::from_parts(atoms, bonds).unwrap();
    let mut r2 = MoleculeRepr::new();
    r2.set_checkpoint(rebuilt, &table());
    for spec in [a, b] {
        assert_eq!(r2.find_atom(&spec), r.find_atom(&spec));
        assert_eq!(r2.pos(&spec), r.pos(&spec));
    }
    assert_eq!(r2.bond_reprs().len(), 1);
}

#[test]
fn invalid_parts_are_refused() {
    let t = table();
    let mut r = MoleculeRepr::new();
    let a = AtomSpecifier::new(0, 0);
    r.add_atom(&t, Element(6), Pos::new(0, 0, 0), a, None).unwrap();
    let cp = r.make_checkpoint();
    let (atoms, _bonds) = cp.to_parts();
    // A bond endpoint out of range is refused.
    assert!(MoleculeCheckpoint::from_parts(atoms.clone(), vec![(0, 5, 1)]).is_none());
    // A duplicated specifier is refused.
    let mut doubled = atoms.clone();
    doubled.push(atoms[0]);
    assert!(MoleculeCheckpoint::from_parts(doubled, vec![]).is_none());
}

#[test]
fn clear_resets_everything() {
    let (mut r, a, b) = two_atoms();
    r.create_bond(&a, &b, 1).unwrap();
    r.clear();
    assert!(r.find_atom(&a).is_none());
    assert!(r.find_atom(&b).is_none());
    assert_eq!(r.atom_reprs().len(), 0);
    assert_eq!(r.bond_reprs().len(), 0);
    assert!(r.bounding_box().is_empty());
}

#[test]
fn sync_flag_tracks_edits() {
    let (mut r, a, _b) = two_atoms();
    assert!(!r.is_synced());
    r.mark_synced();
    assert!(r.is_synced());
    r.remove_atom(&table(), &a).unwrap();
    assert!(!r.is_synced());
}

#[test]
fn forward_of_root_atom_is_plus_z() {
    let t = table();
    let mut r = MoleculeRepr::new();
    let a = AtomSpecifier::new(0, 0);
    r.add_atom(&t, Element(6), Pos::new(0, 0, 0), a, None).unwrap();
    let node = r.find_atom(&a).unwrap();
    assert_eq!(node.forward(&r), Pos::new(0, 0, 1000));
}

#[test]
fn forward_points_toward_head() {
    let (r, _a, b) = two_atoms();
    // b's head is a, straight down the -z axis from b.
    let node = r.find_atom(&b).unwrap();
    let f = node.forward(&r);
    assert_eq!(f, Pos::new(0, 0, -1000));
}
