//! Fixed-point geometry, element tables, kind packing, and the basic
//! containers the engine is built on.

use atomcad::elements::{AtomKind, Element, ElementTable, ELEMENT_COUNT};
use atomcad::geom::{clamp128, isqrt, tdiv, BoundingBox, Pos};
use atomcad::error::FeatureError;
use atomcad::ids::AtomSpecifier;
use atomcad::spec_map::SpecMap;

#[test]
fn isqrt_exact_values() {
    assert_eq!(isqrt(0), 0);
    assert_eq!(isqrt(1), 1);
    assert_eq!(isqrt(3), 1);
    assert_eq!(isqrt(4), 2);
    assert_eq!(isqrt(999999), 999);
    assert_eq!(isqrt(1000000), 1000);
    assert_eq!(isqrt(16000000), 4000);
}

#[test]
fn tdiv_truncates_toward_zero() {
    assert_eq!(tdiv(7, 2), 3);
    assert_eq!(tdiv(-7, 2), -3);
    assert_eq!(tdiv(0, 5), 0);
    assert_eq!(tdiv(-1, 1000), 0);
}

#[test]
fn clamp_bounds() {
    assert_eq!(clamp128(500, 100), 100);
    assert_eq!(clamp128(-500, 100), -100);
    assert_eq!(clamp128(50, 100), 50);
}

#[test]
fn atom_kind_round_trips_every_element() {
    let mut n: u8 = 1;
    while n <= ELEMENT_COUNT {
        let kind = AtomKind::new(Element(n));
        assert_eq!(kind.element(), Element(n));
        n += 1;
    }
}

#[test]
fn element_table_rejects_bad_radii() {
    assert!(ElementTable::uniform(50).is_none());
    assert!(ElementTable::uniform(2000000).is_none());
    assert!(ElementTable::uniform(100).is_some());
    // Wrong length is refused.
    assert!(ElementTable::from_radii(vec![500; 10]).is_none());
    // One out-of-band radius is refused.
    let mut radii = vec![500u32; ELEMENT_COUNT as usize + 1];
    radii[40] = 7;
    assert!(ElementTable::from_radii(radii).is_none());
    // A full in-band table is accepted and looked up by atomic number.
    let mut radii = vec![500u32; ELEMENT_COUNT as usize + 1];
    radii[1] = 530;
    let t = ElementTable::from_radii(radii).unwrap();
    assert_eq!(t.radius(Element(1)), 530);
    assert_eq!(t.radius(Element(2)), 500);
}

#[test]
fn bounding_box_grows_and_contains() {
    let mut bb = BoundingBox::empty();
    assert!(bb.is_empty());
    assert!(!bb.contains(Pos::new(0, 0, 0)));
    bb.enclose_sphere(Pos::new(0, 0, 0), 1000);
    assert!(!bb.is_empty());
    assert!(bb.contains(Pos::new(0, 0, 0)));
    assert!(bb.contains(Pos::new(999, 0, 0)));
    assert!(!bb.contains(Pos::new(0, 1001, 0)));
    bb.enclose_sphere(Pos::new(5000, 0, 0), 1000);
    assert!(bb.contains(Pos::new(3000, 0, 0)));
}

#[test]
fn bounding_box_union_covers_both() {
    let mut a = BoundingBox::empty();
    a.enclose_sphere(Pos::new(0, 0, 0), 500);
    let mut b = BoundingBox::empty();
    b.enclose_sphere(Pos::new(10000, 0, 0), 500);
    let u = a.union(&b);
    assert!(u.contains(Pos::new(0, 0, 0)));
    assert!(u.contains(Pos::new(10000, 0, 0)));
    let ue = a.union(&BoundingBox::empty());
    assert!(ue.contains(Pos::new(0, 0, 0)));
}

#[test]
fn positions_clamp_into_storable_band() {
    let p = Pos::new(i64::MAX, -i64::MAX, 7).clamped();
    assert_eq!(p.x, 0x20000000);
    assert_eq!(p.y, -0x20000000);
    assert_eq!(p.z, 7);
}

#[test]
fn spec_map_insert_get_remove() {
    let mut m: SpecMap<i64> = SpecMap::new();
    let a = AtomSpecifier::new(1, 0);
    let b = AtomSpecifier::new(1, 1);
    assert_eq!(m.get(&a), None);
    m.insert(a, 10);
    m.insert(b, 20);
    assert_eq!(m.get(&a), Some(10));
    assert_eq!(m.get(&b), Some(20));
    m.insert(a, 11);
    assert_eq!(m.get(&a), Some(11));
    m.remove(a);
    assert_eq!(m.get(&a), None);
    assert_eq!(m.get(&b), Some(20));
    assert!(m.contains(&b));
    assert!(!m.contains(&a));
    let copy = m.duplicate();
    assert_eq!(copy.get(&b), Some(20));
}

#[test]
fn dist_sq_is_exact() {
    let a = Pos::new(0, 0, 0);
    let b = Pos::new(3, 4, 0);
    assert_eq!(a.dist_sq(b), 25);
    assert_eq!(b.dist_sq(a), 25);
}

#[test]
fn error_descriptions_are_fixed_per_variant() {
    assert_eq!(FeatureError::AtomOverwrite.describe(), "atom specifier already in use");
    assert_eq!(FeatureError::BrokenReference.describe(), "reference to an unknown atom");
    assert_eq!(
        FeatureError::UnknownElement.describe(),
        "element not covered by the radius table"
    );
}
