//! Chemical elements, their physical radii, and the packed per-atom kind
//! word handed to a renderer.

use vstd::prelude::*;

verus! {

/// Number of chemical elements the library knows about.
pub const ELEMENT_COUNT: u8 = 118;

/// Smallest accepted fixed-point atomic radius (0.1 world units).
pub const MIN_RADIUS: u32 = 100;

/// Largest accepted fixed-point atomic radius (1000 world units).
pub const MAX_RADIUS: u32 = 1000000;

/// A chemical element, identified by its atomic number (1 through
/// [`ELEMENT_COUNT`]).
#[derive(Clone, Copy, PartialEq, Eq, Structural, Hash, Debug)]
pub struct Element(pub u8);

impl Element {
    /// An atomic number the radius table covers.
    pub open spec fn wf(self) -> bool {
        1 <= self.0 <= ELEMENT_COUNT
    }

    /// Whether the atomic number is one the radius table covers.
    pub fn is_valid(&self) -> (r: bool)
        ensures
            r == self.wf(),
    {
        1 <= self.0 && self.0 <= ELEMENT_COUNT
    }
}

/// Read-only physical constants per element: the fixed-point radius of each
/// atomic number.  The table is handed in by the caller (dependency
/// injection) rather than read from a process-wide global.
pub struct ElementTable {
    radii: Vec<u32>,
}

impl ElementTable {
    /// Every element has an entry, and every radius is in the accepted band.
    pub closed spec fn wf(self) -> bool {
        &&& self.radii@.len() == ELEMENT_COUNT + 1
        &&& forall|i: int|
            0 <= i < self.radii@.len() ==> MIN_RADIUS <= #[trigger] self.radii@[i] <= MAX_RADIUS
    }

    /// The fixed-point radius recorded for element `e`.
    pub closed spec fn spec_radius(self, e: Element) -> u32 {
        self.radii@[e.0 as int]
    }

    /// Builds a table from one radius per atomic number; index 0 is unused
    /// padding.  Returns `None` unless the vector has exactly
    /// [`ELEMENT_COUNT`]` + 1` entries, all within the accepted band.
    pub fn from_radii(radii: Vec<u32>) -> (r: Option<ElementTable>)
        ensures
            match r {
                Some(t) => t.wf() && forall|e: Element|
                    e.wf() ==> #[trigger] t.spec_radius(e) == radii@[e.0 as int],
                None => radii@.len() != ELEMENT_COUNT + 1 || exists|i: int|
                    0 <= i < radii@.len() && !(MIN_RADIUS <= #[trigger] radii@[i] <= MAX_RADIUS),
            },
    {
        if radii.len() != ELEMENT_COUNT as usize + 1 {
            return None;
        }
        let mut i: usize = 0;
        while i < radii.len()
            invariant
                i <= radii@.len(),
                forall|j: int| 0 <= j < i ==> MIN_RADIUS <= #[trigger] radii@[j] <= MAX_RADIUS,
            decreases radii@.len() - i,
        {
            let r = radii[i];
            if r < MIN_RADIUS || r > MAX_RADIUS {
                return None;
            }
            i = i + 1;
        }
        Some(ElementTable { radii })
    }

    /// Builds a table that gives every element the same radius.
    pub fn uniform(radius: u32) -> (r: Option<ElementTable>)
        ensures
            match r {
                Some(t) => t.wf() && forall|e: Element|
                    e.wf() ==> #[trigger] t.spec_radius(e) == radius,
                None => !(MIN_RADIUS <= radius <= MAX_RADIUS),
            },
    {
        if radius < MIN_RADIUS || radius > MAX_RADIUS {
            return None;
        }
        let mut radii: Vec<u32> = Vec::new();
        let mut i: usize = 0;
        while i < ELEMENT_COUNT as usize + 1
            invariant
                i <= ELEMENT_COUNT + 1,
                radii@.len() == i,
                forall|j: int| 0 <= j < i ==> #[trigger] radii@[j] == radius,
                MIN_RADIUS <= radius <= MAX_RADIUS,
            decreases ELEMENT_COUNT + 1 - i,
        {
            radii.push(radius);
            i = i + 1;
        }
        Some(ElementTable { radii })
    }

    /// The fixed-point radius of element `e`.
    pub fn radius(&self, e: Element) -> (r: u32)
        requires
            self.wf(),
            e.wf(),
        ensures
            r == self.spec_radius(e),
            MIN_RADIUS <= r <= MAX_RADIUS,
    {
        self.radii[e.0 as usize]
    }
}

/// Packed bit field describing an atom for rendering: bits 0 through 6 hold
/// the atomic number minus one; the remaining bits are unspecified.
#[derive(Clone, Copy, PartialEq, Eq, Structural, Debug)]
pub struct AtomKind(pub u32);

impl AtomKind {
    /// The element a kind word decodes to.
    pub open spec fn spec_element(self) -> Element {
        Element(((self.0 & 0x7f) + 1) as u8)
    }

    /// The kind word a (covered) element packs to.
    pub open spec fn spec_new(element: Element) -> AtomKind {
        AtomKind(((element.0 - 1) as u32) & 0x7f)
    }

    /// Packs an element into a kind word.
    pub fn new(element: Element) -> (r: AtomKind)
        requires
            element.wf(),
        ensures
            r == AtomKind::spec_new(element),
            r.spec_element() == element,
    {
        let n: u32 = (element.0 - 1) as u32;
        let packed: u32 = n & 0x7f;
        proof {
            assert(packed == n && n < 0x7f_u32) by (bit_vector)
                requires
                    n < 118,
                    packed == n & 0x7f,
            ;
            assert((packed & 0x7f) == packed) by (bit_vector)
                requires
                    packed < 0x7f_u32,
            ;
        }
        AtomKind(packed)
    }

    /// Unpacks the element.
    pub fn element(&self) -> (r: Element)
        requires
            self.0 & 0x7f < ELEMENT_COUNT,
        ensures
            r == self.spec_element(),
    {
        let v: u32 = self.0;
        let low: u32 = v & 0x7f;
        proof {
            assert(low < 256) by (bit_vector)
                requires
                    low == v & 0x7f,
            ;
        }
        Element((low + 1) as u8)
    }
}

/// Per-buffer header that precedes bond data handed to a renderer.
#[derive(Clone, Copy, PartialEq, Eq, Structural, Debug)]
pub struct BondBufferHeader;

impl Default for BondBufferHeader {
    fn default() -> (r: Self)
        ensures
            r == BondBufferHeader,
    {
        BondBufferHeader
    }
}

} // verus!
