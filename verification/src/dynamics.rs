//! Iterative force relaxation: bonded atoms are pulled toward an
//! equilibrium separation, unbonded atoms repel one another with a force
//! inversely proportional to their squared distance.  All deltas of one
//! iteration are computed from the previous iteration's positions and
//! applied simultaneously.

use vstd::prelude::*;

use crate::atom::AtomNode;

use crate::geom::clamp128;
use crate::geom::isqrt;
use crate::geom::tdiv;
use crate::geom::Pos;
use crate::geom::POS_LIMIT;
use crate::geom::spec_clamp;
use crate::geom::spec_isqrt;
use crate::geom::spec_tdiv;
use crate::graph_ext::g_contains_edge;
use crate::graph_ext::has_edge_between;
use crate::repr::lemma_sorted_node_list;
use crate::repr::list_matches;
use crate::repr::sorted_node_list;
use vstd::multiset::Multiset;
use crate::graph_ext::g_node_list;
use crate::graph_ext::graph_edges;
use crate::graph_ext::graph_nodes;
use crate::graph_ext::MoleculeGraph;
use crate::ids::AtomSpecifier;
use crate::repr::node_specs;
use crate::spec_map::SpecMap;

verus! {

/// Fixed-point separation bonded atoms are pulled toward (4.0 units).
pub const EQUILIBRIUM_BOND_LEN: i64 = 4000;

/// Convergence threshold on the largest per-atom delta (0.01 units).
pub const RELAX_THRESHOLD: i64 = 10;

/// Iteration cap: a hardening measure so a non-convergent configuration
/// cannot loop forever.
pub const RELAX_MAX_ITERS: u64 = 10000;

/// Bound on one pairwise force contribution per axis.
const FORCE_TERM_LIMIT: i128 = 0x4000000000000000;

/// Bound on one per-atom position delta per axis.
const ADJUST_LIMIT: i128 = 0x10000000000;

/// One pairwise force contribution per axis on the atom at `p` from the
/// atom at `q`: bonded atoms are pulled toward the 4.0-unit equilibrium
/// separation with stiffness 2, unbonded atoms repel with magnitude
/// inversely proportional to the squared distance; each axis term is
/// clamped as an overflow guard, and a coincident pair contributes
/// nothing (no defined direction).
pub open spec fn spec_pair_term(p: Pos, q: Pos, bonded: bool) -> (int, int, int) {
    let dx = q.x - p.x;
    let dy = q.y - p.y;
    let dz = q.z - p.z;
    let m2 = dx * dx + dy * dy + dz * dz;
    if m2 == 0 {
        (0, 0, 0)
    } else {
        let mag = spec_isqrt(m2);
        if bonded {
            let fs = 2 * (mag - 4000);
            (
                spec_clamp(spec_tdiv(dx * fs, mag), 0x4000000000000000),
                spec_clamp(spec_tdiv(dy * fs, mag), 0x4000000000000000),
                spec_clamp(spec_tdiv(dz * fs, mag), 0x4000000000000000),
            )
        } else {
            let fs = spec_tdiv(1000000000, m2);
            (
                -spec_clamp(spec_tdiv(dx * fs, mag), 0x4000000000000000),
                -spec_clamp(spec_tdiv(dy * fs, mag), 0x4000000000000000),
                -spec_clamp(spec_tdiv(dz * fs, mag), 0x4000000000000000),
            )
        }
    }
}

/// The force on the `k`-th listed atom, summed over the first `j` listed
/// atoms (the atom itself excluded).
pub open spec fn spec_force(
    l: Seq<(usize, AtomNode)>,
    es: Multiset<(int, int, u8)>,
    cur: Map<AtomSpecifier, Pos>,
    k: int,
    j: int,
) -> (int, int, int)
    decreases j,
{
    if j <= 0 {
        (0, 0, 0)
    } else {
        let rest = spec_force(l, es, cur, k, j - 1);
        if j - 1 == k {
            rest
        } else {
            let t = spec_pair_term(
                cur[l[k].1.spec],
                cur[l[j - 1].1.spec],
                has_edge_between(es, l[k].0 as int, l[j - 1].0 as int),
            );
            (rest.0 + t.0, rest.1 + t.1, rest.2 + t.2)
        }
    }
}

/// The `k`-th listed atom's position delta for one pass: the summed force
/// scaled by the one-tenth step coefficient, clamped as an overflow guard.
pub open spec fn spec_adjust(
    l: Seq<(usize, AtomNode)>,
    es: Multiset<(int, int, u8)>,
    cur: Map<AtomSpecifier, Pos>,
    k: int,
) -> (int, int, int) {
    let f = spec_force(l, es, cur, k, l.len() as int);
    (
        spec_clamp(spec_tdiv(f.0, 10), 0x10000000000),
        spec_clamp(spec_tdiv(f.1, 10), 0x10000000000),
        spec_clamp(spec_tdiv(f.2, 10), 0x10000000000),
    )
}

/// The `k`-th listed atom's position after one pass, clamped into the
/// storable coordinate band.
pub open spec fn spec_step_pos(
    l: Seq<(usize, AtomNode)>,
    es: Multiset<(int, int, u8)>,
    cur: Map<AtomSpecifier, Pos>,
    k: int,
) -> Pos {
    let p = cur[l[k].1.spec];
    let a = spec_adjust(l, es, cur, k);
    Pos {
        x: spec_clamp(p.x + a.0, POS_LIMIT as int) as i64,
        y: spec_clamp(p.y + a.1, POS_LIMIT as int) as i64,
        z: spec_clamp(p.z + a.2, POS_LIMIT as int) as i64,
    }
}

/// The position map after one pass over the first `k` listed atoms, all
/// deltas computed from the previous pass's positions.
pub open spec fn spec_step_map(
    l: Seq<(usize, AtomNode)>,
    es: Multiset<(int, int, u8)>,
    cur: Map<AtomSpecifier, Pos>,
    k: int,
) -> Map<AtomSpecifier, Pos>
    decreases k,
{
    if k <= 0 {
        Map::empty()
    } else {
        spec_step_map(l, es, cur, k - 1).insert(l[k - 1].1.spec, spec_step_pos(l, es, cur, k - 1))
    }
}

/// The largest squared delta among the first `k` listed atoms of one pass.
pub open spec fn spec_step_largest(
    l: Seq<(usize, AtomNode)>,
    es: Multiset<(int, int, u8)>,
    cur: Map<AtomSpecifier, Pos>,
    k: int,
) -> int
    decreases k,
{
    if k <= 0 {
        0
    } else {
        let rest = spec_step_largest(l, es, cur, k - 1);
        let a = spec_adjust(l, es, cur, k - 1);
        let a2 = a.0 * a.0 + a.1 * a.1 + a.2 * a.2;
        if a2 > rest {
            a2
        } else {
            rest
        }
    }
}

/// The input positions restricted to the first `k` listed atoms.
pub open spec fn spec_init_map(
    l: Seq<(usize, AtomNode)>,
    positions: Map<AtomSpecifier, Pos>,
    k: int,
) -> Map<AtomSpecifier, Pos>
    decreases k,
{
    if k <= 0 {
        Map::empty()
    } else {
        spec_init_map(l, positions, k - 1).insert(l[k - 1].1.spec, positions[l[k - 1].1.spec])
    }
}

/// The positions after relaxing: passes run until the largest squared
/// delta of a pass falls below `t2`, or `fuel` passes have run; the map
/// after the final pass is returned either way.
pub open spec fn spec_relax_iter(
    l: Seq<(usize, AtomNode)>,
    es: Multiset<(int, int, u8)>,
    cur: Map<AtomSpecifier, Pos>,
    t2: int,
    fuel: nat,
) -> Map<AtomSpecifier, Pos>
    decreases fuel,
{
    if fuel == 0 {
        cur
    } else {
        let next = spec_step_map(l, es, cur, l.len() as int);
        if spec_step_largest(l, es, cur, l.len() as int) < t2 {
            next
        } else {
            spec_relax_iter(l, es, next, t2, (fuel - 1) as nat)
        }
    }
}

/// The whole relaxation as a pure function of the graph contents, the
/// input positions, the convergence threshold and the pass cap: atoms are
/// enumerated in stable index order, and every pass uses the previous
/// pass's positions for every force (all deltas applied simultaneously).
pub open spec fn spec_relax(
    nodes: Map<int, AtomNode>,
    es: Multiset<(int, int, u8)>,
    positions: Map<AtomSpecifier, Pos>,
    threshold: int,
    fuel: nat,
) -> Map<AtomSpecifier, Pos> {
    spec_relax_iter(
        sorted_node_list(nodes),
        es,
        spec_init_map(sorted_node_list(nodes), positions, sorted_node_list(nodes).len() as int),
        threshold * threshold,
        fuel,
    )
}

/// One relaxation pass over every atom: returns the new position map and
/// the largest squared delta any atom moved by.
#[verifier::loop_isolation(false)]
#[verifier::rlimit(60)]
fn relax_step(
    g: &MoleculeGraph,
    list: &Vec<(usize, AtomNode)>,
    cur: &SpecMap<Pos>,
) -> (r: (SpecMap<Pos>, i128))
    requires
        forall|k: int|
            0 <= k < list@.len() ==> graph_nodes(*g).contains_key((#[trigger] list@[k]).0 as int)
                && graph_nodes(*g)[list@[k].0 as int] == list@[k].1,
        forall|k: int|
            0 <= k < list@.len() ==> cur@.contains_key((#[trigger] list@[k]).1.spec),
        forall|s: AtomSpecifier| #[trigger] cur@.contains_key(s) ==> cur@[s].wf(),
    ensures
        r.0@ == spec_step_map(list@, graph_edges(*g), cur@, list@.len() as int),
        r.1 == spec_step_largest(list@, graph_edges(*g), cur@, list@.len() as int),
        forall|k: int|
            0 <= k < list@.len() ==> r.0@.contains_key((#[trigger] list@[k]).1.spec),
        forall|s: AtomSpecifier|
            #[trigger] r.0@.contains_key(s) ==> r.0@[s].wf() && exists|k: int|
                0 <= k < list@.len() && (#[trigger] list@[k]).1.spec == s,
{
    let ghost es = graph_edges(*g);
    let n = list.len();
    let mut next: SpecMap<Pos> = SpecMap::new();
    let mut largest: i128 = 0;
    let mut k: usize = 0;
    while k < n
        invariant
            0 <= k <= n,
            n == list@.len(),
            es == graph_edges(*g),
            next@ == spec_step_map(list@, es, cur@, k as int),
            largest == spec_step_largest(list@, es, cur@, k as int),
            forall|j: int|
                0 <= j < list@.len() ==> graph_nodes(*g).contains_key(
                    (#[trigger] list@[j]).0 as int,
                ) && graph_nodes(*g)[list@[j].0 as int] == list@[j].1,
            forall|j: int|
                0 <= j < list@.len() ==> cur@.contains_key((#[trigger] list@[j]).1.spec),
            forall|s: AtomSpecifier| #[trigger] cur@.contains_key(s) ==> cur@[s].wf(),
            forall|j: int|
                0 <= j < k ==> next@.contains_key((#[trigger] list@[j]).1.spec),
            forall|s: AtomSpecifier|
                #[trigger] next@.contains_key(s) ==> next@[s].wf() && exists|j: int|
                    0 <= j < list@.len() && (#[trigger] list@[j]).1.spec == s,
        decreases n - k,
    {
        let node = list[k];
        let p = cur.get(&node.1.spec).unwrap();
        let mut fx: i128 = 0;
        let mut fy: i128 = 0;
        let mut fz: i128 = 0;
        let mut j: usize = 0;
        while j < n
            invariant
                0 <= j <= n,
                0 <= k < n,
                n == list@.len(),
                es == graph_edges(*g),
                p == cur@[list@[k as int].1.spec],
                fx == spec_force(list@, es, cur@, k as int, j as int).0,
                fy == spec_force(list@, es, cur@, k as int, j as int).1,
                fz == spec_force(list@, es, cur@, k as int, j as int).2,
                p.wf(),
                forall|j2: int|
                    0 <= j2 < list@.len() ==> cur@.contains_key((#[trigger] list@[j2]).1.spec),
                forall|s: AtomSpecifier| #[trigger] cur@.contains_key(s) ==> cur@[s].wf(),
                -0x4000000000000000 * (j as int) <= fx <= 0x4000000000000000 * (j as int),
                -0x4000000000000000 * (j as int) <= fy <= 0x4000000000000000 * (j as int),
                -0x4000000000000000 * (j as int) <= fz <= 0x4000000000000000 * (j as int),
            decreases n - j,
        {
            if j != k {
                let other = list[j];
                let q = cur.get(&other.1.spec).unwrap();
                let dx = q.x as i128 - p.x as i128;
                let dy = q.y as i128 - p.y as i128;
                let dz = q.z as i128 - p.z as i128;
                proof {
                    assert(dx * dx + dy * dy + dz * dz < 0x4000000000000000i128 && dx * dx >= 0
                        && dy * dy >= 0 && dz * dz >= 0) by (nonlinear_arith)
                        requires
                            -0x40000000i128 <= dx <= 0x40000000i128,
                            -0x40000000i128 <= dy <= 0x40000000i128,
                            -0x40000000i128 <= dz <= 0x40000000i128,
                    ;
                }
                let m2 = dx * dx + dy * dy + dz * dz;
                // Coincident atoms have no defined force direction: skip
                // the degenerate pair.
                if m2 > 0 {
                    let mag_u = isqrt(m2 as u128);
                    proof {
                        assert(1 <= mag_u && mag_u < 0x80000000u128) by (nonlinear_arith)
                            requires
                                0 < (m2 as u128) < 0x4000000000000000u128,
                                mag_u * mag_u <= m2 as u128,
                                (mag_u + 1) * (mag_u + 1) > m2 as u128,
                        ;
                    }
                    let mag = mag_u as i128;
                    let bonded = g_contains_edge(g, node.0, other.0);
                    let ghost f0 = (fx as int, fy as int, fz as int);
                    let ghost t_spec = spec_pair_term(
                        cur@[list@[k as int].1.spec],
                        cur@[list@[j as int].1.spec],
                        has_edge_between(es, list@[k as int].0 as int, list@[j as int].0 as int),
                    );
                    proof {
                        assert(spec_pair_term(p, q, bonded) == if bonded {
                            (
                                spec_clamp(
                                    spec_tdiv(dx * (2 * (mag_u as int - 4000)), mag_u as int),
                                    0x4000000000000000,
                                ),
                                spec_clamp(
                                    spec_tdiv(dy * (2 * (mag_u as int - 4000)), mag_u as int),
                                    0x4000000000000000,
                                ),
                                spec_clamp(
                                    spec_tdiv(dz * (2 * (mag_u as int - 4000)), mag_u as int),
                                    0x4000000000000000,
                                ),
                            )
                        } else {
                            (
                                -spec_clamp(
                                    spec_tdiv(dx * spec_tdiv(1000000000, m2 as int), mag_u as int),
                                    0x4000000000000000,
                                ),
                                -spec_clamp(
                                    spec_tdiv(dy * spec_tdiv(1000000000, m2 as int), mag_u as int),
                                    0x4000000000000000,
                                ),
                                -spec_clamp(
                                    spec_tdiv(dz * spec_tdiv(1000000000, m2 as int), mag_u as int),
                                    0x4000000000000000,
                                ),
                            )
                        });
                    }
                    if bonded {
                        let fs = 2 * (mag - EQUILIBRIUM_BOND_LEN as i128);
                        proof {
                            assert(-0x4000000000000000i128 <= dx * fs <= 0x4000000000000000i128
                                && -0x4000000000000000i128 <= dy * fs <= 0x4000000000000000i128
                                && -0x4000000000000000i128 <= dz * fs
                                <= 0x4000000000000000i128) by (nonlinear_arith)
                                requires
                                    -0x40000000i128 <= dx <= 0x40000000i128,
                                    -0x40000000i128 <= dy <= 0x40000000i128,
                                    -0x40000000i128 <= dz <= 0x40000000i128,
                                    -0x100000000i128 <= fs <= 0x100000000i128,
                            ;
                        }
                        let tx = clamp128(tdiv(dx * fs, mag), FORCE_TERM_LIMIT);
                        let ty = clamp128(tdiv(dy * fs, mag), FORCE_TERM_LIMIT);
                        let tz = clamp128(tdiv(dz * fs, mag), FORCE_TERM_LIMIT);
                        proof {
                            assert(t_spec == spec_pair_term(p, q, bonded));
                            assert(t_spec.0 == tx as int && t_spec.1 == ty as int && t_spec.2
                                == tz as int);
                        }
                        fx = fx + tx;
                        fy = fy + ty;
                        fz = fz + tz;
                        proof {
                            assert(fx as int == f0.0 + t_spec.0 && fy as int == f0.1 + t_spec.1
                                && fz as int == f0.2 + t_spec.2);
                            assert(spec_force(list@, es, cur@, k as int, j + 1) == (
                            fx as int,
                            fy as int,
                            fz as int,
                            ));
                        }
                    } else {
                        let fs = tdiv(1000000000, m2);
                        proof {
                            assert(-0x1000000000000000i128 <= dx * fs <= 0x1000000000000000i128
                                && -0x1000000000000000i128 <= dy * fs <= 0x1000000000000000i128
                                && -0x1000000000000000i128 <= dz * fs
                                <= 0x1000000000000000i128) by (nonlinear_arith)
                                requires
                                    -0x40000000i128 <= dx <= 0x40000000i128,
                                    -0x40000000i128 <= dy <= 0x40000000i128,
                                    -0x40000000i128 <= dz <= 0x40000000i128,
                                    0 <= fs <= 1000000000i128,
                            ;
                        }
                        let tx = clamp128(tdiv(dx * fs, mag), FORCE_TERM_LIMIT);
                        let ty = clamp128(tdiv(dy * fs, mag), FORCE_TERM_LIMIT);
                        let tz = clamp128(tdiv(dz * fs, mag), FORCE_TERM_LIMIT);
                        proof {
                            assert(t_spec == spec_pair_term(p, q, bonded));
                            assert(t_spec.0 == -(tx as int) && t_spec.1 == -(ty as int)
                                && t_spec.2 == -(tz as int));
                        }
                        fx = fx - tx;
                        fy = fy - ty;
                        fz = fz - tz;
                        proof {
                            assert(fx as int == f0.0 + t_spec.0 && fy as int == f0.1 + t_spec.1
                                && fz as int == f0.2 + t_spec.2);
                            assert(spec_force(list@, es, cur@, k as int, j + 1) == (
                            fx as int,
                            fy as int,
                            fz as int,
                            ));
                        }
                    }
                } else {
                    proof {
                        assert(spec_pair_term(
                            cur@[list@[k as int].1.spec],
                            cur@[list@[j as int].1.spec],
                            has_edge_between(es, list@[k as int].0 as int, list@[j as int].0 as int),
                        ) == (0int, 0int, 0int));
                        assert(spec_force(list@, es, cur@, k as int, j + 1) == spec_force(
                            list@,
                            es,
                            cur@,
                            k as int,
                            j as int,
                        ));
                    }
                }
            } else {
                proof {
                    assert(spec_force(list@, es, cur@, k as int, j + 1) == spec_force(
                        list@,
                        es,
                        cur@,
                        k as int,
                        j as int,
                    ));
                }
            }
            j = j + 1;
        }
        // Scale the summed force by the step coefficient (one tenth) to get
        // this atom's delta, clamped as an overflow guard.
        let ax = clamp128(tdiv(fx, 10), ADJUST_LIMIT);
        let ay = clamp128(tdiv(fy, 10), ADJUST_LIMIT);
        let az = clamp128(tdiv(fz, 10), ADJUST_LIMIT);
        proof {
            assert(ax * ax >= 0 && ax * ax <= 0x100000000000000000000i128 && ay * ay >= 0 && ay
                * ay <= 0x100000000000000000000i128 && az * az >= 0 && az * az
                <= 0x100000000000000000000i128) by (nonlinear_arith)
                requires
                    -0x10000000000i128 <= ax <= 0x10000000000i128,
                    -0x10000000000i128 <= ay <= 0x10000000000i128,
                    -0x10000000000i128 <= az <= 0x10000000000i128,
            ;
        }
        let a2 = ax * ax + ay * ay + az * az;
        if a2 > largest {
            largest = a2;
        }
        let np = Pos {
            x: clamp128(p.x as i128 + ax, POS_LIMIT as i128) as i64,
            y: clamp128(p.y as i128 + ay, POS_LIMIT as i128) as i64,
            z: clamp128(p.z as i128 + az, POS_LIMIT as i128) as i64,
        };
        next.insert(node.1.spec, np);
        proof {
            assert(spec_adjust(list@, es, cur@, k as int) == (ax as int, ay as int, az as int));
            assert(spec_step_pos(list@, es, cur@, k as int) == np);
            assert(next@ == spec_step_map(list@, es, cur@, k + 1));
            assert(largest == spec_step_largest(list@, es, cur@, k + 1));
        }
        k = k + 1;
    }
    (next, largest)
}

/// Relaxes the positions of every atom in the graph until the largest
/// per-atom delta of an iteration falls below `threshold` (in fixed-point
/// units), or until `max_iters` passes have run.  Returns one position for
/// exactly the atoms the graph holds.
#[verifier::loop_isolation(false)]
pub fn relax(
    g: &MoleculeGraph,
    positions: &SpecMap<Pos>,
    threshold: i64,
    max_iters: u64,
) -> (r: SpecMap<Pos>)
    requires
        1 <= threshold <= 1000000,
        forall|i: int|
            #[trigger] graph_nodes(*g).contains_key(i) ==> positions@.contains_key(
                graph_nodes(*g)[i].spec,
            ),
        forall|s: AtomSpecifier| #[trigger] positions@.contains_key(s) ==> positions@[s].wf(),
    ensures
        r@ == spec_relax(
            graph_nodes(*g),
            graph_edges(*g),
            positions@,
            threshold as int,
            max_iters as nat,
        ),
        r@.dom() == node_specs(graph_nodes(*g)),
        forall|s: AtomSpecifier| #[trigger] r@.contains_key(s) ==> r@[s].wf(),
{
    let list = g_node_list(g);
    proof {
        assert(list_matches(graph_nodes(*g), list@));
        lemma_sorted_node_list(graph_nodes(*g), list@);
    }
    let n = list.len();
    let mut cur: SpecMap<Pos> = SpecMap::new();
    let mut k: usize = 0;
    while k < n
        invariant
            0 <= k <= n,
            n == list@.len(),
            forall|j: int|
                0 <= j < list@.len() ==> graph_nodes(*g).contains_key(
                    (#[trigger] list@[j]).0 as int,
                ) && graph_nodes(*g)[list@[j].0 as int] == list@[j].1,
            forall|i: int|
                #[trigger] graph_nodes(*g).contains_key(i) ==> positions@.contains_key(
                    graph_nodes(*g)[i].spec,
                ),
            forall|s: AtomSpecifier| #[trigger] positions@.contains_key(s) ==> positions@[s].wf(),
            forall|j: int|
                0 <= j < k ==> cur@.contains_key((#[trigger] list@[j]).1.spec),
            cur@ == spec_init_map(list@, positions@, k as int),
            forall|s: AtomSpecifier|
                #[trigger] cur@.contains_key(s) ==> cur@[s].wf() && exists|j: int|
                    0 <= j < list@.len() && (#[trigger] list@[j]).1.spec == s,
        decreases n - k,
    {
        let s = list[k].1.spec;
        let p = positions.get(&s).unwrap();
        cur.insert(s, p);
        proof {
            assert(cur@ == spec_init_map(list@, positions@, k + 1));
        }
        k = k + 1;
    }
    proof {
        assert((threshold as i128) * (threshold as i128) <= 0x10000000000000i128) by (
        nonlinear_arith)
            requires
                1 <= threshold <= 1000000,
        ;
    }
    let t2 = (threshold as i128) * (threshold as i128);
    let ghost cur0 = cur@;
    let ghost goal = spec_relax_iter(
        list@,
        graph_edges(*g),
        cur0,
        (threshold as int) * (threshold as int),
        max_iters as nat,
    );
    let mut iter: u64 = 0;
    let mut converged: bool = false;
    while iter < max_iters && !converged
        invariant
            iter <= max_iters,
            goal == if converged {
                cur@
            } else {
                spec_relax_iter(
                    list@,
                    graph_edges(*g),
                    cur@,
                    (threshold as int) * (threshold as int),
                    (max_iters - iter) as nat,
                )
            },
            forall|j: int|
                0 <= j < list@.len() ==> cur@.contains_key((#[trigger] list@[j]).1.spec),
            forall|s: AtomSpecifier|
                #[trigger] cur@.contains_key(s) ==> cur@[s].wf() && exists|j: int|
                    0 <= j < list@.len() && (#[trigger] list@[j]).1.spec == s,
        decreases max_iters - iter,
    {
        let ghost fuel = (max_iters - iter) as nat;
        let ghost before = cur@;
        let (next, largest) = relax_step(g, &list, &cur);
        cur = next;
        converged = largest < t2;
        iter = iter + 1;
        proof {
            assert(fuel > 0);
            assert(spec_relax_iter(
                list@,
                graph_edges(*g),
                before,
                (threshold as int) * (threshold as int),
                fuel,
            ) == if largest < t2 {
                cur@
            } else {
                spec_relax_iter(
                    list@,
                    graph_edges(*g),
                    cur@,
                    (threshold as int) * (threshold as int),
                    (fuel - 1) as nat,
                )
            });
        }
    }
    proof {
        assert(cur@ == goal);
        assert(spec_relax(
            graph_nodes(*g),
            graph_edges(*g),
            positions@,
            threshold as int,
            max_iters as nat,
        ) == goal);
        assert(cur@.dom() =~= node_specs(graph_nodes(*g)));
    }
    cur
}

} // verus!
