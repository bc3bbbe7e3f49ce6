//! The lattice model: the spin grid, its coupling, and its random source,
//! evolved one full Metropolis sweep at a time.

use crate::chance::rule_for;
use crate::chance::AcceptRule;
use crate::chance::Coupling;
use crate::errors::ModelError;
use crate::lattice::down_of;
use crate::lattice::left_of;
use crate::lattice::lemma_neighbors_distinct;
use crate::lattice::lemma_neighbors_in_bounds;
use crate::lattice::lemma_neighbors_inverse;
use crate::lattice::right_of;
use crate::lattice::up_of;
use crate::rng::script_level;
use crate::rng::upcoming_levels;
use crate::rng::RandomSource;
use crate::rng::ScriptedSource;
use crate::rng::HALF_LEVEL;
use crate::rng::LEVEL_SCALE;
use vstd::arithmetic::div_mod::lemma_add_mod_noop_right;
use vstd::arithmetic::div_mod::lemma_fundamental_div_mod;
use vstd::arithmetic::div_mod::lemma_mod_bound;
use vstd::arithmetic::div_mod::lemma_small_mod;
use vstd::prelude::*;

verus! {

/// The signed value of a spin: +1 for up (`true`), -1 for down (`false`).
pub open spec fn spin_val(b: bool) -> int {
    if b {
        1
    } else {
        -1
    }
}

/// The sum of the four toroidal neighbor spins of `pos`, as signed values.
pub open spec fn env_spin(s: Seq<bool>, size: nat, pos: nat) -> int {
    spin_val(s[left_of(size, pos) as int]) + spin_val(s[right_of(size, pos) as int])
        + spin_val(s[up_of(size, pos) as int]) + spin_val(s[down_of(size, pos) as int])
}

/// The product `k = e * s` of the neighbor sum and the cell's own signed
/// spin. The Metropolis log-acceptance of flipping `pos` is
/// `-2 * beta_j * k`, so `k` alone selects the acceptance rule.
pub open spec fn local_k(s: Seq<bool>, size: nat, pos: nat) -> int {
    env_spin(s, size, pos) * spin_val(s[pos as int])
}

/// The state after one Metropolis attempt at cell `pos`: the pair carries
/// the spin sequence and how many draws have been consumed so far. An
/// `Always` rule flips the cell and consumes nothing; a chance rule consumes
/// the next draw and flips iff that draw lies below the threshold.
pub open spec fn cell_next(
    c: Coupling,
    size: nat,
    state: (Seq<bool>, nat),
    draws: Seq<u64>,
    pos: nat,
) -> (Seq<bool>, nat) {
    let s = state.0;
    let used = state.1;
    match rule_for(c, local_k(s, size, pos)) {
        AcceptRule::Always => (s.update(pos as int, !s[pos as int]), used),
        AcceptRule::Chance(t) => if used < draws.len() && draws[used as int] < t {
            (s.update(pos as int, !s[pos as int]), (used + 1) as nat)
        } else {
            (s, (used + 1) as nat)
        },
    }
}

/// The state after the first `pos` cells of one sweep over `s0`, visited in
/// raster order and driven by the draw sequence `draws`: the updated spins
/// and the number of draws consumed. Each cell sees the flips of the cells
/// before it in the same sweep (in-place update).
pub open spec fn sweep_upto(
    c: Coupling,
    size: nat,
    s0: Seq<bool>,
    draws: Seq<u64>,
    pos: nat,
) -> (Seq<bool>, nat)
    decreases pos,
{
    if pos == 0 {
        (s0, 0)
    } else {
        cell_next(c, size, sweep_upto(c, size, s0, draws, (pos - 1) as nat), draws, (pos - 1) as nat)
    }
}

/// The post-sweep state of a full sweep driven by a scripted source: the
/// final spins and the number of levels consumed, a pure function of the
/// coupling, the grid and the source's state.
pub open spec fn scripted_sweep(c: Coupling, size: nat, s0: Seq<bool>, sc: ScriptedSource) -> (
    Seq<bool>,
    nat,
) {
    sweep_upto(c, size, s0, upcoming_levels(sc, size * size), size * size)
}

/// Whether the draw sequence `draws` explains a full sweep from `s0` to
/// `s1`: every draw is a level in `[0, LEVEL_SCALE)`, the sweep consumes
/// exactly all of them, and it ends at `s1`.
pub open spec fn sweep_witness(
    c: Coupling,
    size: nat,
    s0: Seq<bool>,
    draws: Seq<u64>,
    s1: Seq<bool>,
) -> bool {
    &&& forall|i: int| 0 <= i < draws.len() ==> draws[i] < LEVEL_SCALE
    &&& sweep_upto(c, size, s0, draws, size * size).0 == s1
    &&& sweep_upto(c, size, s0, draws, size * size).1 == draws.len()
}

/// Law: a sweep never changes how many spins the grid holds.
pub proof fn lemma_sweep_preserves_len(
    c: Coupling,
    size: nat,
    s0: Seq<bool>,
    draws: Seq<u64>,
    pos: nat,
)
    requires
        s0.len() == size * size,
        pos <= size * size,
    ensures
        sweep_upto(c, size, s0, draws, pos).0.len() == s0.len(),
    decreases pos,
{
    if pos > 0 {
        lemma_sweep_preserves_len(c, size, s0, draws, (pos - 1) as nat);
    }
}

/// The first `pos` cells of a sweep consume at most one draw each.
pub proof fn lemma_sweep_used_le(c: Coupling, size: nat, s0: Seq<bool>, draws: Seq<u64>, pos: nat)
    ensures
        sweep_upto(c, size, s0, draws, pos).1 <= pos,
    decreases pos,
{
    if pos > 0 {
        lemma_sweep_used_le(c, size, s0, draws, (pos - 1) as nat);
    }
}

/// A sweep reads only the draws it consumes: extending the draw sequence
/// beyond the consumed prefix does not change where it ends.
pub proof fn lemma_sweep_agree(
    c: Coupling,
    size: nat,
    s0: Seq<bool>,
    d1: Seq<u64>,
    d2: Seq<u64>,
    pos: nat,
)
    requires
        d1.len() <= d2.len(),
        forall|i: int| 0 <= i < d1.len() ==> d1[i] == d2[i],
        sweep_upto(c, size, s0, d1, pos).1 <= d1.len(),
    ensures
        sweep_upto(c, size, s0, d1, pos) == sweep_upto(c, size, s0, d2, pos),
    decreases pos,
{
    if pos > 0 {
        let prev = (pos - 1) as nat;
        let st1 = sweep_upto(c, size, s0, d1, prev);
        assert(st1.1 <= sweep_upto(c, size, s0, d1, pos).1);
        lemma_sweep_agree(c, size, s0, d1, d2, prev);
        match rule_for(c, local_k(st1.0, size, prev)) {
            AcceptRule::Always => {
            },
            AcceptRule::Chance(t) => {
                assert(sweep_upto(c, size, s0, d1, pos).1 == st1.1 + 1);
                assert(st1.1 < d1.len());
            },
        }
    }
}

/// Law: an energy-lowering move is always accepted. Where the acceptance
/// rule for the local `k` is `Always` (the case `log_acc > 0`), the
/// Metropolis attempt flips the cell and consumes no draw, whatever the
/// random source holds.
pub proof fn lemma_always_rule_flips(
    c: Coupling,
    size: nat,
    s: Seq<bool>,
    used: nat,
    draws: Seq<u64>,
    pos: nat,
)
    requires
        rule_for(c, local_k(s, size, pos)) is Always,
    ensures
        cell_next(c, size, (s, used), draws, pos).0 == s.update(pos as int, !s[pos as int]),
        cell_next(c, size, (s, used), draws, pos).1 == used,
{
}

/// Law: draw-count discipline. A Metropolis attempt consumes exactly one
/// draw where the rule is a chance rule (the case `log_acc <= 0`), and none
/// where it is `Always` (the case `log_acc > 0`).
pub proof fn lemma_draw_count_discipline(
    c: Coupling,
    size: nat,
    s: Seq<bool>,
    used: nat,
    draws: Seq<u64>,
    pos: nat,
)
    ensures
        rule_for(c, local_k(s, size, pos)) is Chance ==> cell_next(c, size, (s, used), draws, pos).1
            == used + 1,
        rule_for(c, local_k(s, size, pos)) is Always ==> cell_next(c, size, (s, used), draws, pos).1
            == used,
{
}

/// Law: the zero-temperature limit. Under a coupling whose chance rules at
/// positive `k` have threshold zero (the limit of `exp(-2 * beta_j * k)` as
/// `beta_j` grows), no energy-raising move is ever accepted: a cell that
/// changed had non-positive local `k`.
pub proof fn lemma_zero_temp_never_raises(
    c: Coupling,
    size: nat,
    s: Seq<bool>,
    used: nat,
    draws: Seq<u64>,
    pos: nat,
)
    requires
        c.k_pos2 == AcceptRule::Chance(0),
        c.k_pos4 == AcceptRule::Chance(0),
    ensures
        cell_next(c, size, (s, used), draws, pos).0 != s ==> local_k(s, size, pos) <= 0,
{
}

/// 1 where the two spins agree, else 0.
pub open spec fn agree(a: bool, b: bool) -> int {
    if a == b {
        1
    } else {
        0
    }
}

/// The product of two signed spins, written through agreement: aligned
/// spins multiply to +1, opposed ones to -1.
proof fn lemma_spin_agree(a: bool, b: bool)
    ensures
        spin_val(a) * spin_val(b) == 2 * agree(a, b) - 1,
{
    if a {
        if b {
            assert(spin_val(a) * spin_val(b) == 1) by (nonlinear_arith)
                requires
                    spin_val(a) == 1,
                    spin_val(b) == 1,
            ;
        } else {
            assert(spin_val(a) * spin_val(b) == -1) by (nonlinear_arith)
                requires
                    spin_val(a) == 1,
                    spin_val(b) == -1,
            ;
        }
    } else {
        if b {
            assert(spin_val(a) * spin_val(b) == -1) by (nonlinear_arith)
                requires
                    spin_val(a) == -1,
                    spin_val(b) == 1,
            ;
        } else {
            assert(spin_val(a) * spin_val(b) == 1) by (nonlinear_arith)
                requires
                    spin_val(a) == -1,
                    spin_val(b) == -1,
            ;
        }
    }
}

/// A cell's contribution to the aligned-pair count: its pair to the right
/// and its pair downward. Counting only these two per cell counts every
/// toroidal neighbor pair exactly once.
pub open spec fn pair_terms(s: Seq<bool>, size: nat, p: nat) -> int {
    agree(s[p as int], s[right_of(size, p) as int]) + agree(
        s[p as int],
        s[down_of(size, p) as int],
    )
}

/// The aligned-pair count over the cells `[0, pos)`.
pub open spec fn aligned_upto(s: Seq<bool>, size: nat, pos: nat) -> int
    decreases pos,
{
    if pos == 0 {
        0
    } else {
        aligned_upto(s, size, (pos - 1) as nat) + pair_terms(s, size, (pos - 1) as nat)
    }
}

/// The number of aligned toroidal neighbor pairs of the whole lattice.
pub open spec fn aligned_pairs(s: Seq<bool>, size: nat) -> int {
    aligned_upto(s, size, size * size)
}

/// How flipping cell `q` shifts the aligned-pair count over `[0, pos)`:
/// only the two pairs of `q` itself, the right pair of its left neighbor
/// and the down pair of its upper neighbor change, each from aligned to
/// opposed or back.
proof fn lemma_aligned_flip_upto(s: Seq<bool>, size: nat, q: nat, pos: nat)
    requires
        size >= 2,
        s.len() == size * size,
        q < size * size,
        pos <= size * size,
    ensures
        aligned_upto(s.update(q as int, !s[q as int]), size, pos) == aligned_upto(s, size, pos) + (
        if q < pos {
            2 - 2 * agree(s[q as int], s[right_of(size, q) as int]) - 2 * agree(
                s[q as int],
                s[down_of(size, q) as int],
            )
        } else {
            0
        }) + (
        if left_of(size, q) < pos {
            1 - 2 * agree(s[left_of(size, q) as int], s[q as int])
        } else {
            0
        }) + (
        if up_of(size, q) < pos {
            1 - 2 * agree(s[up_of(size, q) as int], s[q as int])
        } else {
            0
        }),
    decreases pos,
{
    lemma_neighbors_inverse(size, q);
    lemma_neighbors_distinct(size, q);
    lemma_neighbors_in_bounds(size, q);
    if pos > 0 {
        let p = (pos - 1) as nat;
        lemma_aligned_flip_upto(s, size, q, p);
        lemma_neighbors_inverse(size, p);
        lemma_neighbors_distinct(size, p);
        lemma_neighbors_in_bounds(size, p);
        let s2 = s.update(q as int, !s[q as int]);
        if p == q {
            assert(right_of(size, p) != q && down_of(size, p) != q);
            assert(pair_terms(s2, size, p) == agree(!s[q as int], s[right_of(size, q) as int])
                + agree(!s[q as int], s[down_of(size, q) as int]));
        } else if p == left_of(size, q) {
            assert(right_of(size, p) == q);
            assert(down_of(size, p) != q) by {
                if down_of(size, p) == q {
                    assert(up_of(size, q) == p);
                }
            }
            assert(pair_terms(s2, size, p) == agree(s[p as int], !s[q as int]) + agree(
                s[p as int],
                s[down_of(size, p) as int],
            ));
        } else if p == up_of(size, q) {
            assert(down_of(size, p) == q);
            assert(right_of(size, p) != q) by {
                if right_of(size, p) == q {
                    assert(left_of(size, q) == p);
                }
            }
            assert(pair_terms(s2, size, p) == agree(s[p as int], s[right_of(size, p) as int])
                + agree(s[p as int], !s[q as int]));
        } else {
            assert(right_of(size, p) != q) by {
                if right_of(size, p) == q {
                    assert(left_of(size, q) == p);
                }
            }
            assert(down_of(size, p) != q) by {
                if down_of(size, p) == q {
                    assert(up_of(size, q) == p);
                }
            }
            assert(pair_terms(s2, size, p) == pair_terms(s, size, p));
        }
    }
}

/// Law: flipping one cell changes the aligned-pair count by exactly the
/// negation of its local `k`: an energy-lowering flip (negative `k`) gains
/// alignment, an energy-raising one loses it, a neutral one keeps it.
/// (On the one-cell lattice each pair joins a cell to itself and flipping
/// changes nothing, so that case is left out.)
pub proof fn lemma_aligned_flip_delta(s: Seq<bool>, size: nat, q: nat)
    requires
        size >= 2,
        s.len() == size * size,
        q < size * size,
    ensures
        aligned_pairs(s.update(q as int, !s[q as int]), size) == aligned_pairs(s, size) - local_k(
            s,
            size,
            q,
        ),
{
    lemma_aligned_flip_upto(s, size, q, size * size);
    lemma_neighbors_in_bounds(size, q);
    let vq = spin_val(s[q as int]);
    let vl = spin_val(s[left_of(size, q) as int]);
    let vr = spin_val(s[right_of(size, q) as int]);
    let vu = spin_val(s[up_of(size, q) as int]);
    let vd = spin_val(s[down_of(size, q) as int]);
    lemma_spin_agree(s[q as int], s[right_of(size, q) as int]);
    lemma_spin_agree(s[q as int], s[down_of(size, q) as int]);
    lemma_spin_agree(s[left_of(size, q) as int], s[q as int]);
    lemma_spin_agree(s[up_of(size, q) as int], s[q as int]);
    assert((vl + vr + vu + vd) * vq == vl * vq + vr * vq + vu * vq + vd * vq) by (nonlinear_arith);
    assert(vq * vr == vr * vq && vq * vd == vd * vq) by (nonlinear_arith);
}

/// Law: the zero-temperature limit. Under a coupling that never accepts an
/// energy-raising move (chance thresholds zero at positive `k`, the limit
/// of very large couplings), the aligned-pair count never decreases along
/// a sweep, whatever the random source holds: the lattice can only move
/// toward majority-aligned domains.
pub proof fn lemma_zero_temp_alignment_monotone(
    c: Coupling,
    size: nat,
    s0: Seq<bool>,
    draws: Seq<u64>,
    pos: nat,
)
    requires
        size >= 2,
        s0.len() == size * size,
        c.k_pos2 == AcceptRule::Chance(0),
        c.k_pos4 == AcceptRule::Chance(0),
        pos <= size * size,
    ensures
        aligned_pairs(sweep_upto(c, size, s0, draws, pos).0, size) >= aligned_pairs(s0, size),
    decreases pos,
{
    if pos > 0 {
        let p = (pos - 1) as nat;
        lemma_zero_temp_alignment_monotone(c, size, s0, draws, p);
        let st = sweep_upto(c, size, s0, draws, p);
        lemma_sweep_preserves_len(c, size, s0, draws, p);
        let k = local_k(st.0, size, p);
        match rule_for(c, k) {
            AcceptRule::Always => {
                assert(k <= 0);
                lemma_aligned_flip_delta(st.0, size, p);
            },
            AcceptRule::Chance(t) => {
                if st.1 < draws.len() && draws[st.1 as int] < t {
                    assert(k <= 0);
                    lemma_aligned_flip_delta(st.0, size, p);
                }
            },
        }
    }
}

/// Law: reproducibility. The outcome of a sweep driven by a scripted source
/// is a pure function of the coupling, the grid and the source's levels and
/// cursor: two runs from equal state end in equal grids, bit for bit.
pub proof fn lemma_scripted_sweep_deterministic(
    c: Coupling,
    size: nat,
    s0: Seq<bool>,
    sc1: ScriptedSource,
    sc2: ScriptedSource,
)
    requires
        sc1.levels@ == sc2.levels@,
        sc1.next == sc2.next,
    ensures
        scripted_sweep(c, size, s0, sc1) == scripted_sweep(c, size, s0, sc2),
{
    assert(upcoming_levels(sc1, size * size) =~= upcoming_levels(sc2, size * size));
}

/// For a positive side length, comparing against `usize::MAX / size` is
/// exactly the overflow test for `size * size`.
proof fn lemma_square_overflow_check(size: usize)
    requires
        size > 0,
    ensures
        size <= usize::MAX / size <==> size * size <= usize::MAX,
{
    let m = usize::MAX as int;
    let s = size as int;
    lemma_fundamental_div_mod(m, s);
    lemma_mod_bound(m, s);
    if s <= m / s {
        assert(s * s <= m) by (nonlinear_arith)
            requires
                s >= 1,
                s <= m / s,
                m == s * (m / s) + m % s,
                m % s >= 0,
        ;
    }
    if s > m / s {
        assert(s * s > m) by (nonlinear_arith)
            requires
                s >= 1,
                s > m / s,
                m == s * (m / s) + m % s,
                m % s < s,
        ;
    }
}

/// A scripted source whose cursor stands `i` draws past `sc0`'s hands out
/// `sc0`'s `i`-th upcoming level next, and one more draw lands it `i + 1`
/// draws past `sc0`.
proof fn lemma_script_shift(sc0: ScriptedSource, scc: ScriptedSource, i: nat)
    requires
        sc0.wf(),
        scc.levels@ == sc0.levels@,
        scc.next == (sc0.next + i) % sc0.levels@.len() as int,
    ensures
        script_level(scc, 0) == script_level(sc0, i as int),
        (scc.next + 1) % scc.levels@.len() as int == (sc0.next + i + 1) % sc0.levels@.len() as int,
{
    let l = sc0.levels@.len() as int;
    let x = sc0.next + i as int;
    lemma_mod_bound(x, l);
    lemma_small_mod((x % l) as nat, l as nat);
    lemma_add_mod_noop_right(1, x, l);
}

/// A 2D Ising spin lattice with periodic boundaries, updated in place by
/// Metropolis sweeps.
pub struct Model {
    size: usize,
    spins: Vec<bool>,
    coupling: Coupling,
    rng: RandomSource,
}

impl Model {
    /// A model is usable when its side length is positive, its grid holds
    /// exactly `size * size` spins, and its random source is usable.
    pub closed spec fn wf(self) -> bool {
        &&& self.size > 0
        &&& self.size * self.size <= usize::MAX
        &&& self.spins@.len() == self.size * self.size
        &&& self.rng.wf()
    }

    /// The side length of the square lattice.
    pub closed spec fn spec_size(self) -> usize {
        self.size
    }

    /// The current spin sequence, row-major.
    pub closed spec fn spec_spins(self) -> Seq<bool> {
        self.spins@
    }

    /// The acceptance table the model was built with.
    pub closed spec fn spec_coupling(self) -> Coupling {
        self.coupling
    }

    /// The random source, with its current state.
    pub closed spec fn spec_rng(self) -> RandomSource {
        self.rng
    }

    /// The side length of the square lattice.
    pub fn size(&self) -> (s: usize)
        ensures
            s == self.spec_size(),
    {
        self.size
    }

    /// A read-only view of the current grid: `size * size` spins, row-major.
    /// No mutation side effects.
    pub fn grid(&self) -> (g: &Vec<bool>)
        ensures
            g@ == self.spec_spins(),
    {
        &self.spins
    }

    /// The random source, for inspecting a scripted cursor from outside.
    pub fn rng(&self) -> (r: &RandomSource)
        ensures
            *r == self.spec_rng(),
    {
        &self.rng
    }

    /// The four toroidal neighbor indices of `pos`: left, right, up, down.
    /// Each is produced by modular arithmetic on the 2D coordinates of
    /// `pos`, so each is in bounds by construction.
    pub fn neighbor_positions(&self, pos: usize) -> (r: (usize, usize, usize, usize))
        requires
            self.wf(),
            pos < self.spec_size() * self.spec_size(),
        ensures
            r.0 == left_of(self.spec_size() as nat, pos as nat),
            r.1 == right_of(self.spec_size() as nat, pos as nat),
            r.2 == up_of(self.spec_size() as nat, pos as nat),
            r.3 == down_of(self.spec_size() as nat, pos as nat),
            r.0 < self.spec_size() * self.spec_size(),
            r.1 < self.spec_size() * self.spec_size(),
            r.2 < self.spec_size() * self.spec_size(),
            r.3 < self.spec_size() * self.spec_size(),
    {
        let size = self.size;
        proof {
            lemma_neighbors_in_bounds(size as nat, pos as nat);
            assert(pos / size < size && pos % size < size) by (nonlinear_arith)
                requires
                    size > 0,
                    pos < size * size,
            ;
            assert(2 * size <= size * size || size == 1) by (nonlinear_arith)
                requires
                    size > 0,
            ;
        }
        let x = pos % size;
        let y = pos / size;
        let left = (x + size - 1) % size;
        let right = (x + 1) % size;
        let up = (y + size - 1) % size;
        let down = (y + 1) % size;
        proof {
            assert(left < size && right < size && up < size && down < size);
            assert(left + y * size < size * size && right + y * size < size * size && x + up
                * size < size * size && x + down * size < size * size) by (nonlinear_arith)
                requires
                    left < size,
                    right < size,
                    up < size,
                    down < size,
                    x < size,
                    y < size,
                    size > 0,
            ;
        }
        (left + y * size, right + y * size, x + up * size, x + down * size)
    }

    /// The local `k = e * s` at `pos`: the signed neighbor sum times the
    /// cell's own signed spin.
    fn local_k_at(&self, pos: usize) -> (k: i32)
        requires
            self.wf(),
            pos < self.spec_size() * self.spec_size(),
        ensures
            k == local_k(self.spec_spins(), self.spec_size() as nat, pos as nat),
    {
        let (l, r, u, d) = self.neighbor_positions(pos);
        let mut e: i32 = 0;
        e += if self.spins[l] {
            1
        } else {
            -1
        };
        e += if self.spins[r] {
            1
        } else {
            -1
        };
        e += if self.spins[u] {
            1
        } else {
            -1
        };
        e += if self.spins[d] {
            1
        } else {
            -1
        };
        proof {
            let s = self.spec_spins();
            let sz = self.spec_size() as nat;
            assert(e as int == env_spin(s, sz, pos as nat));
            if s[pos as int] {
                assert(local_k(s, sz, pos as nat) == env_spin(s, sz, pos as nat) * 1);
                assert(env_spin(s, sz, pos as nat) * 1 == env_spin(s, sz, pos as nat));
            } else {
                assert(local_k(s, sz, pos as nat) == env_spin(s, sz, pos as nat) * (-1));
                assert(env_spin(s, sz, pos as nat) * (-1) == -env_spin(s, sz, pos as nat));
            }
        }
        if self.spins[pos] {
            e
        } else {
            -e
        }
    }

    /// A model over a caller-supplied grid: `spins` must hold exactly
    /// `size * size` cells. Rejects a zero side length, a grid too large
    /// for this machine, and a spin count that does not match.
    pub fn from_spins(size: usize, coupling: Coupling, spins: Vec<bool>, rng: RandomSource) -> (r:
        Result<Model, ModelError>)
        requires
            rng.wf(),
        ensures
            r is Ok <==> (size > 0 && size * size <= usize::MAX && spins@.len() == size * size),
            size == 0 ==> (r matches Err(e) && e is ZeroSize),
            (size > 0 && size * size > usize::MAX) ==> (r matches Err(e) && e is GridTooLarge),
            (size > 0 && size * size <= usize::MAX && spins@.len() != size * size) ==> (
            r matches Err(e) && e is SpinCountMismatch),
            r matches Ok(m) ==> {
                &&& m.wf()
                &&& m.spec_size() == size
                &&& m.spec_coupling() == coupling
                &&& m.spec_spins() == spins@
                &&& m.spec_rng() == rng
            },
    {
        if size == 0 {
            return Err(ModelError::ZeroSize);
        }
        proof {
            lemma_square_overflow_check(size);
        }
        if size > usize::MAX / size {
            return Err(ModelError::GridTooLarge);
        }
        let n = size * size;
        if spins.len() != n {
            return Err(ModelError::SpinCountMismatch);
        }
        Ok(Model { size, spins, coupling, rng })
    }

    /// A model whose initial grid is disordered: one independent uniform
    /// boolean is drawn from `rng` for each of the `size * size` cells.
    /// Rejects a zero side length and a grid too large for this machine.
    #[verifier::loop_isolation(false)]
    pub fn new(size: usize, coupling: Coupling, rng: RandomSource) -> (r: Result<
        Model,
        ModelError,
    >)
        requires
            rng.wf(),
        ensures
            r is Ok <==> (size > 0 && size * size <= usize::MAX),
            size == 0 ==> (r matches Err(e) && e is ZeroSize),
            (size > 0 && size * size > usize::MAX) ==> (r matches Err(e) && e is GridTooLarge),
            r matches Ok(m) ==> {
                &&& m.wf()
                &&& m.spec_size() == size
                &&& m.spec_coupling() == coupling
                &&& m.spec_spins().len() == size * size
                &&& (rng matches RandomSource::Scripted(sc) ==> {
                    &&& forall|j: int|
                        0 <= j < size * size ==> m.spec_spins()[j] == (script_level(sc, j)
                            < HALF_LEVEL)
                    &&& m.spec_rng() matches RandomSource::Scripted(sc2)
                    &&& sc2.levels@ == sc.levels@
                    &&& sc2.next == (sc.next + size * size) % sc.levels@.len() as int
                })
                &&& (rng is Seeded ==> m.spec_rng() is Seeded)
            },
    {
        if size == 0 {
            return Err(ModelError::ZeroSize);
        }
        proof {
            lemma_square_overflow_check(size);
        }
        if size > usize::MAX / size {
            return Err(ModelError::GridTooLarge);
        }
        let n = size * size;
        let ghost rng0 = rng;
        proof {
            match rng0 {
                RandomSource::Scripted(sc) => {
                    lemma_small_mod(sc.next as nat, sc.levels@.len() as nat);
                },
                _ => {},
            }
        }
        let mut rng = rng;
        let mut spins: Vec<bool> = Vec::new();
        let mut i: usize = 0;
        while i < n
            invariant
                i <= n,
                spins@.len() == i,
                rng.wf(),
                rng0 matches RandomSource::Scripted(sc) ==> {
                    &&& rng matches RandomSource::Scripted(scc)
                    &&& scc.levels@ == sc.levels@
                    &&& scc.next == (sc.next + i) % sc.levels@.len() as int
                    &&& forall|j: int|
                        0 <= j < i ==> spins@[j] == (script_level(sc, j) < HALF_LEVEL)
                },
                rng0 is Seeded ==> rng is Seeded,
            decreases n - i,
        {
            let ghost rng_before = rng;
            let b = rng.next_bool();
            proof {
                match (rng0, rng_before) {
                    (RandomSource::Scripted(sc), RandomSource::Scripted(scb)) => {
                        lemma_script_shift(sc, scb, i as nat);
                    },
                    _ => {},
                }
            }
            spins.push(b);
            i += 1;
        }
        Ok(Model { size, spins, coupling, rng })
    }

    /// One full Metropolis sweep. Every cell is visited once, in raster
    /// order `0` to `size * size - 1`; each visit computes the local `k`
    /// from the four toroidal neighbors and applies the coupling's rule for
    /// it, drawing exactly one level from the random source where the rule
    /// is a chance rule and none where it is `Always`. The grid is mutated
    /// in place, so later cells see the flips of earlier ones in the same
    /// sweep. Some in-range draw sequence explains the new grid; with a
    /// scripted source the outcome is exactly `scripted_sweep` of the old
    /// state.
    #[verifier::loop_isolation(false)]
    pub fn update_metropolis(&mut self)
        requires
            old(self).wf(),
        ensures
            final(self).wf(),
            final(self).spec_size() == old(self).spec_size(),
            final(self).spec_coupling() == old(self).spec_coupling(),
            final(self).spec_spins().len() == old(self).spec_spins().len(),
            exists|draws: Seq<u64>|
                #[trigger] sweep_witness(
                    old(self).spec_coupling(),
                    old(self).spec_size() as nat,
                    old(self).spec_spins(),
                    draws,
                    final(self).spec_spins(),
                ),
            old(self).spec_rng() matches RandomSource::Scripted(sc) ==> {
                let res = scripted_sweep(
                    old(self).spec_coupling(),
                    old(self).spec_size() as nat,
                    old(self).spec_spins(),
                    sc,
                );
                &&& final(self).spec_spins() == res.0
                &&& final(self).spec_rng() matches RandomSource::Scripted(sc2)
                &&& sc2.levels@ == sc.levels@
                &&& sc2.next == (sc.next + res.1) % sc.levels@.len() as int
            },
            old(self).spec_rng() is Seeded ==> final(self).spec_rng() is Seeded,
    {
        let size = self.size;
        let n = size * size;
        let ghost c = self.coupling;
        let ghost s0 = self.spins@;
        let ghost rng0 = self.rng;
        proof {
            match rng0 {
                RandomSource::Scripted(sc) => {
                    lemma_small_mod(sc.next as nat, sc.levels@.len() as nat);
                },
                _ => {},
            }
        }
        let ghost szn = size as nat;
        let ghost mut taken: Seq<u64> = Seq::empty();
        let mut pos: usize = 0;
        while pos < n
            invariant
                pos <= n,
                self.size == old(self).size,
                self.coupling == old(self).coupling,
                self.rng.wf(),
                self.spins@.len() == s0.len(),
                taken.len() <= pos,
                forall|i: int| 0 <= i < taken.len() ==> taken[i] < LEVEL_SCALE,
                self.spins@ == sweep_upto(c, szn, s0, taken, pos as nat).0,
                taken.len() == sweep_upto(c, szn, s0, taken, pos as nat).1,
                rng0 matches RandomSource::Scripted(sc) ==> {
                    &&& self.rng matches RandomSource::Scripted(scc)
                    &&& scc.levels@ == sc.levels@
                    &&& scc.next == (sc.next + taken.len()) % sc.levels@.len() as int
                    &&& forall|i: int| 0 <= i < taken.len() ==> taken[i] == script_level(sc, i)
                },
                rng0 is Seeded ==> self.rng is Seeded,
            decreases n - pos,
        {
            let ghost st_before = sweep_upto(c, szn, s0, taken, pos as nat);
            let k = self.local_k_at(pos);
            let rule = self.coupling.rule_at(k);
            match rule {
                AcceptRule::Always => {
                    let cur = self.spins[pos];
                    self.spins[pos] = !cur;
                    proof {
                        assert(sweep_upto(c, szn, s0, taken, (pos + 1) as nat) == cell_next(
                            c,
                            szn,
                            st_before,
                            taken,
                            pos as nat,
                        ));
                    }
                },
                AcceptRule::Chance(t) => {
                    let ghost rng_before = self.rng;
                    let u = self.rng.next_level();
                    proof {
                        let taken2 = taken.push(u);
                        lemma_sweep_agree(c, szn, s0, taken, taken2, pos as nat);
                        match (rng0, rng_before) {
                            (RandomSource::Scripted(sc), RandomSource::Scripted(scb)) => {
                                lemma_script_shift(sc, scb, taken.len() as nat);
                            },
                            _ => {},
                        }
                        taken = taken2;
                        assert(sweep_upto(c, szn, s0, taken, (pos + 1) as nat) == cell_next(
                            c,
                            szn,
                            st_before,
                            taken,
                            pos as nat,
                        ));
                    }
                    if u < t {
                        let cur = self.spins[pos];
                        self.spins[pos] = !cur;
                    }
                },
            }
            pos += 1;
        }
        proof {
            assert(sweep_witness(
                old(self).spec_coupling(),
                old(self).spec_size() as nat,
                old(self).spec_spins(),
                taken,
                self.spins@,
            ));
            assert(exists|draws: Seq<u64>|
                #[trigger] sweep_witness(
                    old(self).spec_coupling(),
                    old(self).spec_size() as nat,
                    old(self).spec_spins(),
                    draws,
                    self.spins@,
                ));
            match rng0 {
                RandomSource::Scripted(sc) => {
                    let d = upcoming_levels(sc, szn * szn);
                    lemma_sweep_agree(c, szn, s0, taken, d, (szn * szn) as nat);
                },
                _ => {},
            }
        }
    }
}

} // verus!
