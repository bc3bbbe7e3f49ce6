use ising_backend::AcceptRule;
use ising_backend::Coupling;
use ising_backend::Model;
use ising_backend::ModelError;
use ising_backend::RandomSource;
use ising_backend::HALF_LEVEL;
use ising_backend::LEVEL_SCALE;

/// The acceptance rule that a real-valued coupling `beta_j` induces at
/// `k = e * s`: `Always` where `log_acc = -2 * beta_j * k` is positive, else
/// a threshold standing for `exp(log_acc)` in units of `1 / LEVEL_SCALE`.
fn rule_of(beta_j: f64, k: i32) -> AcceptRule {
    let log_acc = -2.0 * beta_j * (k as f64);
    if log_acc > 0.0 {
        AcceptRule::Always
    } else {
        let t = (log_acc.exp() * (LEVEL_SCALE as f64)) as u64;
        AcceptRule::Chance(if t > LEVEL_SCALE { LEVEL_SCALE } else { t })
    }
}

fn coupling_of(beta_j: f64) -> Coupling {
    Coupling {
        k_neg4: rule_of(beta_j, -4),
        k_neg2: rule_of(beta_j, -2),
        k_zero: rule_of(beta_j, 0),
        k_pos2: rule_of(beta_j, 2),
        k_pos4: rule_of(beta_j, 4),
    }
}

/// The level standing for the real `x` in `[0, 1)`.
fn level_of(x: f64) -> u64 {
    (x * (LEVEL_SCALE as f64)) as u64
}

fn scripted(levels: Vec<u64>) -> RandomSource {
    RandomSource::scripted(levels).unwrap()
}

fn script_cursor(m: &Model) -> usize {
    match m.rng() {
        RandomSource::Scripted(sc) => sc.next,
        RandomSource::Seeded(_) => panic!("expected a scripted source"),
    }
}

/// The number of aligned toroidal neighbor pairs, counting each pair once
/// through its left and upper member.
fn aligned_pairs(size: usize, grid: &[bool]) -> usize {
    let mut count = 0;
    for pos in 0..size * size {
        let x = pos % size;
        let y = pos / size;
        let right = (x + 1) % size + y * size;
        let down = x + ((y + 1) % size) * size;
        if grid[pos] == grid[right] {
            count += 1;
        }
        if grid[pos] == grid[down] {
            count += 1;
        }
    }
    count
}

#[test]
fn grid_size_invariant_over_steps() {
    let rng = scripted(vec![level_of(0.3), level_of(0.7), level_of(0.1)]);
    let mut m = Model::from_spins(
        3,
        coupling_of(1.0),
        vec![true, false, true, false, true, false, true, false, true],
        rng,
    )
    .unwrap();
    for _ in 0..5 {
        m.update_metropolis();
        assert_eq!(m.grid().len(), 9);
    }
    assert_eq!(m.size(), 3);
}

#[test]
fn energy_lowering_flip_is_unconditional() {
    // A lone up spin among down neighbors: flipping it lowers the energy
    // (k = -4, an Always rule at positive coupling), so it must flip even
    // though every drawn level is far too high to accept anything else.
    let mut spins = vec![false; 9];
    spins[4] = true;
    let rng = scripted(vec![level_of(0.999); 16]);
    let mut m = Model::from_spins(3, coupling_of(1.0), spins, rng).unwrap();
    m.update_metropolis();
    assert_eq!(m.grid().clone(), vec![false; 9]);
    // Draw-count discipline: the eight k > 0 cells each drew once; the
    // flipped cell was short-circuited and drew nothing.
    assert_eq!(script_cursor(&m), 8);
}

#[test]
fn concrete_two_by_two_all_up_rejects() {
    // All four spins up on the 2x2 torus: every cell's neighbors are all
    // up, so k = +4 and log_acc = -8 at coupling 1.0. A source pinned to
    // 0.999 rejects every flip.
    let rng = scripted(vec![level_of(0.999); 5]);
    let mut m = Model::from_spins(2, coupling_of(1.0), vec![true; 4], rng).unwrap();
    assert_eq!(m.neighbor_positions(0), (1, 1, 2, 2));
    assert_eq!(m.neighbor_positions(3), (2, 2, 1, 1));
    m.update_metropolis();
    assert_eq!(m.grid().clone(), vec![true; 4]);
    // Every cell drew exactly once.
    assert_eq!(script_cursor(&m), 4);
}

#[test]
fn zero_coupling_draws_once_per_cell_and_accepts() {
    // At coupling 0.0 every rule is a chance rule with threshold
    // LEVEL_SCALE (probability one), so each cell draws once and flips.
    let rng = scripted(vec![0; 8]);
    let mut m =
        Model::from_spins(2, coupling_of(0.0), vec![true, true, false, false], rng).unwrap();
    m.update_metropolis();
    assert_eq!(m.grid().clone(), vec![false, false, true, true]);
    assert_eq!(script_cursor(&m), 4);
}

#[test]
fn scripted_source_cycles() {
    // A one-level script serves every draw. The single cell of a 1x1
    // lattice is its own four neighbors, so k = +4; a zero level accepts
    // the flip on every sweep.
    let rng = scripted(vec![0]);
    let mut m = Model::from_spins(1, coupling_of(1.0), vec![true], rng).unwrap();
    m.update_metropolis();
    assert_eq!(m.grid().clone(), vec![false]);
    m.update_metropolis();
    assert_eq!(m.grid().clone(), vec![true]);
    assert_eq!(script_cursor(&m), 0);
}

#[test]
fn deterministic_reproducibility_scripted() {
    let levels = vec![level_of(0.12), level_of(0.85), level_of(0.4), level_of(0.66)];
    let spins = vec![true, false, false, true, true, false, true, false, false];
    let mut a = Model::from_spins(3, coupling_of(0.7), spins.clone(), scripted(levels.clone()))
        .unwrap();
    let mut b = Model::from_spins(3, coupling_of(0.7), spins, scripted(levels)).unwrap();
    for _ in 0..3 {
        a.update_metropolis();
        b.update_metropolis();
    }
    assert_eq!(a.grid().clone(), b.grid().clone());
}

#[test]
fn deterministic_reproducibility_seeded() {
    let mut a = Model::new(8, coupling_of(0.5), RandomSource::seeded(42)).unwrap();
    let mut b = Model::new(8, coupling_of(0.5), RandomSource::seeded(42)).unwrap();
    assert_eq!(a.grid().clone(), b.grid().clone());
    for _ in 0..5 {
        a.update_metropolis();
        b.update_metropolis();
    }
    assert_eq!(a.grid().clone(), b.grid().clone());
}

#[test]
fn initial_grid_from_script() {
    // A boolean draw from a scripted source is true iff its level lies
    // below HALF_LEVEL, one level per cell.
    let rng = scripted(vec![0, HALF_LEVEL, HALF_LEVEL - 1, LEVEL_SCALE - 1]);
    let m = Model::new(2, coupling_of(1.0), rng).unwrap();
    assert_eq!(m.grid().clone(), vec![true, false, true, false]);
    assert_eq!(script_cursor(&m), 0);
}

#[test]
fn zero_temperature_alignment_never_decreases() {
    // At a very large coupling the chance thresholds at positive k
    // underflow to zero: energy-raising moves are never accepted, so the
    // number of aligned neighbor pairs cannot drop over sweeps.
    let c = coupling_of(50.0);
    assert_eq!(c.k_pos2, AcceptRule::Chance(0));
    assert_eq!(c.k_pos4, AcceptRule::Chance(0));
    let mut m = Model::new(6, c, RandomSource::seeded(7)).unwrap();
    let start = aligned_pairs(6, m.grid());
    let mut previous = start;
    for _ in 0..30 {
        m.update_metropolis();
        let now = aligned_pairs(6, m.grid());
        assert!(now >= previous);
        previous = now;
    }
    // From a disordered start, thirty zero-temperature sweeps coarsen the
    // grid into majority-aligned domains.
    assert!(previous >= start);
    assert!(previous > 36);
}

#[test]
fn construction_rejects_zero_size() {
    let r = Model::new(0, coupling_of(1.0), scripted(vec![0]));
    assert_eq!(r.err(), Some(ModelError::ZeroSize));
    let r = Model::from_spins(0, coupling_of(1.0), vec![], scripted(vec![0]));
    assert_eq!(r.err(), Some(ModelError::ZeroSize));
}

#[test]
fn construction_rejects_oversized_grid() {
    let r = Model::new(usize::MAX, coupling_of(1.0), scripted(vec![0]));
    assert_eq!(r.err(), Some(ModelError::GridTooLarge));
}

#[test]
fn construction_rejects_spin_count_mismatch() {
    let r = Model::from_spins(2, coupling_of(1.0), vec![true; 3], scripted(vec![0]));
    assert_eq!(r.err(), Some(ModelError::SpinCountMismatch));
}

#[test]
fn scripted_source_rejects_bad_scripts() {
    assert_eq!(RandomSource::scripted(vec![]).err(), Some(ModelError::EmptyScript));
    assert_eq!(
        RandomSource::scripted(vec![0, LEVEL_SCALE]).err(),
        Some(ModelError::LevelOutOfRange)
    );
}
