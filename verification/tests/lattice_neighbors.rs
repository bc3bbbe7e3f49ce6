use ising_backend::AcceptRule;
use ising_backend::Coupling;
use ising_backend::Model;
use ising_backend::RandomSource;

fn plain_coupling() -> Coupling {
    Coupling {
        k_neg4: AcceptRule::Always,
        k_neg2: AcceptRule::Always,
        k_zero: AcceptRule::Chance(0),
        k_pos2: AcceptRule::Chance(0),
        k_pos4: AcceptRule::Chance(0),
    }
}

fn model_of(size: usize, spins: Vec<bool>) -> Model {
    let rng = RandomSource::scripted(vec![0]).unwrap();
    Model::from_spins(size, plain_coupling(), spins, rng).unwrap()
}

#[test]
fn neighbors_unit_lattice_self_wrap() {
    let m = model_of(1, vec![true]);
    assert_eq!(m.neighbor_positions(0), (0, 0, 0, 0));
}

#[test]
fn neighbors_two_by_two() {
    let m = model_of(2, vec![true, true, false, false]);
    assert_eq!(m.neighbor_positions(0), (1, 1, 2, 2));
    assert_eq!(m.neighbor_positions(1), (0, 0, 3, 3));
    assert_eq!(m.neighbor_positions(2), (3, 3, 0, 0));
    assert_eq!(m.neighbor_positions(3), (2, 2, 1, 1));
}

#[test]
fn neighbors_three_by_three() {
    let m = model_of(3, vec![false; 9]);
    // Interior-like cell: the center of the grid.
    assert_eq!(m.neighbor_positions(4), (3, 5, 1, 7));
    // A corner wraps to the far edge of its row and column.
    assert_eq!(m.neighbor_positions(0), (2, 1, 6, 3));
    // An edge cell of the last row wraps downward to the first row.
    assert_eq!(m.neighbor_positions(7), (6, 8, 4, 1));
}

#[test]
fn accessors_report_construction_values() {
    let m = model_of(3, vec![true, false, true, false, true, false, true, false, true]);
    assert_eq!(m.size(), 3);
    assert_eq!(
        m.grid().clone(),
        vec![true, false, true, false, true, false, true, false, true]
    );
}
