use rtdriver::simulator::{deindex, filter_indices, index};
use rtdriver::Vector;

#[test]
fn test_index() {
    assert_eq!(index::<100, 2>(Vector([2, 10])), Some(210));
    assert_eq!(index::<10, 2>(Vector([2, 10])), None);
    assert_eq!(index::<10, 2>(Vector([10, 2])), None);
    assert_eq!(index::<10, 2>(Vector([9, 9])), Some(99));
    assert_eq!(index::<10, 2>(Vector([0, 0])), Some(0));
    assert_eq!(index::<10, 2>(Vector([-1, 2])), None);
    assert_eq!(index::<10, 2>(Vector([2, -1])), None);
    assert_eq!(index::<10, 2>(Vector([-1, -1])), None);

    assert_eq!(index::<100, 3>(Vector([2, 10, 5])), Some(21_005));
    assert_eq!(index::<10, 3>(Vector([2, 10, 2])), None);
    assert_eq!(index::<10, 3>(Vector([10, 2, 2])), None);
    assert_eq!(index::<10, 3>(Vector([9, 9, 9])), Some(999));
    assert_eq!(index::<10, 3>(Vector([0, 0, 0])), Some(0));
    assert_eq!(index::<10, 3>(Vector([-1, 2, 2])), None);
    assert_eq!(index::<10, 3>(Vector([2, -1, 2])), None);
    assert_eq!(index::<10, 3>(Vector([-1, 2, -1])), None);
}

#[test]
fn test_deindex() {
    assert_eq!(deindex::<100, 2>(210), Some(Vector([2, 10])));
    assert_eq!(deindex::<10, 2>(99), Some(Vector([9, 9])));
    assert_eq!(deindex::<10, 2>(0), Some(Vector([0, 0])));

    assert_eq!(deindex::<5, 3>(99), Some(Vector([3, 4, 4])));

    assert_eq!(deindex::<100, 2>(10000), None);
    assert_eq!(deindex::<100, 2>(-1), None);

    assert_eq!(deindex::<100, 3>(1000000), None);
    assert_eq!(deindex::<100, 3>(-1), None);
}

#[test]
fn index_then_deindex_gives_the_coordinates_back() {
    for a in 0..5isize {
        for b in 0..5isize {
            for c in 0..5isize {
                let k = index::<5, 3>(Vector([a, b, c])).unwrap();
                assert!(k < 125);
                assert_eq!(k, (a * 25 + b * 5 + c) as usize);
                assert_eq!(
                    deindex::<5, 3>(k as isize),
                    Some(Vector([a as usize, b as usize, c as usize]))
                );
            }
        }
    }
}

#[test]
fn deindex_then_index_gives_the_position_back() {
    for k in 0..49isize {
        let c = deindex::<7, 2>(k).unwrap();
        let back = index::<7, 2>(Vector([c.0[0] as isize, c.0[1] as isize]));
        assert_eq!(back, Some(k as usize));
    }
}

#[test]
fn positions_at_the_ends_of_the_range() {
    assert_eq!(deindex::<7, 2>(48), Some(Vector([6, 6])));
    assert_eq!(deindex::<7, 2>(49), None);
    assert_eq!(index::<7, 2>(Vector([6, 6])), Some(48));
    assert_eq!(index::<7, 2>(Vector([7, 0])), None);
    assert_eq!(index::<7, 2>(Vector([0, 7])), None);
}

#[test]
fn lattice_without_axes_has_one_cell() {
    assert_eq!(index::<10, 0>(Vector([])), Some(0));
    assert_eq!(deindex::<10, 0>(0), Some(Vector([])));
    assert_eq!(deindex::<10, 0>(1), None);
}

#[test]
fn lattice_of_side_zero_has_no_cell() {
    assert_eq!(index::<0, 2>(Vector([0, 0])), None);
    assert_eq!(deindex::<0, 2>(0), None);
    assert_eq!(filter_indices::<0, 1>(Vector([0])), None);
}

#[test]
fn filter_indices_checks_bounds_only() {
    assert_eq!(filter_indices::<10, 2>(Vector([3, 9])), Some(Vector([3, 9])));
    assert_eq!(filter_indices::<10, 2>(Vector([0, 0])), Some(Vector([0, 0])));
    assert_eq!(filter_indices::<10, 2>(Vector([3, 10])), None);
    assert_eq!(filter_indices::<10, 2>(Vector([-1, 3])), None);
    assert_eq!(filter_indices::<10, 3>(Vector([1, 2, 3])), Some(Vector([1, 2, 3])));
}

#[test]
fn lattice_with_more_cells_than_positions() {
    // Side 2^32 on three axes: every position from zero up names a cell.
    assert_eq!(
        deindex::<4294967296, 3>(isize::MAX),
        Some(Vector([0, 2147483647, 4294967295]))
    );
    assert_eq!(deindex::<4294967296, 3>(0), Some(Vector([0, 0, 0])));
    assert_eq!(deindex::<4294967296, 3>(4294967296), Some(Vector([0, 1, 0])));
    assert_eq!(deindex::<4294967296, 3>(-1), None);
    assert_eq!(deindex::<4294967296, 3>(isize::MIN), None);
    assert_eq!(index::<4294967296, 3>(Vector([-1, 0, 0])), None);
    assert_eq!(index::<4294967296, 3>(Vector([0, 4294967296, 0])), None);
}

#[test]
fn positions_at_the_ends_of_the_signed_range() {
    assert_eq!(deindex::<10, 2>(isize::MAX), None);
    assert_eq!(deindex::<10, 2>(isize::MIN), None);
    assert_eq!(deindex::<1, 5>(0), Some(Vector([0, 0, 0, 0, 0])));
    assert_eq!(deindex::<1, 5>(1), None);
}
