use rtdriver::{stencil, Float, Simulation, Vector, DIMS};

fn displaced<const SIZE: usize>(stiffness: i64, origin_stiffness: i64) -> Simulation<i64, SIZE> {
    let mut sim = Simulation::<i64, SIZE>::build()
        .stiffness(stiffness)
        .origin_stiffness(origin_stiffness)
        .finish();
    for i in 0..SIZE {
        for j in 0..SIZE {
            let n = (i * SIZE + j) as i64;
            assert!(sim.set_position(i, j, Vector([n + 1, -(2 * n + 1)])));
        }
    }
    sim
}

#[test]
fn fresh_simulation_is_zeroed() {
    let sim = Simulation::<i64, 3>::build().finish();
    for i in 0..3 {
        for j in 0..3 {
            assert_eq!(sim.position(i, j), Some(Vector([0, 0])));
            assert_eq!(sim.velocity(i, j), Some(Vector([0, 0])));
            assert_eq!(sim.acceleration(i, j), Some(Vector([0, 0])));
        }
    }
    assert_eq!(sim.position(3, 0), None);
    assert_eq!(sim.velocity(0, 3), None);
    assert_eq!(sim.acceleration(3, 3), None);
}

#[test]
fn rest_state_stays_at_rest() {
    let mut sim = Simulation::<i64, 4>::build().stiffness(7).origin_stiffness(-3).finish();
    sim.update(1);
    sim.compute_acc();
    for i in 0..4 {
        for j in 0..4 {
            assert_eq!(sim.acceleration(i, j), Some(Vector([0, 0])));
            assert_eq!(sim.position(i, j), Some(Vector([0, 0])));
        }
    }
}

#[test]
fn origin_only_regime() {
    let mut sim = Simulation::<i64, 4>::build().stiffness(0).origin_stiffness(3).finish();
    assert!(sim.set_position(1, 2, Vector([5, -7])));
    sim.update(1);
    for i in 0..4 {
        for j in 0..4 {
            let expected = if (i, j) == (1, 2) { Vector([-15, 21]) } else { Vector([0, 0]) };
            assert_eq!(sim.acceleration(i, j), Some(expected));
        }
    }
}

#[test]
fn coupling_terms_by_place_in_the_lattice() {
    let mut sim = Simulation::<i64, 3>::build().stiffness(1).origin_stiffness(0).finish();
    for i in 0..3 {
        for j in 0..3 {
            assert!(sim.set_position(i, j, Vector([1, 10])));
        }
    }
    sim.update(0);
    for (i, j) in [(0, 0), (0, 2), (2, 0), (2, 2)] {
        assert_eq!(sim.acceleration(i, j), Some(Vector([-2, -20])));
    }
    for (i, j) in [(0, 1), (1, 0), (1, 2), (2, 1)] {
        assert_eq!(sim.acceleration(i, j), Some(Vector([-3, -30])));
    }
    assert_eq!(sim.acceleration(1, 1), Some(Vector([-4, -40])));
}

#[test]
fn single_cell_has_no_neighbors() {
    let mut sim = Simulation::<i64, 1>::build().stiffness(9).origin_stiffness(2).finish();
    assert!(sim.set_position(0, 0, Vector([4, -6])));
    sim.update(0);
    assert_eq!(sim.acceleration(0, 0), Some(Vector([-8, 12])));
}

#[test]
fn acceleration_is_origin_term_plus_coupling() {
    let mut sim = displaced::<3>(2, 10);
    sim.update(1);
    // Cell (1, 1) holds [5, -9]; its neighbors hold [8, -15], [2, -3], [6, -11], [4, -7].
    assert_eq!(sim.acceleration(1, 1), Some(Vector([-50 - 2 * 20, 90 + 2 * 36])));
    // Cell (0, 0) holds [1, -1]; its neighbors hold [4, -7] and [2, -3].
    assert_eq!(sim.acceleration(0, 0), Some(Vector([-10 - 2 * 6, 10 + 2 * 10])));
    // Cell (2, 1) holds [8, -15]; its neighbors hold [5, -9], [9, -17], [7, -13].
    assert_eq!(sim.acceleration(2, 1), Some(Vector([-80 - 2 * 21, 150 + 2 * 39])));
}

#[test]
fn unset_constants_are_one() {
    let mut sim = displaced::<2>(1, 1);
    let mut plain = Simulation::<i64, 2>::build().finish();
    for i in 0..2 {
        for j in 0..2 {
            assert!(plain.set_position(i, j, sim.position(i, j).unwrap()));
        }
    }
    sim.update(0);
    plain.update(0);
    for i in 0..2 {
        for j in 0..2 {
            assert_eq!(plain.acceleration(i, j), sim.acceleration(i, j));
        }
    }
    // Cell (0, 0) holds [1, -1]; its neighbors hold [3, -5] and [2, -3].
    assert_eq!(plain.acceleration(0, 0), Some(Vector([-6, 9])));
}

#[test]
fn last_chosen_constant_wins() {
    let mut sim = Simulation::<i64, 2>::build()
        .stiffness(5)
        .origin_stiffness(4)
        .stiffness(2)
        .origin_stiffness(3)
        .finish();
    assert!(sim.set_position(0, 0, Vector([1, 1])));
    assert!(sim.set_position(0, 1, Vector([10, 100])));
    sim.update(0);
    assert_eq!(sim.acceleration(0, 0), Some(Vector([-3 - 20, -3 - 200])));
}

#[test]
fn update_moves_nothing_and_repeats_itself() {
    let mut sim = displaced::<3>(3, -2);
    sim.update(5);
    let first: Vec<_> = (0..9).map(|n| sim.acceleration(n / 3, n % 3)).collect();
    sim.update(5);
    for n in 0..9usize {
        assert_eq!(sim.acceleration(n / 3, n % 3), first[n]);
        let at = n as i64;
        assert_eq!(sim.position(n / 3, n % 3), Some(Vector([at + 1, -(2 * at + 1)])));
        assert_eq!(sim.velocity(n / 3, n % 3), Some(Vector([0, 0])));
    }
}

#[test]
fn compute_acc_leaves_the_live_accelerations() {
    let mut sim = displaced::<2>(1, 1);
    sim.compute_acc();
    for i in 0..2 {
        for j in 0..2 {
            assert_eq!(sim.acceleration(i, j), Some(Vector([0, 0])));
        }
    }
    sim.update(0);
    assert_eq!(sim.acceleration(0, 0), Some(Vector([-6, 9])));
}

#[test]
fn set_position_outside_the_lattice_changes_nothing() {
    let mut sim = Simulation::<i64, 2>::build().finish();
    assert!(!sim.set_position(2, 0, Vector([1, 1])));
    assert!(!sim.set_position(0, 2, Vector([1, 1])));
    for i in 0..2 {
        for j in 0..2 {
            assert_eq!(sim.position(i, j), Some(Vector([0, 0])));
        }
    }
}

#[test]
fn stencil_holds_the_unit_steps() {
    assert_eq!(DIMS, 2);
    assert_eq!(
        stencil::<2>(),
        [[Vector([1, 0]), Vector([-1, 0])], [Vector([0, 1]), Vector([0, -1])]]
    );
    assert_eq!(
        stencil::<3>(),
        [
            [Vector([1, 0, 0]), Vector([-1, 0, 0])],
            [Vector([0, 1, 0]), Vector([0, -1, 0])],
            [Vector([0, 0, 1]), Vector([0, 0, -1])],
        ]
    );
}

#[test]
fn vector_arithmetic_is_elementwise() {
    let a: Vector<i64, 3> = Vector([1, -2, 3]);
    let b: Vector<i64, 3> = Vector([10, 20, 30]);
    assert_eq!(a.plus(b), Vector([11, 18, 33]));
    assert_eq!(a.minus(b), Vector([-9, -22, -27]));
    assert_eq!(a.scaled(-4), Vector([-4, 8, -12]));
    assert_eq!(a.negated(), Vector([-1, 2, -3]));
    assert_eq!(Vector::<i64, 3>::zero(), Vector([0, 0, 0]));
    assert_eq!(Vector::<i64, 2>::broadcast(7), Vector([7, 7]));
    let at: Vector<isize, 2> = Vector([4, 0]);
    assert_eq!(at.shifted(Vector([0, -1])), Vector([4, -1]));
}

#[test]
fn whole_number_scalar_wraps() {
    assert_eq!(<i64 as Float>::zero(), 0);
    assert_eq!(<i64 as Float>::one(), 1);
    assert_eq!(Float::plus(i64::MAX, 1), i64::MIN);
    assert_eq!(Float::minus(i64::MIN, 1), i64::MAX);
    assert_eq!(Float::times(i64::MAX, 2), -2);
    assert_eq!(Float::negated(5i64), -5);
    assert_eq!(Float::negated(i64::MIN), i64::MIN);
}

#[test]
fn vector_from_indices_map_and_reductions() {
    let strides: Vector<i64, 3> = Vector::from_idx(|i| 10i64.pow((2 - i) as u32));
    assert_eq!(strides, Vector([100, 10, 1]));
    assert_eq!(strides.map(|x| x + 1), Vector([101, 11, 2]));
    assert_eq!(strides.sum(), 111);
    assert_eq!(strides.product(), 1000);
    assert_eq!(Vector::<i64, 0>::from_idx(|_| 5).sum(), 0);
    assert_eq!(Vector::<i64, 0>::from_idx(|_| 5).product(), 1);
    assert!(Vector([true, true, true]).all());
    assert!(!Vector([true, false, true]).all());
    assert!(Vector::<bool, 0>([]).all());
}

#[test]
fn map_changes_the_element_type() {
    let at: Vector<isize, 3> = Vector([3, -1, 10]);
    assert_eq!(at.map(|x| (0..10).contains(&x)), Vector([true, false, false]));
    assert!(!at.map(|x| (0..10).contains(&x)).all());
    let inside: Vector<isize, 2> = Vector([3, 9]);
    assert_eq!(inside.map(|x| x as usize), Vector([3usize, 9usize]));
}
