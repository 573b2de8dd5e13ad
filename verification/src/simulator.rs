use vstd::prelude::*;
use crate::forces::{
    acceleration, acceleration_field, candidates, coupling, in_lattice, neighbors_among, uniform,
    Field, lemma_coupling_push, lemma_neighbors_among_push,
};
pub use crate::indexing::{deindex, filter_indices, index};
use crate::indexing::{in_bounds, signed, unsigned};
use crate::vector::Vector;
use crate::{stencil, unit_step, Float};

verus! {

/// The field that a grid holds.
pub open spec fn grid_view<T, const SIZE: usize>(g: [[[T; 2]; SIZE]; SIZE]) -> Field<T> {
    Seq::new(SIZE as nat, |i: int| Seq::new(SIZE as nat, |j: int| g@[i]@[j]@))
}

/// Allocates one grid with `bytemuck::zeroed_box`. Nothing is claimed of what
/// the grid holds. The call panics when the allocation fails.
#[verifier::external_body]
fn zeroed_grid<T: Float + bytemuck::Zeroable, const SIZE: usize>() -> (r: Box<
    [[[T; 2]; SIZE]; SIZE],
>) {
    bytemuck::zeroed_box()
}

/// A freshly allocated grid with zero written into every scalar.
fn zero_grid<T: Float + bytemuck::Zeroable, const SIZE: usize>() -> (r: Box<
    [[[T; 2]; SIZE]; SIZE],
>)
    ensures
        grid_view(*r) == uniform(SIZE as int, T::zero_spec()),
{
    let mut grid: Box<[[[T; 2]; SIZE]; SIZE]> = zeroed_grid();
    let zero = T::zero();
    let mut i: usize = 0;
    while i < SIZE
        invariant
            i <= SIZE,
            zero == T::zero_spec(),
            forall|a: int, b: int, k: int|
                0 <= a < i && 0 <= b < SIZE && 0 <= k < 2 ==> (#[trigger] grid@[a]@[b]@[k])
                    == zero,
        decreases SIZE - i,
    {
        let mut j: usize = 0;
        while j < SIZE
            invariant
                i < SIZE,
                j <= SIZE,
                zero == T::zero_spec(),
                forall|a: int, b: int, k: int|
                    0 <= a < i && 0 <= b < SIZE && 0 <= k < 2 ==> (#[trigger] grid@[a]@[b]@[k])
                        == zero,
                forall|b: int, k: int|
                    0 <= b < j && 0 <= k < 2 ==> (#[trigger] grid@[i as int]@[b]@[k]) == zero,
            decreases SIZE - j,
        {
            grid[i][j] = [zero, zero];
            j += 1;
        }
        i += 1;
    }
    proof {
        assert(grid_view(*grid) =~~= uniform(SIZE as int, T::zero_spec()));
    }
    grid
}

/// A square lattice of point masses with the scratch grid that the next
/// accelerations are computed into.
#[derive(Debug, Clone, PartialEq)]
pub struct Simulation<T: Float, const SIZE: usize> {
    state: SimulationState<T, SIZE>,
    tmp_acc: Box<[[[T; 2]; SIZE]; SIZE]>,
}

/// Position, velocity and acceleration of every cell, and the two spring
/// constants.
#[derive(Debug, Clone, PartialEq)]
pub struct SimulationState<T: Float, const SIZE: usize> {
    stiffness: T,
    origin_stiffness: T,
    pos: Box<[[[T; 2]; SIZE]; SIZE]>,
    vel: Box<[[[T; 2]; SIZE]; SIZE]>,
    acc: Box<[[[T; 2]; SIZE]; SIZE]>,
}

/// The spring constants chosen so far for a simulation to be made.
pub struct SimulationBuilder<T, const SIZE: usize> {
    stiffness: Option<T>,
    origin_stiffness: Option<T>,
}

impl<T: Float, const SIZE: usize> SimulationBuilder<T, SIZE> {
    /// The coupling constant chosen, if any.
    pub closed spec fn chosen_stiffness(self) -> Option<T> {
        self.stiffness
    }

    /// The constant of the pull toward the origin chosen, if any.
    pub closed spec fn chosen_origin_stiffness(self) -> Option<T> {
        self.origin_stiffness
    }

    /// Chooses the coupling constant; a later choice replaces an earlier one.
    pub fn stiffness(self, stiffness: T) -> (r: Self)
        ensures
            r.chosen_stiffness() == Some(stiffness),
            r.chosen_origin_stiffness() == self.chosen_origin_stiffness(),
    {
        SimulationBuilder { stiffness: Some(stiffness), origin_stiffness: self.origin_stiffness }
    }

    /// Chooses the constant of the pull toward the origin; a later choice
    /// replaces an earlier one.
    pub fn origin_stiffness(self, origin_stiffness: T) -> (r: Self)
        ensures
            r.chosen_origin_stiffness() == Some(origin_stiffness),
            r.chosen_stiffness() == self.chosen_stiffness(),
    {
        SimulationBuilder { stiffness: self.stiffness, origin_stiffness: Some(origin_stiffness) }
    }

    /// Makes the simulation: a constant that was not chosen is one, and every
    /// position, velocity and acceleration is zero.
    pub fn finish(self) -> (r: Simulation<T, SIZE>) where T: bytemuck::Zeroable
        ensures
            r.stiffness() == match self.chosen_stiffness() {
                Some(s) => s,
                None => T::one_spec(),
            },
            r.origin_stiffness() == match self.chosen_origin_stiffness() {
                Some(s) => s,
                None => T::one_spec(),
            },
            r.positions() == uniform(SIZE as int, T::zero_spec()),
            r.velocities() == uniform(SIZE as int, T::zero_spec()),
            r.accelerations() == uniform(SIZE as int, T::zero_spec()),
            r.scratch() == uniform(SIZE as int, T::zero_spec()),
    {
        let stiffness = match self.stiffness {
            Some(s) => s,
            None => T::one(),
        };
        let origin_stiffness = match self.origin_stiffness {
            Some(s) => s,
            None => T::one(),
        };
        let pos = zero_grid();
        let vel = zero_grid();
        let acc = zero_grid();
        let tmp_acc = zero_grid();
        Simulation { tmp_acc, state: SimulationState { pos, vel, acc, stiffness, origin_stiffness } }
    }
}

/// The coupling term of cell `(i, j)` after one more candidate place: the
/// term so far, less `stiffness` times the position found at `at` if that
/// place exists in the lattice.
fn couple<T: Float, const SIZE: usize>(
    pos: &[[[T; 2]; SIZE]; SIZE],
    stiffness: T,
    so_far: Vector<T, 2>,
    at: Vector<isize, 2>,
    Ghost(cells): Ghost<Seq<(int, int)>>,
) -> (r: Vector<T, 2>)
    requires
        so_far@ == Seq::new(2, |k: int| coupling(grid_view(*pos), stiffness, cells, k)),
    ensures
        r@ == Seq::new(
            2,
            |k: int|
                coupling(
                    grid_view(*pos),
                    stiffness,
                    if in_lattice(SIZE as int, at@[0] as int, at@[1] as int) {
                        cells.push((at@[0] as int, at@[1] as int))
                    } else {
                        cells
                    },
                    k,
                ),
        ),
{
    let ghost c = (at@[0] as int, at@[1] as int);
    proof {
        assert(signed(at@)[0] == c.0 && signed(at@)[1] == c.1);
    }
    match filter_indices::<SIZE, 2>(at) {
        Some(found) => {
            proof {
                assert(0 <= signed(at@)[0] < SIZE && 0 <= signed(at@)[1] < SIZE);
                assert(unsigned(found@)[0] == found@[0] && unsigned(found@)[1] == found@[1]);
            }
            let row: usize = found.0[0];
            let col: usize = found.0[1];
            let there = Vector(pos[row][col]);
            let r = so_far.minus(there.scaled(stiffness));
            proof {
                assert forall|k: int| 0 <= k < 2 implies r@[k] == coupling(
                    grid_view(*pos),
                    stiffness,
                    cells.push(c),
                    k,
                ) by {
                    lemma_coupling_push(grid_view(*pos), stiffness, cells, c, k);
                    assert(grid_view(*pos)[c.0][c.1][k] == there@[k]);
                }
                assert(r@ =~= Seq::new(
                    2,
                    |k: int| coupling(grid_view(*pos), stiffness, cells.push(c), k),
                ));
            }
            r
        },
        None => {
            proof {
                if in_lattice(SIZE as int, c.0, c.1) {
                    assert forall|k: int| 0 <= k < 2 implies 0 <= #[trigger] signed(at@)[k]
                        < SIZE by {}
                    assert(in_bounds(signed(at@), SIZE as int));
                }
            }
            so_far
        },
    }
}

/// The acceleration of cell `(i, j)` for the positions in `pos`.
fn cell_acceleration<T: Float, const SIZE: usize>(
    pos: &[[[T; 2]; SIZE]; SIZE],
    stiffness: T,
    origin_stiffness: T,
    i: usize,
    j: usize,
) -> (r: Vector<T, 2>)
    requires
        i < SIZE,
        j < SIZE,
        SIZE <= isize::MAX,
    ensures
        r@ == acceleration(
            grid_view(*pos),
            stiffness,
            origin_stiffness,
            SIZE as int,
            i as int,
            j as int,
        ),
{
    let ghost field = grid_view(*pos);
    let ghost cands = candidates(i as int, j as int);
    let here = Vector(pos[i][j]);
    let origin_acc = here.scaled(origin_stiffness).negated();
    let mut coupled_acc: Vector<T, 2> = Vector::zero();
    let steps = stencil::<2>();
    let indices: Vector<isize, 2> = Vector([i as isize, j as isize]);
    let mut m: usize = 0;
    proof {
        assert(cands.take(0) =~= Seq::<(int, int)>::empty());
        assert(coupled_acc@ =~= Seq::new(
            2,
            |k: int| coupling(field, stiffness, neighbors_among(SIZE as int, cands.take(0)), k),
        ));
    }
    while m < 4
        invariant
            m <= 4,
            i < SIZE,
            j < SIZE,
            SIZE <= isize::MAX,
            field == grid_view(*pos),
            cands == candidates(i as int, j as int),
            indices@[0] == i && indices@[1] == j,
            forall|axis: int, k: int|
                0 <= axis < 2 && 0 <= k < 2 ==> (#[trigger] steps@[axis]@[0]@[k]) == unit_step(
                    axis,
                    k,
                ),
            forall|axis: int, k: int|
                0 <= axis < 2 && 0 <= k < 2 ==> (#[trigger] steps@[axis]@[1]@[k]) == -unit_step(
                    axis,
                    k,
                ),
            coupled_acc@ == Seq::new(
                2,
                |k: int|
                    coupling(field, stiffness, neighbors_among(SIZE as int, cands.take(m as int)), k),
            ),
        decreases 4 - m,
    {
        let axis: usize = m / 2;
        let side: usize = m % 2;
        let offset = steps[axis][side];
        proof {
            assert(offset@[0] == steps@[axis as int]@[side as int]@[0]);
            assert(offset@[1] == steps@[axis as int]@[side as int]@[1]);
            assert(-1 <= offset@[0] <= 1 && -1 <= offset@[1] <= 1);
            assert forall|k: int| 0 <= k < 2 implies isize::MIN <= #[trigger] indices@[k]
                + offset@[k] <= isize::MAX by {}
        }
        let at = indices.shifted(offset);
        let ghost cells = neighbors_among(SIZE as int, cands.take(m as int));
        let ghost c = (at@[0] as int, at@[1] as int);
        proof {
            assert(c == cands[m as int]);
            assert(cands.take(m + 1) =~= cands.take(m as int).push(c));
            lemma_neighbors_among_push(SIZE as int, cands.take(m as int), c);
        }
        coupled_acc = couple(pos, stiffness, coupled_acc, at, Ghost(cells));
        m += 1;
    }
    let r = origin_acc.plus(coupled_acc);
    proof {
        assert(cands.take(4) =~= cands);
        assert(r@ =~= acceleration(
            field,
            stiffness,
            origin_stiffness,
            SIZE as int,
            i as int,
            j as int,
        ));
    }
    r
}

impl<T: Float, const SIZE: usize> Simulation<T, SIZE> {
    /// The coupling constant between neighbors.
    pub closed spec fn stiffness(&self) -> T {
        self.state.stiffness
    }

    /// The constant of the pull toward the origin.
    pub closed spec fn origin_stiffness(&self) -> T {
        self.state.origin_stiffness
    }

    /// The position of every cell.
    pub closed spec fn positions(&self) -> Field<T> {
        grid_view(*self.state.pos)
    }

    /// The velocity of every cell.
    pub closed spec fn velocities(&self) -> Field<T> {
        grid_view(*self.state.vel)
    }

    /// The acceleration of every cell, as of the last update.
    pub closed spec fn accelerations(&self) -> Field<T> {
        grid_view(*self.state.acc)
    }

    /// What the scratch grid holds.
    pub closed spec fn scratch(&self) -> Field<T> {
        grid_view(*self.tmp_acc)
    }

    /// Starts a simulation with nothing chosen yet.
    pub fn build() -> (r: SimulationBuilder<T, SIZE>)
        ensures
            r.chosen_stiffness() == None::<T>,
            r.chosen_origin_stiffness() == None::<T>,
    {
        SimulationBuilder { stiffness: None, origin_stiffness: None }
    }

    /// The position of cell `(i, j)`, if the lattice has that cell.
    pub fn position(&self, i: usize, j: usize) -> (r: Option<Vector<T, 2>>)
        ensures
            r is Some <==> i < SIZE && j < SIZE,
            r matches Some(v) ==> v@ == self.positions()[i as int][j as int],
    {
        if i < SIZE && j < SIZE {
            Some(Vector(self.state.pos[i][j]))
        } else {
            None
        }
    }

    /// The velocity of cell `(i, j)`, if the lattice has that cell.
    pub fn velocity(&self, i: usize, j: usize) -> (r: Option<Vector<T, 2>>)
        ensures
            r is Some <==> i < SIZE && j < SIZE,
            r matches Some(v) ==> v@ == self.velocities()[i as int][j as int],
    {
        if i < SIZE && j < SIZE {
            Some(Vector(self.state.vel[i][j]))
        } else {
            None
        }
    }

    /// The acceleration of cell `(i, j)` as of the last update, if the
    /// lattice has that cell.
    pub fn acceleration(&self, i: usize, j: usize) -> (r: Option<Vector<T, 2>>)
        ensures
            r is Some <==> i < SIZE && j < SIZE,
            r matches Some(v) ==> v@ == self.accelerations()[i as int][j as int],
    {
        if i < SIZE && j < SIZE {
            Some(Vector(self.state.acc[i][j]))
        } else {
            None
        }
    }

    /// Moves cell `(i, j)` to `p` and says whether the lattice has that
    /// cell; where it has not, nothing changes.
    pub fn set_position(&mut self, i: usize, j: usize, p: Vector<T, 2>) -> (done: bool)
        ensures
            done <==> i < SIZE && j < SIZE,
            done ==> final(self).positions() == old(self).positions().update(
                i as int,
                old(self).positions()[i as int].update(j as int, p@),
            ),
            !done ==> final(self).positions() == old(self).positions(),
            final(self).velocities() == old(self).velocities(),
            final(self).accelerations() == old(self).accelerations(),
            final(self).scratch() == old(self).scratch(),
            final(self).stiffness() == old(self).stiffness(),
            final(self).origin_stiffness() == old(self).origin_stiffness(),
    {
        if i < SIZE && j < SIZE {
            let ghost before = self.positions();
            self.state.pos[i][j] = p.0;
            proof {
                assert(self.positions() =~~= before.update(
                    i as int,
                    before[i as int].update(j as int, p@),
                ));
            }
            true
        } else {
            false
        }
    }

    /// Recomputes the accelerations from the positions and makes them the
    /// live ones; the accelerations of before go to the scratch grid. The
    /// time step `dt` moves nothing: positions and velocities stay as they
    /// are. Cells are addressed by signed coordinates, so the side length
    /// has to fit one.
    pub fn update(&mut self, dt: T)
        requires
            SIZE <= isize::MAX,
        ensures
            final(self).accelerations() == acceleration_field(
                old(self).positions(),
                old(self).stiffness(),
                old(self).origin_stiffness(),
                SIZE as int,
            ),
            final(self).scratch() == old(self).accelerations(),
            final(self).positions() == old(self).positions(),
            final(self).velocities() == old(self).velocities(),
            final(self).stiffness() == old(self).stiffness(),
            final(self).origin_stiffness() == old(self).origin_stiffness(),
    {
        self.compute_acc();
        std::mem::swap(&mut self.tmp_acc, &mut self.state.acc);
    }

    /// Computes the acceleration of every cell from the positions into the
    /// scratch grid, and leaves everything else as it is. Cells are addressed
    /// by signed coordinates, so the side length has to fit one.
    pub fn compute_acc(&mut self)
        requires
            SIZE <= isize::MAX,
        ensures
            final(self).scratch() == acceleration_field(
                old(self).positions(),
                old(self).stiffness(),
                old(self).origin_stiffness(),
                SIZE as int,
            ),
            final(self).accelerations() == old(self).accelerations(),
            final(self).positions() == old(self).positions(),
            final(self).velocities() == old(self).velocities(),
            final(self).stiffness() == old(self).stiffness(),
            final(self).origin_stiffness() == old(self).origin_stiffness(),
    {
        let ghost before = self.state;
        let ghost field = self.positions();
        let stiffness = self.state.stiffness;
        let origin_stiffness = self.state.origin_stiffness;
        let mut i: usize = 0;
        while i < SIZE
            invariant
                i <= SIZE,
                SIZE <= isize::MAX,
                self.state == before,
                field == grid_view(*self.state.pos),
                stiffness == self.state.stiffness,
                origin_stiffness == self.state.origin_stiffness,
                forall|a: int, b: int|
                    0 <= a < i && 0 <= b < SIZE ==> (#[trigger] self.tmp_acc@[a]@[b])@
                        == acceleration(field, stiffness, origin_stiffness, SIZE as int, a, b),
            decreases SIZE - i,
        {
            let mut j: usize = 0;
            while j < SIZE
                invariant
                    i < SIZE,
                    j <= SIZE,
                    SIZE <= isize::MAX,
                    self.state == before,
                    field == grid_view(*self.state.pos),
                    stiffness == self.state.stiffness,
                    origin_stiffness == self.state.origin_stiffness,
                    forall|a: int, b: int|
                        0 <= a < i && 0 <= b < SIZE ==> (#[trigger] self.tmp_acc@[a]@[b])@
                            == acceleration(field, stiffness, origin_stiffness, SIZE as int, a, b),
                    forall|b: int|
                        0 <= b < j ==> (#[trigger] self.tmp_acc@[i as int]@[b])@ == acceleration(
                            field,
                            stiffness,
                            origin_stiffness,
                            SIZE as int,
                            i as int,
                            b,
                        ),
                decreases SIZE - j,
            {
                let a = cell_acceleration(&*self.state.pos, stiffness, origin_stiffness, i, j);
                self.tmp_acc[i][j] = a.0;
                j += 1;
            }
            i += 1;
        }
        proof {
            assert(self.scratch() =~~= acceleration_field(
                field,
                stiffness,
                origin_stiffness,
                SIZE as int,
            ));
        }
    }
}

} // verus!
