use vstd::prelude::*;
use crate::Float;

verus! {

/// A field over the lattice: one sequence of scalars per cell, by row and
/// column.
pub type Field<T> = Seq<Seq<Seq<T>>>;

/// The field of an `n` by `n` lattice whose every scalar is `v`.
pub open spec fn uniform<T>(n: int, v: T) -> Field<T> {
    Seq::new(n as nat, |i: int| Seq::new(n as nat, |j: int| Seq::new(2, |k: int| v)))
}

/// The cell at row `a`, column `b` exists in a lattice of side `n`.
pub open spec fn in_lattice(n: int, a: int, b: int) -> bool {
    0 <= a < n && 0 <= b < n
}

/// A coordinate on the first or last line of its axis.
pub open spec fn on_border(n: int, x: int) -> bool {
    x == 0 || x == n - 1
}

/// The four places next to cell `(i, j)`, in the order in which they are
/// visited: one step up and one step down along the first axis, then along
/// the second.
pub open spec fn candidates(i: int, j: int) -> Seq<(int, int)> {
    seq![(i + 1, j), (i - 1, j), (i, j + 1), (i, j - 1)]
}

/// Those of `cands` that exist in the lattice, in the same order.
pub open spec fn neighbors_among(n: int, cands: Seq<(int, int)>) -> Seq<(int, int)>
    decreases cands.len(),
{
    if cands.len() == 0 {
        Seq::empty()
    } else {
        let rest = neighbors_among(n, cands.drop_last());
        let c = cands.last();
        if in_lattice(n, c.0, c.1) {
            rest.push(c)
        } else {
            rest
        }
    }
}

/// The cells coupled to cell `(i, j)`: its direct neighbors that exist.
pub open spec fn neighbors(n: int, i: int, j: int) -> Seq<(int, int)> {
    neighbors_among(n, candidates(i, j))
}

/// Coupling term along `axis`: starting from zero, `stiffness` times the
/// position of each of `cells` is subtracted in turn.
pub open spec fn coupling<T: Float>(
    pos: Field<T>,
    stiffness: T,
    cells: Seq<(int, int)>,
    axis: int,
) -> T
    decreases cells.len(),
{
    if cells.len() == 0 {
        T::zero_spec()
    } else {
        let c = cells.last();
        coupling(pos, stiffness, cells.drop_last(), axis).sub_spec(
            pos[c.0][c.1][axis].mul_spec(stiffness),
        )
    }
}

/// Acceleration of cell `(i, j)` along `axis`: the pull toward the origin,
/// `-(position * origin_stiffness)`, plus the coupling to its neighbors.
pub open spec fn acceleration_at<T: Float>(
    pos: Field<T>,
    stiffness: T,
    origin_stiffness: T,
    n: int,
    i: int,
    j: int,
    axis: int,
) -> T {
    pos[i][j][axis].mul_spec(origin_stiffness).neg_spec().add_spec(
        coupling(pos, stiffness, neighbors(n, i, j), axis),
    )
}

/// Acceleration of cell `(i, j)` on both axes.
pub open spec fn acceleration<T: Float>(
    pos: Field<T>,
    stiffness: T,
    origin_stiffness: T,
    n: int,
    i: int,
    j: int,
) -> Seq<T> {
    Seq::new(2, |axis: int| acceleration_at(pos, stiffness, origin_stiffness, n, i, j, axis))
}

/// Acceleration of every cell of an `n` by `n` lattice.
pub open spec fn acceleration_field<T: Float>(
    pos: Field<T>,
    stiffness: T,
    origin_stiffness: T,
    n: int,
) -> Field<T> {
    Seq::new(
        n as nat,
        |i: int|
            Seq::new(
                n as nat,
                |j: int| acceleration(pos, stiffness, origin_stiffness, n, i, j),
            ),
    )
}

/// Subtracting `stiffness` times the scalar `x` from zero leaves zero.
pub open spec fn leaves_zero<T: Float>(x: T, stiffness: T) -> bool {
    T::zero_spec().sub_spec(x.mul_spec(stiffness)) == T::zero_spec()
}

/// With nothing coupled to it, a cell at `x` is accelerated by exactly
/// `-(x * origin_stiffness)`.
pub open spec fn origin_term_alone<T: Float>(x: T, origin_stiffness: T) -> bool {
    x.mul_spec(origin_stiffness).neg_spec().add_spec(T::zero_spec()) == x.mul_spec(
        origin_stiffness,
    ).neg_spec()
}

/// A cell at zero with nothing coupled to it is not accelerated.
pub open spec fn rests_at_origin<T: Float>(origin_stiffness: T) -> bool {
    T::zero_spec().mul_spec(origin_stiffness).neg_spec().add_spec(T::zero_spec())
        == T::zero_spec()
}

/// Extending the candidates by one extends the neighbors by that candidate
/// exactly when it exists in the lattice.
pub proof fn lemma_neighbors_among_push(n: int, cands: Seq<(int, int)>, c: (int, int))
    ensures
        neighbors_among(n, cands.push(c)) == if in_lattice(n, c.0, c.1) {
            neighbors_among(n, cands).push(c)
        } else {
            neighbors_among(n, cands)
        },
{
    assert(cands.push(c).drop_last() =~= cands);
    assert(cands.push(c).last() == c);
}

/// Coupling one more cell subtracts `stiffness` times its position.
pub proof fn lemma_coupling_push<T: Float>(
    pos: Field<T>,
    stiffness: T,
    cells: Seq<(int, int)>,
    c: (int, int),
    axis: int,
)
    ensures
        coupling(pos, stiffness, cells.push(c), axis) == coupling(
            pos,
            stiffness,
            cells,
            axis,
        ).sub_spec(pos[c.0][c.1][axis].mul_spec(stiffness)),
{
    assert(cells.push(c).drop_last() =~= cells);
    assert(cells.push(c).last() == c);
}

/// Every neighbor is a cell of the lattice and one of the candidates.
pub proof fn lemma_neighbors_among_members(n: int, cands: Seq<(int, int)>)
    ensures
        forall|m: int|
            0 <= m < neighbors_among(n, cands).len() ==> {
                let c = #[trigger] neighbors_among(n, cands)[m];
                in_lattice(n, c.0, c.1) && cands.contains(c)
            },
    decreases cands.len(),
{
    if cands.len() > 0 {
        let head = cands.drop_last();
        lemma_neighbors_among_members(n, head);
        let found = neighbors_among(n, cands);
        assert forall|m: int| 0 <= m < found.len() implies {
            let c = #[trigger] found[m];
            in_lattice(n, c.0, c.1) && cands.contains(c)
        } by {
            let c = found[m];
            if m < neighbors_among(n, head).len() {
                assert(c == neighbors_among(n, head)[m]);
                let w = choose|w: int| 0 <= w < head.len() && head[w] == c;
                assert(cands[w] == c);
            } else {
                assert(c == cands.last());
                assert(cands[cands.len() - 1] == c);
            }
        }
    }
}

/// A corner cell is coupled to exactly two cells, an edge cell that is no
/// corner to exactly three, an interior cell to exactly four.
pub proof fn lemma_neighbor_count(n: int, i: int, j: int)
    requires
        n > 1,
        in_lattice(n, i, j),
    ensures
        on_border(n, i) && on_border(n, j) ==> neighbors(n, i, j).len() == 2,
        on_border(n, i) != on_border(n, j) ==> neighbors(n, i, j).len() == 3,
        !on_border(n, i) && !on_border(n, j) ==> neighbors(n, i, j).len() == 4,
{
    let e = Seq::<(int, int)>::empty();
    let c1 = e.push((i + 1, j));
    let c2 = c1.push((i - 1, j));
    let c3 = c2.push((i, j + 1));
    let c4 = c3.push((i, j - 1));
    assert(c4 =~= candidates(i, j));
    assert(neighbors_among(n, e).len() == 0);
    lemma_neighbors_among_push(n, e, (i + 1, j));
    lemma_neighbors_among_push(n, c1, (i - 1, j));
    lemma_neighbors_among_push(n, c2, (i, j + 1));
    lemma_neighbors_among_push(n, c3, (i, j - 1));
}

/// Cells whose positions leave zero unchanged contribute nothing: the
/// coupling term over them is zero.
pub proof fn lemma_coupling_vanishes<T: Float>(
    pos: Field<T>,
    stiffness: T,
    cells: Seq<(int, int)>,
    axis: int,
)
    requires
        forall|m: int|
            0 <= m < cells.len() ==> leaves_zero(
                #[trigger] pos[cells[m].0][cells[m].1][axis],
                stiffness,
            ),
    ensures
        coupling(pos, stiffness, cells, axis) == T::zero_spec(),
    decreases cells.len(),
{
    if cells.len() > 0 {
        let head = cells.drop_last();
        assert forall|m: int| 0 <= m < head.len() implies leaves_zero(
            #[trigger] pos[head[m].0][head[m].1][axis],
            stiffness,
        ) by {
            assert(head[m] == cells[m]);
            assert(leaves_zero(pos[cells[m].0][cells[m].1][axis], stiffness));
        }
        lemma_coupling_vanishes(pos, stiffness, head, axis);
        let c = cells.last();
        assert(c == cells[cells.len() - 1]);
        assert(leaves_zero(pos[cells[cells.len() - 1].0][cells[cells.len() - 1].1][axis], stiffness));
    }
}

/// A lattice at rest stays at rest: when every position is zero, every
/// acceleration is zero, for all stiffness values at which zero coupled to
/// zero stays zero and a cell at zero is not pulled anywhere.
pub proof fn lemma_rest_state_is_stable<T: Float>(stiffness: T, origin_stiffness: T, n: int)
    requires
        0 <= n,
        leaves_zero(T::zero_spec(), stiffness),
        rests_at_origin(origin_stiffness),
    ensures
        acceleration_field(uniform(n, T::zero_spec()), stiffness, origin_stiffness, n) == uniform(
            n,
            T::zero_spec(),
        ),
{
    let pos = uniform(n, T::zero_spec());
    let acc = acceleration_field(pos, stiffness, origin_stiffness, n);
    assert forall|i: int, j: int, k: int| 0 <= i < n && 0 <= j < n && 0 <= k < 2 implies (
    #[trigger] acc[i][j][k]) == T::zero_spec() by {
        let cells = neighbors(n, i, j);
        lemma_neighbors_among_members(n, candidates(i, j));
        assert forall|m: int| 0 <= m < cells.len() implies leaves_zero(
            #[trigger] pos[cells[m].0][cells[m].1][k],
            stiffness,
        ) by {
            let c = cells[m];
            assert(in_lattice(n, c.0, c.1));
            assert(pos[c.0][c.1][k] == T::zero_spec());
        }
        lemma_coupling_vanishes(pos, stiffness, cells, k);
        assert(pos[i][j][k] == T::zero_spec());
    }
    assert(acc =~~= uniform(n, T::zero_spec()));
}

/// With no coupling (zero stiffness) and a single displaced cell at
/// `(i0, j0)`, that cell is accelerated by `-(position * origin_stiffness)`
/// and every other cell stays unaccelerated. It holds wherever a term with
/// zero stiffness subtracts nothing and adding the zero coupling term changes
/// nothing.
pub proof fn lemma_origin_only<T: Float>(
    pos: Field<T>,
    origin_stiffness: T,
    n: int,
    i0: int,
    j0: int,
    i: int,
    j: int,
    axis: int,
)
    requires
        in_lattice(n, i0, j0),
        in_lattice(n, i, j),
        0 <= axis < 2,
        forall|a: int, b: int|
            in_lattice(n, a, b) && (a != i0 || b != j0) ==> #[trigger] pos[a][b][axis]
                == T::zero_spec(),
        leaves_zero(T::zero_spec(), T::zero_spec()),
        leaves_zero(pos[i0][j0][axis], T::zero_spec()),
        rests_at_origin(origin_stiffness),
        origin_term_alone(pos[i0][j0][axis], origin_stiffness),
    ensures
        i == i0 && j == j0 ==> acceleration_at(
            pos,
            T::zero_spec(),
            origin_stiffness,
            n,
            i,
            j,
            axis,
        ) == pos[i0][j0][axis].mul_spec(origin_stiffness).neg_spec(),
        i != i0 || j != j0 ==> acceleration_at(
            pos,
            T::zero_spec(),
            origin_stiffness,
            n,
            i,
            j,
            axis,
        ) == T::zero_spec(),
{
    let cells = neighbors(n, i, j);
    lemma_neighbors_among_members(n, candidates(i, j));
    assert forall|m: int| 0 <= m < cells.len() implies leaves_zero(
        #[trigger] pos[cells[m].0][cells[m].1][axis],
        T::zero_spec(),
    ) by {
        let c = cells[m];
        assert(in_lattice(n, c.0, c.1));
        if c.0 != i0 || c.1 != j0 {
            assert(pos[c.0][c.1][axis] == T::zero_spec());
        }
    }
    lemma_coupling_vanishes(pos, T::zero_spec(), cells, axis);
}

/// Over the whole numbers modulo 2^64 a lattice at rest stays at rest for
/// all stiffness values.
pub proof fn lemma_rest_state_is_stable_exactly(stiffness: i64, origin_stiffness: i64, n: int)
    requires
        0 <= n,
    ensures
        acceleration_field(uniform(n, 0i64), stiffness, origin_stiffness, n) == uniform(n, 0i64),
{
    assert(0i64 * stiffness == 0) by (nonlinear_arith);
    assert(0i64 * origin_stiffness == 0) by (nonlinear_arith);
    lemma_rest_state_is_stable::<i64>(stiffness, origin_stiffness, n);
}

/// Over the whole numbers modulo 2^64, with no coupling and a single
/// displaced cell at `(i0, j0)`, that cell is accelerated by
/// `-(position * origin_stiffness)` and every other cell stays unaccelerated.
pub proof fn lemma_origin_only_exactly(
    pos: Field<i64>,
    origin_stiffness: i64,
    n: int,
    i0: int,
    j0: int,
    i: int,
    j: int,
    axis: int,
)
    requires
        in_lattice(n, i0, j0),
        in_lattice(n, i, j),
        0 <= axis < 2,
        forall|a: int, b: int|
            in_lattice(n, a, b) && (a != i0 || b != j0) ==> #[trigger] pos[a][b][axis] == 0,
    ensures
        i == i0 && j == j0 ==> acceleration_at(pos, 0i64, origin_stiffness, n, i, j, axis)
            == pos[i0][j0][axis].mul_spec(origin_stiffness).neg_spec(),
        i != i0 || j != j0 ==> acceleration_at(pos, 0i64, origin_stiffness, n, i, j, axis) == 0,
{
    let p = pos[i0][j0][axis];
    assert(0i64 * 0i64 == 0) by (nonlinear_arith);
    assert(p * 0i64 == 0) by (nonlinear_arith);
    assert(0i64 * origin_stiffness == 0) by (nonlinear_arith);
    lemma_origin_only::<i64>(pos, origin_stiffness, n, i0, j0, i, j, axis);
}

} // verus!
