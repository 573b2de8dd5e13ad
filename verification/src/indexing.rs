use vstd::prelude::*;
use vstd::arithmetic::power::{pow, lemma_pow0, lemma_pow_positive, lemma_pow_increases};
use vstd::arithmetic::div_mod::{lemma_div_denominator, lemma_fundamental_div_mod, lemma_fundamental_div_mod_converse, lemma_mod_pos_bound, lemma_multiply_divide_lt, lemma_div_pos_is_pos};
use crate::vector::Vector;

verus! {

/// The coordinates held by a signed coordinate vector, as integers.
pub open spec fn signed(v: Seq<isize>) -> Seq<int> {
    Seq::new(v.len(), |k: int| v[k] as int)
}

/// The coordinates held by an unsigned coordinate vector, as integers.
pub open spec fn unsigned(v: Seq<usize>) -> Seq<int> {
    Seq::new(v.len(), |k: int| v[k] as int)
}

/// Every coordinate lies in `[0, size)`.
pub open spec fn in_bounds(c: Seq<int>, size: int) -> bool {
    forall|k: int| 0 <= k < c.len() ==> 0 <= #[trigger] c[k] < size
}

/// Row-major position of the cell at `c` in a lattice of side `size`: the
/// last axis varies fastest.
pub open spec fn flat_index(c: Seq<int>, size: int) -> int
    decreases c.len(),
{
    if c.len() == 0 {
        0
    } else {
        flat_index(c.drop_last(), size) * size + c.last()
    }
}

/// The same position written as the sum of `c[i] * size^(len - 1 - i)`.
pub open spec fn weighted_sum(c: Seq<int>, size: int) -> int
    decreases c.len(),
{
    if c.len() == 0 {
        0
    } else {
        c[0] * pow(size, (c.len() - 1) as nat) + weighted_sum(c.subrange(1, c.len() as int), size)
    }
}

/// Coordinate along `axis` of the cell at row-major position `k`.
pub open spec fn coordinate(k: int, size: int, dims: nat, axis: int) -> int {
    (k / pow(size, (dims - 1 - axis) as nat)) % size
}

/// All `dims` coordinates of the cell at row-major position `k`.
pub open spec fn coordinates(k: int, size: int, dims: nat) -> Seq<int> {
    Seq::new(dims, |axis: int| coordinate(k, size, dims, axis))
}

proof fn lemma_pow_succ(b: int, e: nat)
    ensures
        pow(b, e + 1) == b * pow(b, e),
{
    reveal(pow);
}

/// A valid coordinate vector has a row-major position below `size^len`.
pub proof fn lemma_flat_index_range(c: Seq<int>, size: int)
    requires
        in_bounds(c, size),
    ensures
        0 <= flat_index(c, size) < pow(size, c.len()),
    decreases c.len(),
{
    if c.len() == 0 {
        lemma_pow0(size);
    } else {
        let p = c.drop_last();
        assert(in_bounds(p, size)) by {
            assert forall|k: int| 0 <= k < p.len() implies 0 <= #[trigger] p[k] < size by {
                assert(p[k] == c[k]);
            }
        }
        lemma_flat_index_range(p, size);
        lemma_pow_succ(size, p.len());
        let f = flat_index(p, size);
        let top = pow(size, p.len());
        let l = c.last();
        assert(0 <= l < size);
        assert(0 <= f * size + l < size * top) by (nonlinear_arith)
            requires
                0 <= f < top,
                0 <= l < size,
        ;
    }
}

proof fn lemma_coordinate_of_flat_index(c: Seq<int>, size: int, axis: int)
    requires
        in_bounds(c, size),
        0 <= axis < c.len(),
    ensures
        coordinate(flat_index(c, size), size, c.len(), axis) == c[axis],
    decreases c.len(),
{
    let p = c.drop_last();
    let f = flat_index(c, size);
    let fp = flat_index(p, size);
    let l = c.last();
    assert(0 <= c[0] < size);
    assert(0 <= l < size);
    assert(in_bounds(p, size)) by {
        assert forall|k: int| 0 <= k < p.len() implies 0 <= #[trigger] p[k] < size by {
            assert(p[k] == c[k]);
        }
    }
    lemma_flat_index_range(p, size);
    lemma_flat_index_range(c, size);
    lemma_fundamental_div_mod_converse(f, size, fp, l);
    if axis == c.len() - 1 {
        lemma_pow0(size);
        assert(f / 1 == f);
    } else {
        lemma_coordinate_of_flat_index(p, size, axis);
        assert(p[axis] == c[axis]);
        let e = (p.len() - 1 - axis) as nat;
        lemma_pow_positive(size, e);
        lemma_pow_succ(size, e);
        lemma_div_denominator(f, size, pow(size, e));
        assert((c.len() - 1 - axis) as nat == e + 1);
    }
}

/// Reading the coordinates back from the row-major position of a valid
/// coordinate vector gives that vector: the position lies in
/// `[0, size^len)` and its coordinates are `c`.
pub proof fn lemma_deindex_inverts_index(c: Seq<int>, size: int)
    requires
        in_bounds(c, size),
    ensures
        0 <= flat_index(c, size) < pow(size, c.len()),
        coordinates(flat_index(c, size), size, c.len()) == c,
{
    lemma_flat_index_range(c, size);
    let back = coordinates(flat_index(c, size), size, c.len());
    assert forall|axis: int| 0 <= axis < c.len() implies back[axis] == c[axis] by {
        lemma_coordinate_of_flat_index(c, size, axis);
    }
    assert(back =~= c);
}

/// The coordinates of a position in `[0, size^dims)` are valid, and their
/// row-major position is that position again.
pub proof fn lemma_index_inverts_deindex(k: int, size: int, dims: nat)
    requires
        0 <= size,
        0 <= k < pow(size, dims),
    ensures
        in_bounds(coordinates(k, size, dims), size),
        flat_index(coordinates(k, size, dims), size) == k,
    decreases dims,
{
    let c = coordinates(k, size, dims);
    if dims == 0 {
        lemma_pow0(size);
    } else {
        let less = (dims - 1) as nat;
        lemma_pow_succ(size, less);
        assert(size > 0) by (nonlinear_arith)
            requires
                0 <= size,
                0 <= k < size * pow(size, less),
        ;
        lemma_multiply_divide_lt(k, size, pow(size, less));
        lemma_div_pos_is_pos(k, size);
        lemma_index_inverts_deindex(k / size, size, less);
        let p = coordinates(k / size, size, less);
        assert(c.drop_last() =~= p) by {
            assert forall|axis: int| 0 <= axis < less implies c[axis] == p[axis] by {
                let e = (less - 1 - axis) as nat;
                lemma_pow_positive(size, e);
                lemma_pow_succ(size, e);
                lemma_div_denominator(k, size, pow(size, e));
                assert((dims - 1 - axis) as nat == e + 1);
            }
        }
        lemma_pow0(size);
        assert(k / 1 == k);
        assert(c.last() == k % size);
        lemma_mod_pos_bound(k, size);
        lemma_fundamental_div_mod(k, size);
        assert((k / size) * size == size * (k / size)) by (nonlinear_arith);
        assert forall|axis: int| 0 <= axis < c.len() implies 0 <= #[trigger] c[axis] < size by {
            if axis < less {
                assert(c[axis] == c.drop_last()[axis]);
                assert(0 <= p[axis] < size);
            }
        }
    }
}

/// The row-major position is the sum of each coordinate times the side
/// length raised to the number of axes after it.
pub proof fn lemma_flat_index_is_weighted_sum(c: Seq<int>, size: int)
    ensures
        flat_index(c, size) == weighted_sum(c, size),
    decreases c.len(),
{
    if c.len() == 0 {
    } else if c.len() == 1 {
        lemma_pow0(size);
        let t = c.subrange(1, c.len() as int);
        assert(t.len() == 0);
        assert(flat_index(c.drop_last(), size) == 0);
        assert(weighted_sum(t, size) == 0);
        assert(c.last() == c[0]);
    } else {
        let p = c.drop_last();
        let t = c.subrange(1, c.len() as int);
        let mid = p.subrange(1, p.len() as int);
        assert(t.drop_last() =~= mid);
        assert(t.last() == c.last());
        assert(p[0] == c[0]);
        lemma_flat_index_is_weighted_sum(p, size);
        lemma_flat_index_is_weighted_sum(mid, size);
        lemma_flat_index_is_weighted_sum(t, size);
        lemma_pow_succ(size, (p.len() - 1) as nat);
        let w = pow(size, (p.len() - 1) as nat);
        let m = weighted_sum(mid, size);
        assert((c[0] * w + m) * size == c[0] * (size * w) + m * size) by (nonlinear_arith);
        assert((c.len() - 1) as nat == (p.len() - 1) as nat + 1);
        assert(weighted_sum(p, size) == c[0] * w + m);
        assert(flat_index(t, size) == flat_index(mid, size) * size + c.last());
        assert(weighted_sum(c, size) == c[0] * (size * w) + weighted_sum(t, size));
    }
}

/// Bounds check alone: the coordinates as unsigned numbers when every one of
/// them lies in `[0, SIZE)`, and nothing otherwise.
pub fn filter_indices<const SIZE: usize, const DIMS: usize>(indices: Vector<isize, DIMS>) -> (r:
    Option<Vector<usize, DIMS>>)
    ensures
        r is Some <==> in_bounds(signed(indices@), SIZE as int),
        r matches Some(v) ==> unsigned(v@) == signed(indices@),
{
    let mut out: [usize; DIMS] = [0usize; DIMS];
    let mut a: usize = 0;
    while a < DIMS
        invariant
            a <= DIMS,
            forall|m: int| 0 <= m < a ==> 0 <= #[trigger] indices@[m] < SIZE && out@[m] == indices@[m],
        decreases DIMS - a,
    {
        let x: isize = indices.0[a];
        if x < 0 || x as usize >= SIZE {
            proof {
                assert(signed(indices@)[a as int] == x);
            }
            return None;
        }
        out[a] = x as usize;
        a += 1;
    }
    let v = Vector(out);
    proof {
        assert(unsigned(v@) =~= signed(indices@));
        assert forall|k: int| 0 <= k < signed(indices@).len() implies 0 <= #[trigger] signed(
            indices@,
        )[k] < SIZE by {
            assert(0 <= indices@[k] < SIZE);
        }
    }
    Some(v)
}

/// Row-major position of a cell, or nothing when a coordinate is out of
/// range. A cell of the lattice needs a lattice whose positions fit the
/// machine word; a vector that is rejected needs nothing.
pub fn index<const SIZE: usize, const DIMS: usize>(indices: Vector<isize, DIMS>) -> (r: Option<
    usize,
>)
    requires
        in_bounds(signed(indices@), SIZE as int) ==> pow(SIZE as int, DIMS as nat) <= usize::MAX,
    ensures
        r is Some <==> in_bounds(signed(indices@), SIZE as int),
        r matches Some(k) ==> k == flat_index(signed(indices@), SIZE as int),
        r matches Some(k) ==> k == weighted_sum(signed(indices@), SIZE as int),
        r matches Some(k) ==> k < pow(SIZE as int, DIMS as nat),
{
    match filter_indices::<SIZE, DIMS>(indices) {
        None => None,
        Some(c) => {
            let ghost s = signed(indices@);
            let mut acc: usize = 0;
            let mut a: usize = 0;
            while a < DIMS
                invariant
                    a <= DIMS,
                    s == signed(indices@),
                    s.len() == DIMS,
                    in_bounds(s, SIZE as int),
                    unsigned(c@) == s,
                    pow(SIZE as int, DIMS as nat) <= usize::MAX,
                    acc == flat_index(s.take(a as int), SIZE as int),
                decreases DIMS - a,
            {
                proof {
                    let pre = s.take(a + 1);
                    assert(pre.drop_last() =~= s.take(a as int));
                    assert(pre.last() == s[a as int]);
                    assert(unsigned(c@)[a as int] == c@[a as int]);
                    assert(0 <= s[a as int] < SIZE);
                    assert(in_bounds(pre, SIZE as int)) by {
                        assert forall|k: int| 0 <= k < pre.len() implies 0 <= #[trigger] pre[k]
                            < SIZE by {
                            assert(pre[k] == s[k]);
                        }
                    }
                    lemma_flat_index_range(pre, SIZE as int);
                    lemma_flat_index_range(s.take(a as int), SIZE as int);
                    lemma_pow_increases(SIZE as nat, (a + 1) as nat, DIMS as nat);
                    assert(0 <= acc * SIZE) by (nonlinear_arith)
                        requires
                            0 <= acc,
                            0 <= SIZE,
                    ;
                }
                acc = acc * SIZE + c.0[a];
                a += 1;
            }
            proof {
                assert(s.take(DIMS as int) =~= s);
                lemma_flat_index_range(s, SIZE as int);
                lemma_flat_index_is_weighted_sum(s, SIZE as int);
            }
            Some(acc)
        },
    }
}

/// The number of cells of the lattice, `SIZE^DIMS`, where a signed position
/// can reach it, and nothing where the lattice has more cells than that.
fn cell_count<const SIZE: usize, const DIMS: usize>() -> (r: Option<usize>)
    ensures
        r matches Some(n) ==> n == pow(SIZE as int, DIMS as nat) && n <= isize::MAX,
        r is None ==> pow(SIZE as int, DIMS as nat) > isize::MAX,
{
    let mut total: usize = 1;
    let mut e: usize = 0;
    proof {
        lemma_pow0(SIZE as int);
    }
    while e < DIMS
        invariant
            e <= DIMS,
            total == pow(SIZE as int, e as nat),
            total <= isize::MAX,
        decreases DIMS - e,
    {
        proof {
            lemma_pow_succ(SIZE as int, e as nat);
            assert(total * SIZE == SIZE * total) by (nonlinear_arith);
        }
        let next = total.checked_mul(SIZE);
        match next {
            Some(t) => {
                if t > isize::MAX as usize {
                    proof {
                        lemma_pow_increases(SIZE as nat, (e + 1) as nat, DIMS as nat);
                    }
                    return None;
                }
                total = t;
            },
            None => {
                proof {
                    lemma_pow_increases(SIZE as nat, (e + 1) as nat, DIMS as nat);
                }
                return None;
            },
        }
        e += 1;
    }
    Some(total)
}

/// Coordinates of the cell at row-major position `k`, most significant axis
/// first, or nothing when `k` is outside `[0, SIZE^DIMS)`. In a lattice with
/// more cells than a signed position can count, every position from zero up
/// is inside.
pub fn deindex<const SIZE: usize, const DIMS: usize>(k: isize) -> (r: Option<Vector<usize, DIMS>>)
    ensures
        r is Some <==> 0 <= k < pow(SIZE as int, DIMS as nat),
        r matches Some(v) ==> unsigned(v@) == coordinates(k as int, SIZE as int, DIMS as nat),
        r matches Some(v) ==> in_bounds(unsigned(v@), SIZE as int) && flat_index(
            unsigned(v@),
            SIZE as int,
        ) == k,
{
    if k < 0 {
        return None;
    }
    match cell_count::<SIZE, DIMS>() {
        Some(total) => {
            if k as usize >= total {
                return None;
            }
        },
        None => {},
    }
    let mut out: [usize; DIMS] = [0usize; DIMS];
    let mut rest: usize = k as usize;
    let mut done: usize = 0;
    proof {
        lemma_pow0(SIZE as int);
        assert(k as int / 1 == k);
        if DIMS > 0 && SIZE == 0 {
            lemma_pow_succ(0, (DIMS - 1) as nat);
        }
    }
    while done < DIMS
        invariant
            done <= DIMS,
            0 <= k,
            DIMS > 0 ==> SIZE > 0,
            rest == (k as int) / pow(SIZE as int, done as nat),
            forall|axis: int|
                DIMS - done <= axis < DIMS ==> out@[axis] == #[trigger] coordinate(
                    k as int,
                    SIZE as int,
                    DIMS as nat,
                    axis,
                ),
        decreases DIMS - done,
    {
        let axis: usize = DIMS - 1 - done;
        proof {
            lemma_pow_positive(SIZE as int, done as nat);
            lemma_pow_succ(SIZE as int, done as nat);
            lemma_div_denominator(k as int, pow(SIZE as int, done as nat), SIZE as int);
            assert(pow(SIZE as int, done as nat) * SIZE == SIZE * pow(SIZE as int, done as nat))
                by (nonlinear_arith);
            assert((DIMS - 1 - axis) as nat == done as nat);
        }
        out[axis] = rest % SIZE;
        rest = rest / SIZE;
        done += 1;
    }
    let v = Vector(out);
    proof {
        assert(unsigned(v@) =~= coordinates(k as int, SIZE as int, DIMS as nat));
        lemma_index_inverts_deindex(k as int, SIZE as int, DIMS as nat);
    }
    Some(v)
}

} // verus!
