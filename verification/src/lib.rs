use vstd::prelude::*;

pub mod forces;
pub mod indexing;
pub mod simulator;
pub mod vector;

pub use simulator::Simulation;
pub use vector::Vector;

verus! {

/// Number of spatial axes of the lattice.
pub const DIMS: usize = 2;

/// The scalar of the physical quantities: a floating-point-like number type.
///
/// The arithmetic itself is not modelled. Each operation has a model function
/// (`add_spec` for `plus`, and so on) that names its result, and the
/// executable method promises to return exactly that value, so an operation
/// is a function of its operands alone. Everything the library proves about
/// accelerations is stated over these names and holds for any scalar type
/// that keeps this promise. The implementation for `i64` below is proved to
/// keep it; one written outside verified code is taken at its word, and
/// gives each model function the body of the method it stands for.
pub trait Float: Copy + Sized {
    /// What `zero` returns.
    spec fn zero_spec() -> Self;

    /// What `one` returns.
    spec fn one_spec() -> Self;

    /// What `plus` returns.
    spec fn add_spec(self, rhs: Self) -> Self;

    /// What `minus` returns.
    spec fn sub_spec(self, rhs: Self) -> Self;

    /// What `times` returns.
    spec fn mul_spec(self, rhs: Self) -> Self;

    /// What `negated` returns.
    spec fn neg_spec(self) -> Self;

    /// The additive identity.
    fn zero() -> (r: Self)
        ensures
            r == Self::zero_spec(),
    ;

    /// The multiplicative identity.
    fn one() -> (r: Self)
        ensures
            r == Self::one_spec(),
    ;

    /// `self + rhs`.
    fn plus(self, rhs: Self) -> (r: Self)
        ensures
            r == self.add_spec(rhs),
    ;

    /// `self - rhs`.
    fn minus(self, rhs: Self) -> (r: Self)
        ensures
            r == self.sub_spec(rhs),
    ;

    /// `self * rhs`.
    fn times(self, rhs: Self) -> (r: Self)
        ensures
            r == self.mul_spec(rhs),
    ;

    /// `-self`.
    fn negated(self) -> (r: Self)
        ensures
            r == self.neg_spec(),
    ;
}

/// Whole numbers modulo 2^64 as an exact scalar: every operation wraps, so
/// a lattice over them is computed without rounding.
impl Float for i64 {
    open spec fn zero_spec() -> Self {
        0i64
    }

    open spec fn one_spec() -> Self {
        1i64
    }

    open spec fn add_spec(self, rhs: Self) -> Self {
        self.wrapping_add(rhs)
    }

    open spec fn sub_spec(self, rhs: Self) -> Self {
        self.wrapping_sub(rhs)
    }

    open spec fn mul_spec(self, rhs: Self) -> Self {
        self.wrapping_mul(rhs)
    }

    open spec fn neg_spec(self) -> Self {
        0i64.wrapping_sub(self)
    }

    fn zero() -> (r: Self) {
        0i64
    }

    fn one() -> (r: Self) {
        1i64
    }

    fn plus(self, rhs: Self) -> (r: Self) {
        self.wrapping_add(rhs)
    }

    fn minus(self, rhs: Self) -> (r: Self) {
        self.wrapping_sub(rhs)
    }

    fn times(self, rhs: Self) -> (r: Self) {
        self.wrapping_mul(rhs)
    }

    fn negated(self) -> (r: Self) {
        0i64.wrapping_sub(self)
    }
}

/// Component `k` of the unit step along `axis`.
pub open spec fn unit_step(axis: int, k: int) -> int {
    if k == axis {
        1
    } else {
        0
    }
}

/// The offsets to the direct neighbors of a cell: for each axis the unit step
/// up and the unit step down along it.
pub fn stencil<const DIMS: usize>() -> (r: [[Vector<isize, DIMS>; 2]; DIMS])
    ensures
        forall|axis: int, k: int|
            0 <= axis < DIMS && 0 <= k < DIMS ==> (#[trigger] r@[axis]@[0]@[k]) == unit_step(
                axis,
                k,
            ),
        forall|axis: int, k: int|
            0 <= axis < DIMS && 0 <= k < DIMS ==> (#[trigger] r@[axis]@[1]@[k]) == -unit_step(
                axis,
                k,
            ),
{
    let still: Vector<isize, DIMS> = Vector([0isize;DIMS]);
    let mut steps: [[Vector<isize, DIMS>; 2]; DIMS] = [[still;2];DIMS];
    let mut i: usize = 0;
    while i < DIMS
        invariant
            i <= DIMS,
            forall|axis: int, k: int|
                0 <= axis < i && 0 <= k < DIMS ==> (#[trigger] steps@[axis]@[0]@[k]) == unit_step(
                    axis,
                    k,
                ),
            forall|axis: int, k: int|
                0 <= axis < i && 0 <= k < DIMS ==> (#[trigger] steps@[axis]@[1]@[k])
                    == -unit_step(axis, k),
        decreases DIMS - i,
    {
        let mut up: [isize; DIMS] = [0isize;DIMS];
        up[i] = 1;
        let mut down: [isize; DIMS] = [0isize;DIMS];
        down[i] = -1;
        steps[i] = [Vector(up), Vector(down)];
        i += 1;
    }
    steps
}

} // verus!
