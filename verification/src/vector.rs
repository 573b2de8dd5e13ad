use vstd::prelude::*;
use crate::Float;

verus! {

/// A fixed-length tuple of `D` scalars.
#[derive(Debug, Clone, Copy, PartialEq)]
pub struct Vector<T, const D: usize>(pub [T; D]);

impl<T, const D: usize> View for Vector<T, D> {
    type V = Seq<T>;

    open spec fn view(&self) -> Seq<T> {
        self.0@
    }
}

/// The elements of `s` added up from left to right, starting from zero.
pub open spec fn sum_of<T: Float>(s: Seq<T>) -> T
    decreases s.len(),
{
    if s.len() == 0 {
        T::zero_spec()
    } else {
        sum_of(s.drop_last()).add_spec(s.last())
    }
}

/// The elements of `s` multiplied up from left to right, starting from one.
pub open spec fn product_of<T: Float>(s: Seq<T>) -> T
    decreases s.len(),
{
    if s.len() == 0 {
        T::one_spec()
    } else {
        product_of(s.drop_last()).mul_spec(s.last())
    }
}

/// Builds an array with `core::array::from_fn`, which makes each element by
/// calling `f` with that element's index, walking forward through the array.
#[verifier::external_body]
fn array_from_fn<T, F: Fn(usize) -> T, const D: usize>(f: F) -> (r: [T; D])
    requires
        forall|i: usize| i < D ==> f.requires((i,)),
    ensures
        forall|i: usize| i < D ==> f.ensures((i,), #[trigger] r@[i as int]),
{
    core::array::from_fn(f)
}

impl<T, const D: usize> Vector<T, D> {
    /// The vector whose element at each index is what `f` makes of that
    /// index.
    pub fn from_idx<F: Fn(usize) -> T>(f: F) -> (r: Self)
        requires
            forall|i: usize| i < D ==> f.requires((i,)),
        ensures
            r@.len() == D,
            forall|i: usize| i < D ==> f.ensures((i,), #[trigger] r@[i as int]),
    {
        Vector(array_from_fn(f))
    }
}

impl<const D: usize> Vector<bool, D> {
    /// Whether every element is true.
    pub fn all(self) -> (r: bool)
        ensures
            r <==> forall|k: int| 0 <= k < D ==> self@[k],
    {
        let mut k: usize = 0;
        while k < D
            invariant
                k <= D,
                forall|m: int| 0 <= m < k ==> self@[m],
            decreases D - k,
        {
            if !self.0[k] {
                assert(!self@[k as int]);
                return false;
            }
            k += 1;
        }
        true
    }
}

impl<T: Copy, const D: usize> Vector<T, D> {
    /// The vector of what `f` makes of each element.
    pub fn map<U, F: Fn(T) -> U>(self, f: F) -> (r: Vector<U, D>)
        requires
            forall|k: int| 0 <= k < D ==> f.requires((#[trigger] self@[k],)),
        ensures
            r@.len() == D,
            forall|k: int| 0 <= k < D ==> f.ensures((self@[k],), #[trigger] r@[k]),
    {
        let items = self.0;
        let make = &f;
        let each = |i: usize| -> (y: U)
            requires
                i < D,
                make.requires((items@[i as int],)),
            ensures
                make.ensures((items@[i as int],), y),
            { make(items[i]) };
        assert forall|i: usize| i < D implies each.requires((i,)) by {
            assert(f.requires((self@[i as int],)));
        }
        let out: [U; D] = array_from_fn(each);
        assert forall|k: int| 0 <= k < D implies f.ensures((self@[k],), #[trigger] out@[k]) by {
            assert(each.ensures((k as usize,), out@[k as usize as int]));
        }
        Vector(out)
    }

    /// The vector whose every element is `v`.
    pub fn broadcast(v: T) -> (r: Self)
        ensures
            r@ == Seq::new(D as nat, |k: int| v),
    {
        let r = Vector([v;D]);
        assert(r@ =~= Seq::new(D as nat, |k: int| v));
        r
    }
}

impl<const D: usize> Vector<isize, D> {
    /// Elementwise sum of two coordinate vectors.
    pub fn shifted(self, offset: Self) -> (r: Self)
        requires
            forall|k: int| 0 <= k < D ==> isize::MIN <= #[trigger] self@[k] + offset@[k] <= isize::MAX,
        ensures
            r@ == Seq::new(D as nat, |k: int| (self@[k] + offset@[k]) as isize),
    {
        let mut out: [isize; D] = self.0;
        let mut k: usize = 0;
        while k < D
            invariant
                k <= D,
                forall|m: int| 0 <= m < D ==> isize::MIN <= #[trigger] self@[m] + offset@[m] <= isize::MAX,
                forall|m: int| 0 <= m < k ==> out@[m] == self@[m] + offset@[m],
                forall|m: int| k <= m < D ==> out@[m] == self@[m],
            decreases D - k,
        {
            assert(isize::MIN <= self@[k as int] + offset@[k as int] <= isize::MAX);
            out[k] = self.0[k] + offset.0[k];
            k += 1;
        }
        let r = Vector(out);
        assert(r@ =~= Seq::new(D as nat, |k: int| (self@[k] + offset@[k]) as isize));
        r
    }
}

impl<T: Float, const D: usize> Vector<T, D> {
    /// The vector of zeros.
    pub fn zero() -> (r: Self)
        ensures
            r@ == Seq::new(D as nat, |k: int| T::zero_spec()),
    {
        Self::broadcast(T::zero())
    }

    /// All elements added up, from left to right.
    pub fn sum(self) -> (r: T)
        ensures
            r == sum_of(self@),
    {
        let mut total = T::zero();
        let mut k: usize = 0;
        proof {
            assert(self@.take(0).len() == 0);
        }
        while k < D
            invariant
                k <= D,
                total == sum_of(self@.take(k as int)),
            decreases D - k,
        {
            proof {
                assert(self@.take(k + 1).drop_last() =~= self@.take(k as int));
            }
            total = total.plus(self.0[k]);
            k += 1;
        }
        proof {
            assert(self@.take(D as int) =~= self@);
        }
        total
    }

    /// All elements multiplied up, from left to right.
    pub fn product(self) -> (r: T)
        ensures
            r == product_of(self@),
    {
        let mut total = T::one();
        let mut k: usize = 0;
        proof {
            assert(self@.take(0).len() == 0);
        }
        while k < D
            invariant
                k <= D,
                total == product_of(self@.take(k as int)),
            decreases D - k,
        {
            proof {
                assert(self@.take(k + 1).drop_last() =~= self@.take(k as int));
            }
            total = total.times(self.0[k]);
            k += 1;
        }
        proof {
            assert(self@.take(D as int) =~= self@);
        }
        total
    }

    /// Elementwise sum.
    pub fn plus(self, rhs: Self) -> (r: Self)
        ensures
            r@ == Seq::new(D as nat, |k: int| self@[k].add_spec(rhs@[k])),
    {
        let mut out: [T; D] = self.0;
        let mut k: usize = 0;
        while k < D
            invariant
                k <= D,
                forall|m: int| 0 <= m < k ==> out@[m] == self@[m].add_spec(rhs@[m]),
                forall|m: int| k <= m < D ==> out@[m] == self@[m],
            decreases D - k,
        {
            out[k] = self.0[k].plus(rhs.0[k]);
            k += 1;
        }
        let r = Vector(out);
        assert(r@ =~= Seq::new(D as nat, |k: int| self@[k].add_spec(rhs@[k])));
        r
    }

    /// Elementwise difference.
    pub fn minus(self, rhs: Self) -> (r: Self)
        ensures
            r@ == Seq::new(D as nat, |k: int| self@[k].sub_spec(rhs@[k])),
    {
        let mut out: [T; D] = self.0;
        let mut k: usize = 0;
        while k < D
            invariant
                k <= D,
                forall|m: int| 0 <= m < k ==> out@[m] == self@[m].sub_spec(rhs@[m]),
                forall|m: int| k <= m < D ==> out@[m] == self@[m],
            decreases D - k,
        {
            out[k] = self.0[k].minus(rhs.0[k]);
            k += 1;
        }
        let r = Vector(out);
        assert(r@ =~= Seq::new(D as nat, |k: int| self@[k].sub_spec(rhs@[k])));
        r
    }

    /// Every element multiplied by `factor`.
    pub fn scaled(self, factor: T) -> (r: Self)
        ensures
            r@ == Seq::new(D as nat, |k: int| self@[k].mul_spec(factor)),
    {
        let mut out: [T; D] = self.0;
        let mut k: usize = 0;
        while k < D
            invariant
                k <= D,
                forall|m: int| 0 <= m < k ==> out@[m] == self@[m].mul_spec(factor),
                forall|m: int| k <= m < D ==> out@[m] == self@[m],
            decreases D - k,
        {
            out[k] = self.0[k].times(factor);
            k += 1;
        }
        let r = Vector(out);
        assert(r@ =~= Seq::new(D as nat, |k: int| self@[k].mul_spec(factor)));
        r
    }

    /// Every element negated.
    pub fn negated(self) -> (r: Self)
        ensures
            r@ == Seq::new(D as nat, |k: int| self@[k].neg_spec()),
    {
        let mut out: [T; D] = self.0;
        let mut k: usize = 0;
        while k < D
            invariant
                k <= D,
                forall|m: int| 0 <= m < k ==> out@[m] == self@[m].neg_spec(),
                forall|m: int| k <= m < D ==> out@[m] == self@[m],
            decreases D - k,
        {
            out[k] = self.0[k].negated();
            k += 1;
        }
        let r = Vector(out);
        assert(r@ =~= Seq::new(D as nat, |k: int| self@[k].neg_spec()));
        r
    }
}

} // verus!
