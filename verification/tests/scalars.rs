use rtdriver::{Float, Vector};

#[derive(Debug, Clone, Copy, PartialEq)]
struct Real(f64);

impl Float for Real {
    fn zero_spec() -> Self {
        Real(0.0)
    }

    fn one_spec() -> Self {
        Real(1.0)
    }

    fn add_spec(self, rhs: Self) -> Self {
        Real(self.0 + rhs.0)
    }

    fn sub_spec(self, rhs: Self) -> Self {
        Real(self.0 - rhs.0)
    }

    fn mul_spec(self, rhs: Self) -> Self {
        Real(self.0 * rhs.0)
    }

    fn neg_spec(self) -> Self {
        Real(-self.0)
    }

    fn zero() -> Self {
        Real(0.0)
    }

    fn one() -> Self {
        Real(1.0)
    }

    fn plus(self, rhs: Self) -> Self {
        Real(self.0 + rhs.0)
    }

    fn minus(self, rhs: Self) -> Self {
        Real(self.0 - rhs.0)
    }

    fn times(self, rhs: Self) -> Self {
        Real(self.0 * rhs.0)
    }

    fn negated(self) -> Self {
        Real(-self.0)
    }
}

#[test]
fn vectors_over_a_real_scalar() {
    let p = Vector([Real(1.5), Real(-2.0)]);
    let q = Vector([Real(0.25), Real(4.0)]);
    assert_eq!(p.plus(q), Vector([Real(1.75), Real(2.0)]));
    assert_eq!(p.minus(q), Vector([Real(1.25), Real(-6.0)]));
    assert_eq!(p.scaled(Real(10.0)).negated(), Vector([Real(-15.0), Real(20.0)]));
    assert_eq!(Vector::<Real, 2>::zero(), Vector([Real(0.0), Real(0.0)]));
}
