use vstd::prelude::*;

verus! {

/// A pair of values, one per axis.
#[derive(Clone, Copy, Debug, PartialEq, Eq)]
pub struct Coords<T> {
    pub x: T,
    pub y: T,
}

/// Largest magnitude allowed for the numerator and denominator of a `Ratio`.
pub const RATIO_BOUND: i64 = 0x2000_0000;

/// Largest magnitude of a pixel length that a `Ratio` scales.
pub const LEN_BOUND: i64 = 0x1_0000_0000;

/// A normalized coordinate `num / den`, as a fraction of a length.
#[derive(Clone, Copy, Debug, PartialEq, Eq)]
pub struct Ratio {
    pub num: i64,
    pub den: i64,
}

/// Integer division that truncates toward zero.
pub open spec fn trunc_div(a: int, d: int) -> int {
    if a >= 0 {
        a / d
    } else {
        -((-a) / d)
    }
}

impl Ratio {
    pub open spec fn wf(self) -> bool {
        0 < self.den <= RATIO_BOUND && -RATIO_BOUND <= self.num <= RATIO_BOUND
    }

    /// `self` times `len`, truncated toward zero.
    pub open spec fn scale_spec(self, len: int) -> int {
        trunc_div(self.num * len, self.den as int)
    }

    pub fn zero() -> (r: Ratio)
        ensures
            r.wf(),
            r.num == 0,
            r.den == 1,
    {
        Ratio { num: 0, den: 1 }
    }

    /// Builds `num / den`, or `None` where it is out of bounds.
    pub fn new(num: i64, den: i64) -> (r: Option<Ratio>)
        ensures
            r is Some <==> (Ratio { num, den }).wf(),
            r is Some ==> r->0 == (Ratio { num, den }),
    {
        let r = Ratio { num, den };
        if 0 < den && den <= RATIO_BOUND && -RATIO_BOUND <= num && num <= RATIO_BOUND {
            Some(r)
        } else {
            None
        }
    }

    /// `self` times `len`, truncated toward zero.
    pub fn scale(&self, len: i64) -> (r: i64)
        requires
            self.wf(),
            -LEN_BOUND <= len <= LEN_BOUND,
        ensures
            r == self.scale_spec(len as int),
            -RATIO_BOUND * LEN_BOUND <= r <= RATIO_BOUND * LEN_BOUND,
    {
        assert(-RATIO_BOUND * LEN_BOUND <= self.num * len <= RATIO_BOUND * LEN_BOUND) by (nonlinear_arith)
            requires
                -RATIO_BOUND <= self.num <= RATIO_BOUND,
                -LEN_BOUND <= len <= LEN_BOUND,
        ;
        let a: i64 = self.num * len;
        if a >= 0 {
            assert(a / self.den <= a) by (nonlinear_arith)
                requires
                    a >= 0,
                    self.den > 0,
            ;
            a / self.den
        } else {
            let b: i64 = -a;
            assert(b / self.den <= b) by (nonlinear_arith)
                requires
                    b >= 0,
                    self.den > 0,
            ;
            -(b / self.den)
        }
    }
}

impl<T: Copy> Coords<T> {
    /// Applies `f` to each axis.
    pub fn map<U, F: Fn(T) -> U>(&self, f: F) -> (r: Coords<U>)
        requires
            f.requires((self.x,)),
            f.requires((self.y,)),
        ensures
            f.ensures((self.x,), r.x),
            f.ensures((self.y,), r.y),
    {
        Coords { x: f(self.x), y: f(self.y) }
    }
}

impl Coords<i64> {
    pub open spec fn fits(x: int) -> bool {
        i64::MIN <= x <= i64::MAX
    }

    pub fn add(self, rhs: Coords<i64>) -> (r: Coords<i64>)
        requires
            Self::fits(self.x + rhs.x),
            Self::fits(self.y + rhs.y),
        ensures
            r.x == self.x + rhs.x,
            r.y == self.y + rhs.y,
    {
        Coords { x: self.x + rhs.x, y: self.y + rhs.y }
    }

    pub fn sub(self, rhs: Coords<i64>) -> (r: Coords<i64>)
        requires
            Self::fits(self.x - rhs.x),
            Self::fits(self.y - rhs.y),
        ensures
            r.x == self.x - rhs.x,
            r.y == self.y - rhs.y,
    {
        Coords { x: self.x - rhs.x, y: self.y - rhs.y }
    }

    pub fn mul(self, rhs: Coords<i64>) -> (r: Coords<i64>)
        requires
            Self::fits(self.x * rhs.x),
            Self::fits(self.y * rhs.y),
        ensures
            r.x == self.x * rhs.x,
            r.y == self.y * rhs.y,
    {
        Coords { x: self.x * rhs.x, y: self.y * rhs.y }
    }
}

} // verus!
