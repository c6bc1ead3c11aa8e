//! Integer vectors, rectangles and bounds on the grid.
use vstd::prelude::*;

verus! {

/// Division of integers rounded toward zero, as Rust's `/` does.
pub open spec fn trunc_div(a: int, b: int) -> int {
    let q = (if a >= 0 {
        a
    } else {
        -a
    }) / (if b >= 0 {
        b
    } else {
        -b
    });
    if (a >= 0) == (b >= 0) {
        q
    } else {
        -q
    }
}

/// The remainder that goes with [`trunc_div`], as Rust's `%` computes it: it has the sign of `a`.
pub open spec fn trunc_rem(a: int, b: int) -> int {
    if a >= 0 {
        a % b
    } else {
        -((-a) % b)
    }
}

/// `a / b` rounded toward zero.
pub fn div_i32(a: i32, b: i32) -> (r: i32)
    requires
        b != 0,
        !(a == i32::MIN && b == -1),
    ensures
        r == trunc_div(a as int, b as int),
{
    let ua: i64 = if a >= 0 {
        a as i64
    } else {
        -(a as i64)
    };
    let ub: i64 = if b >= 0 {
        b as i64
    } else {
        -(b as i64)
    };
    let q: i64 = ua / ub;
    assert(q <= ua) by (nonlinear_arith)
        requires
            q == ua / ub,
            ua >= 0,
            ub >= 1,
    ;
    if (a >= 0) == (b >= 0) {
        proof {
            if a == i32::MIN {
                assert(ub >= 2);
                assert(q <= ua / 2) by (nonlinear_arith)
                    requires
                        q == ua / ub,
                        ua >= 0,
                        ub >= 2,
                ;
            }
        }
        q as i32
    } else {
        (-q) as i32
    }
}

/// `a % b`, with the sign of `a`.
pub fn rem_i32(a: i32, b: i32) -> (r: i32)
    requires
        b != 0,
        !(a == i32::MIN && b == -1),
    ensures
        r == trunc_rem(a as int, b as int),
{
    a % b
}

/// A point or offset on the integer grid.
#[derive(Debug, Clone, Copy, PartialEq, Eq, Structural, Hash)]
pub struct IVec2 {
    pub x: i32,
    pub y: i32,
}

/// Both coordinates of `x + y` fit in an `i32`.
pub open spec fn fits(v: int) -> bool {
    i32::MIN <= v <= i32::MAX
}

/// The vector `(x, y)` of two integers known to fit.
pub open spec fn ivec(x: int, y: int) -> IVec2 {
    IVec2 { x: x as i32, y: y as i32 }
}

impl IVec2 {
    /// The vector `(x, y)`.
    pub fn new(x: i32, y: i32) -> (r: IVec2)
        ensures
            r == (IVec2 { x, y }),
    {
        IVec2 { x, y }
    }

    /// `(0, 0)`, also the default vector.
    pub fn zero() -> (r: IVec2)
        ensures
            r == (IVec2 { x: 0, y: 0 }),
    {
        IVec2 { x: 0, y: 0 }
    }

    /// `(1, 1)`.
    pub fn one() -> (r: IVec2)
        ensures
            r == (IVec2 { x: 1, y: 1 }),
    {
        IVec2 { x: 1, y: 1 }
    }

    /// The default vector, `(0, 0)`.
    pub fn default() -> (r: IVec2)
        ensures
            r == (IVec2 { x: 0, y: 0 }),
    {
        IVec2 { x: 0, y: 0 }
    }

    /// Component-wise sum; it must not overflow.
    pub fn add(self, rhs: IVec2) -> (r: IVec2)
        requires
            fits(self.x + rhs.x),
            fits(self.y + rhs.y),
        ensures
            r == ivec(self.x + rhs.x, self.y + rhs.y),
    {
        IVec2 { x: self.x + rhs.x, y: self.y + rhs.y }
    }

    /// Adds `rhs` to `self`.
    pub fn add_assign(&mut self, rhs: IVec2)
        requires
            fits(old(self).x + rhs.x),
            fits(old(self).y + rhs.y),
        ensures
            *final(self) == ivec(old(self).x + rhs.x, old(self).y + rhs.y),
    {
        *self = self.add(rhs);
    }

    /// Component-wise difference; it must not overflow.
    pub fn sub(self, rhs: IVec2) -> (r: IVec2)
        requires
            fits(self.x - rhs.x),
            fits(self.y - rhs.y),
        ensures
            r == ivec(self.x - rhs.x, self.y - rhs.y),
    {
        IVec2 { x: self.x - rhs.x, y: self.y - rhs.y }
    }

    /// Subtracts `rhs` from `self`.
    pub fn sub_assign(&mut self, rhs: IVec2)
        requires
            fits(old(self).x - rhs.x),
            fits(old(self).y - rhs.y),
        ensures
            *final(self) == ivec(old(self).x - rhs.x, old(self).y - rhs.y),
    {
        *self = self.sub(rhs);
    }

    /// Component-wise product; it must not overflow.
    pub fn mul(self, rhs: IVec2) -> (r: IVec2)
        requires
            fits(self.x * rhs.x),
            fits(self.y * rhs.y),
        ensures
            r == ivec(self.x * rhs.x, self.y * rhs.y),
    {
        IVec2 { x: self.x * rhs.x, y: self.y * rhs.y }
    }

    /// Multiplies `self` by `rhs`, component-wise.
    pub fn mul_assign(&mut self, rhs: IVec2)
        requires
            fits(old(self).x * rhs.x),
            fits(old(self).y * rhs.y),
        ensures
            *final(self) == ivec(old(self).x * rhs.x, old(self).y * rhs.y),
    {
        *self = self.mul(rhs);
    }

    /// Both components multiplied by `rhs`; it must not overflow.
    pub fn mul_scalar(self, rhs: i32) -> (r: IVec2)
        requires
            fits(self.x * rhs),
            fits(self.y * rhs),
        ensures
            r == ivec(self.x * rhs, self.y * rhs),
    {
        IVec2 { x: self.x * rhs, y: self.y * rhs }
    }

    /// Component-wise division rounded toward zero; no divisor may be zero and no
    /// quotient may overflow.
    pub fn div(self, rhs: IVec2) -> (r: IVec2)
        requires
            rhs.x != 0,
            rhs.y != 0,
            !(self.x == i32::MIN && rhs.x == -1),
            !(self.y == i32::MIN && rhs.y == -1),
        ensures
            r == ivec(trunc_div(self.x as int, rhs.x as int), trunc_div(self.y as int, rhs.y as int)),
    {
        IVec2 { x: div_i32(self.x, rhs.x), y: div_i32(self.y, rhs.y) }
    }

    /// Divides `self` by `rhs`, component-wise.
    pub fn div_assign(&mut self, rhs: IVec2)
        requires
            rhs.x != 0,
            rhs.y != 0,
            !(old(self).x == i32::MIN && rhs.x == -1),
            !(old(self).y == i32::MIN && rhs.y == -1),
        ensures
            *final(self) == ivec(
                trunc_div(old(self).x as int, rhs.x as int),
                trunc_div(old(self).y as int, rhs.y as int),
            ),
    {
        *self = self.div(rhs);
    }

    /// Both components divided by `rhs`, rounded toward zero.
    pub fn div_scalar(self, rhs: i32) -> (r: IVec2)
        requires
            rhs != 0,
            !(self.x == i32::MIN && rhs == -1),
            !(self.y == i32::MIN && rhs == -1),
        ensures
            r == ivec(trunc_div(self.x as int, rhs as int), trunc_div(self.y as int, rhs as int)),
    {
        IVec2 { x: div_i32(self.x, rhs), y: div_i32(self.y, rhs) }
    }

    /// Component-wise remainder, with the sign of `self`.
    pub fn rem(self, rhs: IVec2) -> (r: IVec2)
        requires
            rhs.x != 0,
            rhs.y != 0,
            !(self.x == i32::MIN && rhs.x == -1),
            !(self.y == i32::MIN && rhs.y == -1),
        ensures
            r == ivec(trunc_rem(self.x as int, rhs.x as int), trunc_rem(self.y as int, rhs.y as int)),
    {
        IVec2 { x: rem_i32(self.x, rhs.x), y: rem_i32(self.y, rhs.y) }
    }

    /// Replaces `self` by its component-wise remainder by `rhs`.
    pub fn rem_assign(&mut self, rhs: IVec2)
        requires
            rhs.x != 0,
            rhs.y != 0,
            !(old(self).x == i32::MIN && rhs.x == -1),
            !(old(self).y == i32::MIN && rhs.y == -1),
        ensures
            *final(self) == ivec(
                trunc_rem(old(self).x as int, rhs.x as int),
                trunc_rem(old(self).y as int, rhs.y as int),
            ),
    {
        *self = self.rem(rhs);
    }

    /// Both components' remainders by `rhs`.
    pub fn rem_scalar(self, rhs: i32) -> (r: IVec2)
        requires
            rhs != 0,
            !(self.x == i32::MIN && rhs == -1),
            !(self.y == i32::MIN && rhs == -1),
        ensures
            r == ivec(trunc_rem(self.x as int, rhs as int), trunc_rem(self.y as int, rhs as int)),
    {
        IVec2 { x: rem_i32(self.x, rhs), y: rem_i32(self.y, rhs) }
    }

    /// Each component moved toward zero onto a multiple of `grid_size`.
    pub fn snap(self, grid_size: i32) -> (r: IVec2)
        requires
            grid_size != 0,
            !(self.x == i32::MIN && grid_size == -1),
            !(self.y == i32::MIN && grid_size == -1),
        ensures
            r == ivec(
                self.x - trunc_rem(self.x as int, grid_size as int),
                self.y - trunc_rem(self.y as int, grid_size as int),
            ),
    {
        let rx = rem_i32(self.x, grid_size);
        let ry = rem_i32(self.y, grid_size);
        proof {
            lemma_rem_bounds(self.x as int, grid_size as int);
            lemma_rem_bounds(self.y as int, grid_size as int);
        }
        IVec2 { x: self.x - rx, y: self.y - ry }
    }

    /// The sum of `items`, starting from `(0, 0)`; no partial sum may overflow.
    pub fn sum(items: &[IVec2]) -> (r: IVec2)
        requires
            forall|i: int|
                0 <= i <= items@.len() ==> fits(#[trigger] sum_x(items@.take(i))) && fits(
                    sum_y(items@.take(i)),
                ),
        ensures
            r == ivec(sum_x(items@), sum_y(items@)),
    {
        let mut acc = IVec2 { x: 0, y: 0 };
        let mut i: usize = 0;
        assert(items@.take(0) =~= Seq::<IVec2>::empty());
        while i < items.len()
            invariant
                i <= items@.len(),
                acc == ivec(sum_x(items@.take(i as int)), sum_y(items@.take(i as int))),
                forall|k: int|
                    0 <= k <= items@.len() ==> fits(#[trigger] sum_x(items@.take(k))) && fits(
                        sum_y(items@.take(k)),
                    ),
            decreases items@.len() - i,
        {
            assert(items@.take(i + 1).drop_last() =~= items@.take(i as int));
            assert(fits(sum_x(items@.take(i + 1))));
            acc = acc.add(items[i]);
            i = i + 1;
        }
        assert(items@.take(items@.len() as int) =~= items@);
        acc
    }

    /// The product of `items`, starting from `(1, 1)`; no partial product may overflow.
    pub fn product(items: &[IVec2]) -> (r: IVec2)
        requires
            forall|i: int|
                0 <= i <= items@.len() ==> fits(#[trigger] product_x(items@.take(i))) && fits(
                    product_y(items@.take(i)),
                ),
        ensures
            r == ivec(product_x(items@), product_y(items@)),
    {
        let mut acc = IVec2 { x: 1, y: 1 };
        let mut i: usize = 0;
        assert(items@.take(0) =~= Seq::<IVec2>::empty());
        while i < items.len()
            invariant
                i <= items@.len(),
                acc == ivec(product_x(items@.take(i as int)), product_y(items@.take(i as int))),
                forall|k: int|
                    0 <= k <= items@.len() ==> fits(#[trigger] product_x(items@.take(k))) && fits(
                        product_y(items@.take(k)),
                    ),
            decreases items@.len() - i,
        {
            assert(items@.take(i + 1).drop_last() =~= items@.take(i as int));
            assert(fits(product_x(items@.take(i + 1))));
            acc = acc.mul(items[i]);
            i = i + 1;
        }
        assert(items@.take(items@.len() as int) =~= items@);
        acc
    }
}

proof fn lemma_rem_bounds(a: int, b: int)
    requires
        b != 0,
    ensures
        a >= 0 ==> 0 <= trunc_rem(a, b) <= a,
        a < 0 ==> a <= trunc_rem(a, b) <= 0,
{
    if a >= 0 {
        assert(0 <= a % b);
        assert(a % b <= a) by (nonlinear_arith)
            requires
                a >= 0,
                b != 0,
        ;
    } else {
        assert(0 <= (-a) % b);
        assert((-a) % b <= -a) by (nonlinear_arith)
            requires
                -a >= 0,
                b != 0,
        ;
    }
}

/// Sum of the `x` components.
pub open spec fn sum_x(s: Seq<IVec2>) -> int
    decreases s.len(),
{
    if s.len() == 0 {
        0
    } else {
        sum_x(s.drop_last()) + s.last().x
    }
}

/// Sum of the `y` components.
pub open spec fn sum_y(s: Seq<IVec2>) -> int
    decreases s.len(),
{
    if s.len() == 0 {
        0
    } else {
        sum_y(s.drop_last()) + s.last().y
    }
}

/// Product of the `x` components.
pub open spec fn product_x(s: Seq<IVec2>) -> int
    decreases s.len(),
{
    if s.len() == 0 {
        1
    } else {
        product_x(s.drop_last()) * s.last().x
    }
}

/// Product of the `y` components.
pub open spec fn product_y(s: Seq<IVec2>) -> int
    decreases s.len(),
{
    if s.len() == 0 {
        1
    } else {
        product_y(s.drop_last()) * s.last().y
    }
}

/// A rectangle given by its corner, width and height.
#[derive(Debug, Clone, Copy, PartialEq, Eq, Structural, Hash)]
pub struct IRect {
    pub x: i32,
    pub y: i32,
    pub w: i32,
    pub h: i32,
}

impl IRect {
    /// The rectangle at `(x, y)` of size `w` by `h`.
    pub fn new(x: i32, y: i32, w: i32, h: i32) -> (r: IRect)
        ensures
            r == (IRect { x, y, w, h }),
    {
        IRect { x, y, w, h }
    }

    /// The rectangle covering the same cells as `b`; the size must fit.
    pub fn from_bounds(b: IBounds) -> (r: IRect)
        requires
            fits(b.max.x - b.min.x),
            fits(b.max.y - b.min.y),
        ensures
            r == (IRect {
                x: b.min.x,
                y: b.min.y,
                w: (b.max.x - b.min.x) as i32,
                h: (b.max.y - b.min.y) as i32,
            }),
    {
        IRect { x: b.min.x, y: b.min.y, w: b.width(), h: b.height() }
    }
}

/// A box from a lower corner `min` to an upper corner `max`.
#[derive(Debug, Clone, Copy, PartialEq, Eq, Structural, Hash)]
pub struct IBounds {
    pub min: IVec2,
    pub max: IVec2,
}

impl IBounds {
    /// The box from `min` to `max`.
    pub fn new(min: IVec2, max: IVec2) -> (r: IBounds)
        ensures
            r == (IBounds { min, max }),
    {
        IBounds { min, max }
    }

    /// The box covering the rectangle `r`; its far corner must fit.
    pub fn from_rect(r: IRect) -> (b: IBounds)
        requires
            fits(r.x + r.w),
            fits(r.y + r.h),
        ensures
            b == (IBounds { min: IVec2 { x: r.x, y: r.y }, max: ivec(r.x + r.w, r.y + r.h) }),
    {
        IBounds { min: IVec2 { x: r.x, y: r.y }, max: IVec2 { x: r.x + r.w, y: r.y + r.h } }
    }

    /// Whether `p` lies in the box, the lower edges included and the upper ones not.
    pub fn contains(&self, p: IVec2) -> (r: bool)
        ensures
            r == (self.min.x <= p.x && p.x < self.max.x && self.min.y <= p.y && p.y < self.max.y),
    {
        self.min.x <= p.x && p.x < self.max.x && self.min.y <= p.y && p.y < self.max.y
    }

    /// `max.x - min.x`; it must fit.
    pub fn width(&self) -> (r: i32)
        requires
            fits(self.max.x - self.min.x),
        ensures
            r == self.max.x - self.min.x,
    {
        self.max.x - self.min.x
    }

    /// `max.y - min.y`; it must fit.
    pub fn height(&self) -> (r: i32)
        requires
            fits(self.max.y - self.min.y),
        ensures
            r == self.max.y - self.min.y,
    {
        self.max.y - self.min.y
    }

    /// Width times height; all three must fit.
    pub fn area(&self) -> (r: i32)
        requires
            fits(self.max.x - self.min.x),
            fits(self.max.y - self.min.y),
            fits((self.max.x - self.min.x) * (self.max.y - self.min.y)),
        ensures
            r == (self.max.x - self.min.x) * (self.max.y - self.min.y),
    {
        self.width() * self.height()
    }

    /// The first and last `x` of the box, both included.
    pub fn x(&self) -> (r: (i32, i32))
        ensures
            r == (self.min.x, self.max.x),
    {
        (self.min.x, self.max.x)
    }

    /// The first and last `y` of the box, both included.
    pub fn y(&self) -> (r: (i32, i32))
        ensures
            r == (self.min.y, self.max.y),
    {
        (self.min.y, self.max.y)
    }

    /// Grows the box to take in each of `points`.
    pub fn extend_points(&mut self, points: &[IVec2])
        ensures
            final(self).min.x == min_of(old(self).min.x as int, points@.map_values(|p: IVec2| p.x as int)),
            final(self).min.y == min_of(old(self).min.y as int, points@.map_values(|p: IVec2| p.y as int)),
            final(self).max.x == max_of(old(self).max.x as int, points@.map_values(|p: IVec2| p.x as int)),
            final(self).max.y == max_of(old(self).max.y as int, points@.map_values(|p: IVec2| p.y as int)),
    {
        let mut i: usize = 0;
        while i < points.len()
            invariant
                i <= points@.len(),
                self.min.x == min_of(old(self).min.x as int, points@.take(i as int).map_values(|p: IVec2| p.x as int)),
                self.min.y == min_of(old(self).min.y as int, points@.take(i as int).map_values(|p: IVec2| p.y as int)),
                self.max.x == max_of(old(self).max.x as int, points@.take(i as int).map_values(|p: IVec2| p.x as int)),
                self.max.y == max_of(old(self).max.y as int, points@.take(i as int).map_values(|p: IVec2| p.y as int)),
            decreases points@.len() - i,
        {
            let p = points[i];
            proof {
                let f1 = |q: IVec2| q.x as int;
                let f2 = |q: IVec2| q.y as int;
                assert(points@.take(i + 1).map_values(f1).drop_last() =~= points@.take(i as int).map_values(f1));
                assert(points@.take(i + 1).map_values(f2).drop_last() =~= points@.take(i as int).map_values(f2));
            }
            if p.x < self.min.x {
                self.min.x = p.x;
            }
            if p.y < self.min.y {
                self.min.y = p.y;
            }
            if p.x > self.max.x {
                self.max.x = p.x;
            }
            if p.y > self.max.y {
                self.max.y = p.y;
            }
            i = i + 1;
        }
        assert(points@.take(points@.len() as int) =~= points@);
    }

    /// Grows the box to take in each box of `others`.
    pub fn extend_bounds(&mut self, others: &[IBounds])
        ensures
            final(self).min.x == min_of(old(self).min.x as int, others@.map_values(|b: IBounds| b.min.x as int)),
            final(self).min.y == min_of(old(self).min.y as int, others@.map_values(|b: IBounds| b.min.y as int)),
            final(self).max.x == max_of(old(self).max.x as int, others@.map_values(|b: IBounds| b.max.x as int)),
            final(self).max.y == max_of(old(self).max.y as int, others@.map_values(|b: IBounds| b.max.y as int)),
    {
        let mut i: usize = 0;
        while i < others.len()
            invariant
                i <= others@.len(),
                self.min.x == min_of(old(self).min.x as int, others@.take(i as int).map_values(|b: IBounds| b.min.x as int)),
                self.min.y == min_of(old(self).min.y as int, others@.take(i as int).map_values(|b: IBounds| b.min.y as int)),
                self.max.x == max_of(old(self).max.x as int, others@.take(i as int).map_values(|b: IBounds| b.max.x as int)),
                self.max.y == max_of(old(self).max.y as int, others@.take(i as int).map_values(|b: IBounds| b.max.y as int)),
            decreases others@.len() - i,
        {
            let o = others[i];
            proof {
                let f1 = |b: IBounds| b.min.x as int;
                let f2 = |b: IBounds| b.min.y as int;
                let f3 = |b: IBounds| b.max.x as int;
                let f4 = |b: IBounds| b.max.y as int;
                assert(others@.take(i + 1).map_values(f1).drop_last() =~= others@.take(i as int).map_values(f1));
                assert(others@.take(i + 1).map_values(f2).drop_last() =~= others@.take(i as int).map_values(f2));
                assert(others@.take(i + 1).map_values(f3).drop_last() =~= others@.take(i as int).map_values(f3));
                assert(others@.take(i + 1).map_values(f4).drop_last() =~= others@.take(i as int).map_values(f4));
            }
            if o.min.x < self.min.x {
                self.min.x = o.min.x;
            }
            if o.min.y < self.min.y {
                self.min.y = o.min.y;
            }
            if o.max.x > self.max.x {
                self.max.x = o.max.x;
            }
            if o.max.y > self.max.y {
                self.max.y = o.max.y;
            }
            i = i + 1;
        }
        assert(others@.take(others@.len() as int) =~= others@);
    }
}

/// The least of `start` and every element of `s`.
pub open spec fn min_of(start: int, s: Seq<int>) -> int
    decreases s.len(),
{
    if s.len() == 0 {
        start
    } else {
        let m = min_of(start, s.drop_last());
        if s.last() < m {
            s.last()
        } else {
            m
        }
    }
}

/// The greatest of `start` and every element of `s`.
pub open spec fn max_of(start: int, s: Seq<int>) -> int
    decreases s.len(),
{
    if s.len() == 0 {
        start
    } else {
        let m = max_of(start, s.drop_last());
        if s.last() > m {
            s.last()
        } else {
            m
        }
    }
}

} // verus!
