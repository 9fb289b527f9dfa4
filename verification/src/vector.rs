use vstd::prelude::*;
use crate::point::{Point3, LOCAL_LIMIT};
use crate::root::{ceil_sqrt, lemma_root_up, root_up};

verus! {

/// The length of a unit vector, in the units in which directions and
/// normals are held.
pub const UNIT_ONE: i64 = 1_000_000;

/// Largest magnitude of a component of a vector of which a cross product
/// is taken: that of an edge between two points of a mesh's own frame.
pub const EDGE_LIMIT: i64 = 2_147_483_648;

/// Largest magnitude of a component of a cross product of two edges
/// between points of a mesh's own frame.
pub const CROSS_LIMIT: i128 = 9_223_372_036_854_775_808;

/// A vector is short where every component has magnitude below this.
pub const SHORT_LIMIT: i128 = 1_073_741_824;

/// How many times as long a short vector is made before its length is
/// taken.
pub const STRETCH: i128 = 4_294_967_296;

/// A direction or a normal; a vector of length one has length `UNIT_ONE`.
#[derive(Clone, Copy, Debug, PartialEq, Eq, Structural)]
pub struct Vector3 {
    pub x: i64,
    pub y: i64,
    pub z: i64,
}

impl Vector3 {
    /// The components as mathematical integers.
    pub open spec fn coords(self) -> (int, int, int) {
        (self.x as int, self.y as int, self.z as int)
    }

    /// Every component has magnitude at most `limit`.
    pub open spec fn bounded(self, limit: int) -> bool {
        &&& -limit <= self.x <= limit
        &&& -limit <= self.y <= limit
        &&& -limit <= self.z <= limit
    }
}

/// The vector from `a` to `b`.
pub open spec fn edge(a: Point3, b: Point3) -> (int, int, int) {
    (b.x - a.x, b.y - a.y, b.z - a.z)
}

/// The cross product `u x v`.
pub open spec fn cross(u: (int, int, int), v: (int, int, int)) -> (int, int, int) {
    (u.1 * v.2 - u.2 * v.1, u.2 * v.0 - u.0 * v.2, u.0 * v.1 - u.1 * v.0)
}

/// The squared length of `v`.
pub open spec fn norm_squared(v: (int, int, int)) -> int {
    v.0 * v.0 + v.1 * v.1 + v.2 * v.2
}

/// The quotient of `a` by a positive `b`, rounded toward zero.
pub open spec fn trunc_div(a: int, b: int) -> int {
    if a >= 0 {
        a / b
    } else {
        -((-a) / b)
    }
}

/// The magnitude of `x`.
pub open spec fn magnitude(x: int) -> int {
    if x >= 0 {
        x
    } else {
        -x
    }
}

/// Every component of `v` has magnitude below `SHORT_LIMIT`.
pub open spec fn is_short(v: (int, int, int)) -> bool {
    magnitude(v.0) < SHORT_LIMIT && magnitude(v.1) < SHORT_LIMIT && magnitude(v.2) < SHORT_LIMIT
}

/// `v` made long enough for its length to be taken in whole numbers: a
/// short vector is made `STRETCH` times as long, which leaves its
/// direction as it is.
pub open spec fn stretched(v: (int, int, int)) -> (int, int, int) {
    if is_short(v) {
        (v.0 * STRETCH, v.1 * STRETCH, v.2 * STRETCH)
    } else {
        v
    }
}

/// The unit vector along `v`: each component of the stretched vector
/// times `UNIT_ONE` over the length of the stretched vector, the length
/// rounded up to a whole number and the quotient rounded toward zero. Its
/// length is between `UNIT_ONE - 2` and `UNIT_ONE`. The zero vector has no
/// direction and stays zero.
pub open spec fn unit(v: (int, int, int)) -> (int, int, int) {
    let w = stretched(v);
    let n = norm_squared(w);
    if n == 0 {
        (0, 0, 0)
    } else {
        let len = root_up(n);
        (
            trunc_div(w.0 * UNIT_ONE, len),
            trunc_div(w.1 * UNIT_ONE, len),
            trunc_div(w.2 * UNIT_ONE, len),
        )
    }
}

/// The face normal of the triangle `a b c`: the unit vector along
/// `(b - a) x (c - a)`, or zero where the three points lie on one line.
pub open spec fn face_normal(a: Point3, b: Point3, c: Point3) -> (int, int, int) {
    unit(cross(edge(a, b), edge(a, c)))
}

/// The product of two numbers of magnitude at most `m` has magnitude at
/// most `m * m`.
proof fn lemma_product_bound(a: int, b: int, m: int)
    requires
        -m <= a <= m,
        -m <= b <= m,
    ensures
        -(m * m) <= a * b <= m * m,
{
    assert(-(m * m) <= a * b <= m * m) by (nonlinear_arith)
        requires
            -m <= a <= m,
            -m <= b <= m,
    ;
}

/// The cross product of two vectors whose components have magnitude at
/// most `EDGE_LIMIT`.
pub fn cross_product(u: (i64, i64, i64), v: (i64, i64, i64)) -> (r: (i128, i128, i128))
    requires
        -EDGE_LIMIT <= u.0 <= EDGE_LIMIT,
        -EDGE_LIMIT <= u.1 <= EDGE_LIMIT,
        -EDGE_LIMIT <= u.2 <= EDGE_LIMIT,
        -EDGE_LIMIT <= v.0 <= EDGE_LIMIT,
        -EDGE_LIMIT <= v.1 <= EDGE_LIMIT,
        -EDGE_LIMIT <= v.2 <= EDGE_LIMIT,
    ensures
        (r.0 as int, r.1 as int, r.2 as int) == cross(
            (u.0 as int, u.1 as int, u.2 as int),
            (v.0 as int, v.1 as int, v.2 as int),
        ),
        -CROSS_LIMIT <= r.0 <= CROSS_LIMIT,
        -CROSS_LIMIT <= r.1 <= CROSS_LIMIT,
        -CROSS_LIMIT <= r.2 <= CROSS_LIMIT,
{
    let ux: i128 = u.0 as i128;
    let uy: i128 = u.1 as i128;
    let uz: i128 = u.2 as i128;
    let vx: i128 = v.0 as i128;
    let vy: i128 = v.1 as i128;
    let vz: i128 = v.2 as i128;
    proof {
        let m: int = EDGE_LIMIT as int;
        lemma_product_bound(uy as int, vz as int, m);
        lemma_product_bound(uz as int, vy as int, m);
        lemma_product_bound(uz as int, vx as int, m);
        lemma_product_bound(ux as int, vz as int, m);
        lemma_product_bound(ux as int, vy as int, m);
        lemma_product_bound(uy as int, vx as int, m);
        assert(m * m == 4_611_686_018_427_387_904) by (nonlinear_arith)
            requires
                m == 2_147_483_648,
        ;
    }
    (uy * vz - uz * vy, uz * vx - ux * vz, ux * vy - uy * vx)
}

/// `(b - a) x (c - a)` for three points of a mesh's own frame.
pub fn edge_cross(a: &Point3, b: &Point3, c: &Point3) -> (r: (i128, i128, i128))
    requires
        a.bounded(LOCAL_LIMIT as int),
        b.bounded(LOCAL_LIMIT as int),
        c.bounded(LOCAL_LIMIT as int),
    ensures
        (r.0 as int, r.1 as int, r.2 as int) == cross(edge(*a, *b), edge(*a, *c)),
        -CROSS_LIMIT <= r.0 <= CROSS_LIMIT,
        -CROSS_LIMIT <= r.1 <= CROSS_LIMIT,
        -CROSS_LIMIT <= r.2 <= CROSS_LIMIT,
{
    cross_product(
        (b.x - a.x, b.y - a.y, b.z - a.z),
        (c.x - a.x, c.y - a.y, c.z - a.z),
    )
}

/// The quotient of `a` by a positive `b`, rounded toward zero.
pub fn div_toward_zero(a: i128, b: i128) -> (q: i128)
    requires
        b > 0,
        a > i128::MIN,
    ensures
        q == trunc_div(a as int, b as int),
        a >= 0 ==> 0 <= q <= a,
        a < 0 ==> a <= q <= 0,
{
    if a >= 0 {
        let q: u128 = (a as u128) / (b as u128);
        assert(q <= a) by (nonlinear_arith)
            requires
                q == (a as int) / (b as int),
                a >= 0,
                b > 0,
        ;
        q as i128
    } else {
        let q: u128 = ((-a) as u128) / (b as u128);
        assert(q <= -a) by (nonlinear_arith)
            requires
                q == (-(a as int)) / (b as int),
                a < 0,
                b > 0,
        ;
        -(q as i128)
    }
}

/// One component of a unit vector: `c * UNIT_ONE / len`, toward zero.
fn scale_component(c: i128, len: u128) -> (r: i64)
    requires
        -(len as int) <= c <= len,
        0 < len <= 0x1_0000_0000_0000_0000,
    ensures
        r == trunc_div(c * UNIT_ONE, len as int),
        -UNIT_ONE <= r <= UNIT_ONE,
{
    assert(-1_000_000 * len <= c * 1_000_000 <= 1_000_000 * len) by (nonlinear_arith)
        requires
            -(len as int) <= c <= len,
    ;
    let q = div_toward_zero(c * 1_000_000, len as i128);
    assert(-1_000_000 <= q <= 1_000_000) by (nonlinear_arith)
        requires
            -1_000_000 * len <= c * 1_000_000 <= 1_000_000 * len,
            0 < len,
            c * 1_000_000 >= 0 ==> q == (c * 1_000_000) / (len as int),
            c * 1_000_000 < 0 ==> q == -((-(c * 1_000_000)) / (len as int)),
    ;
    q as i64
}

/// The magnitude of a number.
fn magnitude_of(x: i128) -> (m: u128)
    requires
        -CROSS_LIMIT <= x <= CROSS_LIMIT,
    ensures
        m == magnitude(x as int),
{
    if x < 0 {
        (-x) as u128
    } else {
        x as u128
    }
}

/// The square of a magnitude is the square of the number.
proof fn lemma_square_of_magnitude(x: int)
    ensures
        magnitude(x) * magnitude(x) == x * x,
        x * x >= 0,
{
    assert(magnitude(x) * magnitude(x) == x * x) by (nonlinear_arith)
        requires
            magnitude(x) == x || magnitude(x) == -x,
    ;
    assert(x * x >= 0) by (nonlinear_arith);
}

/// A number whose square is at most that of a non-negative one is at
/// most that one.
proof fn lemma_below_by_squares(c: int, len: int)
    requires
        0 <= c,
        0 <= len,
        c * c <= len * len,
    ensures
        c <= len,
{
    if c > len {
        assert(c * c > len * len) by (nonlinear_arith)
            requires
                0 <= len < c,
        ;
    }
}

/// The unit vector along `v`, or zero for the zero vector.
pub fn unit_vector(v: (i128, i128, i128)) -> (r: Vector3)
    requires
        -CROSS_LIMIT <= v.0 <= CROSS_LIMIT,
        -CROSS_LIMIT <= v.1 <= CROSS_LIMIT,
        -CROSS_LIMIT <= v.2 <= CROSS_LIMIT,
    ensures
        r.coords() == unit((v.0 as int, v.1 as int, v.2 as int)),
        r.bounded(UNIT_ONE as int),
        v != (0i128, 0i128, 0i128) ==> (UNIT_ONE - 2) * (UNIT_ONE - 2) <= norm_squared(r.coords())
            <= UNIT_ONE * UNIT_ONE,
{
    proof {
        if v != (0i128, 0i128, 0i128) {
            lemma_unit_length((v.0 as int, v.1 as int, v.2 as int));
        }
    }
    let short = magnitude_of(v.0) < 1_073_741_824 && magnitude_of(v.1) < 1_073_741_824
        && magnitude_of(v.2) < 1_073_741_824;
    let w: (i128, i128, i128) = if short {
        (v.0 * 4_294_967_296, v.1 * 4_294_967_296, v.2 * 4_294_967_296)
    } else {
        v
    };
    assert((w.0 as int, w.1 as int, w.2 as int) == stretched(
        (v.0 as int, v.1 as int, v.2 as int),
    ));
    let ax = magnitude_of(w.0);
    let ay = magnitude_of(w.1);
    let az = magnitude_of(w.2);
    proof {
        let m: int = CROSS_LIMIT as int;
        lemma_product_bound(ax as int, ax as int, m);
        lemma_product_bound(ay as int, ay as int, m);
        lemma_product_bound(az as int, az as int, m);
        assert(m * m == 0x4000_0000_0000_0000_0000_0000_0000_0000) by (nonlinear_arith)
            requires
                m == 0x8000_0000_0000_0000,
        ;
        lemma_square_of_magnitude(w.0 as int);
        lemma_square_of_magnitude(w.1 as int);
        lemma_square_of_magnitude(w.2 as int);
    }
    let n: u128 = ax * ax + ay * ay + az * az;
    if n == 0 {
        return Vector3 { x: 0, y: 0, z: 0 };
    }
    let len = ceil_sqrt(n);
    proof {
        lemma_root_up(n as int);
        lemma_below_by_squares(ax as int, len as int);
        lemma_below_by_squares(ay as int, len as int);
        lemma_below_by_squares(az as int, len as int);
    }
    Vector3 {
        x: scale_component(w.0, len),
        y: scale_component(w.1, len),
        z: scale_component(w.2, len),
    }
}

/// What one component of a unit vector is made of: with `a` the magnitude
/// of the component `c` and `p` that of the quotient, `p` times the
/// length is at most `UNIT_ONE` times `a` and falls short of it by less
/// than the length. The quotient has the sign of `c`.
proof fn lemma_quotient_parts(c: int, len: int)
    requires
        len > 0,
    ensures
        ({
            let q = trunc_div(c * UNIT_ONE, len);
            let p = magnitude(q);
            let a = magnitude(c);
            &&& q * q == p * p
            &&& p * len <= 1_000_000 * a
            &&& 1_000_000 * a - p * len < len
            &&& c >= 0 ==> q >= 0
            &&& c <= 0 ==> q <= 0
        }),
{
    let a = magnitude(c);
    let x = 1_000_000 * a;
    assert(0 <= x - (x / len) * len < len && x / len >= 0) by (nonlinear_arith)
        requires
            x >= 0,
            len > 0,
    ;
    if c >= 0 {
        assert(c * UNIT_ONE == x);
    } else {
        assert(-(c * UNIT_ONE) == x) by (nonlinear_arith)
            requires
                x == 1_000_000 * (-c),
                UNIT_ONE == 1_000_000,
        ;
        if x == 0 {
            assert(c * UNIT_ONE == 0);
        }
    }
    let q = trunc_div(c * UNIT_ONE, len);
    lemma_square_of_magnitude(q);
}

/// Between which bounds the square of one component lies, times the
/// square of the length.
proof fn lemma_square_sandwich(a: int, p: int, len: int)
    requires
        a >= 0,
        p >= 0,
        len > 0,
        p * len <= 1_000_000 * a,
        1_000_000 * a - p * len < len,
    ensures
        (len * len) * (p * p) <= 1_000_000_000_000 * (a * a),
        (len * len) * (p * p) >= 1_000_000_000_000 * (a * a) - 2_000_000 * (len * a),
{
    let x = p * len;
    let y = 1_000_000 * a;
    assert(x >= 0) by (nonlinear_arith)
        requires
            p >= 0,
            len > 0,
            x == p * len,
    ;
    assert(x * x <= y * y) by (nonlinear_arith)
        requires
            0 <= x <= y,
    ;
    assert(x * x >= y * y - 2 * (y * len)) by (nonlinear_arith)
        requires
            0 <= x <= y,
            y - x < len,
    ;
    assert(x * x == (len * len) * (p * p)) by (nonlinear_arith)
        requires
            x == p * len,
    ;
    assert(y * y == 1_000_000_000_000 * (a * a)) by (nonlinear_arith)
        requires
            y == 1_000_000 * a,
    ;
    assert(y * len == 1_000_000 * (len * a)) by (nonlinear_arith)
        requires
            y == 1_000_000 * a,
    ;
}

/// The sum of three magnitudes is at most seven quarters of a length
/// whose square is at least the sum of their squares.
proof fn lemma_sum_of_magnitudes(a: int, b: int, c: int, len: int)
    requires
        a >= 0,
        b >= 0,
        c >= 0,
        len >= 0,
        a * a + b * b + c * c <= len * len,
    ensures
        4 * (len * a + len * b + len * c) <= 7 * (len * len),
{
    let s = a + b + c;
    assert(3 * (a * a + b * b + c * c) - s * s == (a - b) * (a - b) + (b - c) * (b - c) + (a
        - c) * (a - c)) by (nonlinear_arith)
        requires
            s == a + b + c,
    ;
    assert((a - b) * (a - b) >= 0 && (b - c) * (b - c) >= 0 && (a - c) * (a - c) >= 0)
        by (nonlinear_arith);
    assert(s * s <= 3 * (len * len));
    if 4 * s > 7 * len {
        assert(16 * (s * s) > 49 * (len * len)) by (nonlinear_arith)
            requires
                4 * s > 7 * len,
                len >= 0,
        ;
    }
    assert(4 * (len * s) <= 7 * (len * len)) by (nonlinear_arith)
        requires
            4 * s <= 7 * len,
            len >= 0,
    ;
    assert(len * s == len * a + len * b + len * c) by (nonlinear_arith)
        requires
            s == a + b + c,
    ;
}

/// A long vector divided by its rounded-up length has a length between
/// `UNIT_ONE - 2` and `UNIT_ONE`.
proof fn lemma_quotient_length(w: (int, int, int), len: int)
    requires
        norm_squared(w) >= 1_152_921_504_606_846_976,
        len == root_up(norm_squared(w)),
    ensures
        ({
            let q = (
                trunc_div(w.0 * UNIT_ONE, len),
                trunc_div(w.1 * UNIT_ONE, len),
                trunc_div(w.2 * UNIT_ONE, len),
            );
            999_998 * 999_998 <= norm_squared(q) <= 1_000_000 * 1_000_000
        }),
{
    let n = norm_squared(w);
    lemma_root_up(n);
    let m = len * len;
    let q0 = trunc_div(w.0 * UNIT_ONE, len);
    let q1 = trunc_div(w.1 * UNIT_ONE, len);
    let q2 = trunc_div(w.2 * UNIT_ONE, len);
    let (a0, a1, a2) = (magnitude(w.0), magnitude(w.1), magnitude(w.2));
    let (p0, p1, p2) = (magnitude(q0), magnitude(q1), magnitude(q2));
    lemma_quotient_parts(w.0, len);
    lemma_quotient_parts(w.1, len);
    lemma_quotient_parts(w.2, len);
    lemma_square_of_magnitude(w.0);
    lemma_square_of_magnitude(w.1);
    lemma_square_of_magnitude(w.2);
    lemma_square_sandwich(a0, p0, len);
    lemma_square_sandwich(a1, p1, len);
    lemma_square_sandwich(a2, p2, len);
    lemma_sum_of_magnitudes(a0, a1, a2, len);
    let s = p0 * p0 + p1 * p1 + p2 * p2;
    assert(norm_squared((q0, q1, q2)) == s);
    let t = m * s;
    assert(t == m * (p0 * p0) + m * (p1 * p1) + m * (p2 * p2)) by (nonlinear_arith)
        requires
            t == m * s,
            s == p0 * p0 + p1 * p1 + p2 * p2,
    ;
    assert(a0 * a0 + a1 * a1 + a2 * a2 == n);
    // the length is at least 2^30, so its square is at least 2^30 times it
    assert(len >= 1_073_741_824) by (nonlinear_arith)
        requires
            len >= 1,
            len * len >= 1_152_921_504_606_846_976,
    ;
    assert(m >= 1_073_741_824 * len) by (nonlinear_arith)
        requires
            m == len * len,
            len >= 1_073_741_824,
    ;
    assert(n >= m - 2 * len + 2) by (nonlinear_arith)
        requires
            (len - 1) * (len - 1) < n,
            m == len * len,
    ;
    let x = len * a0 + len * a1 + len * a2;
    assert(t <= 1_000_000_000_000 * n);
    assert(n <= m);
    assert(t <= 1_000_000_000_000 * m);
    assert(t >= 1_000_000_000_000 * n - 2_000_000 * x);
    assert(4 * x <= 7 * m);
    assert(4 * t >= 4_000_000_000_000 * n - 14_000_000 * m);
    assert(4 * t >= 4_000_000_000_000 * m - 8_000_000_000_000 * len - 14_000_000 * m);
    assert(4 * t >= 3_999_984_000_016 * m);
    assert(m > 0);
    assert(s <= 1_000_000_000_000) by (nonlinear_arith)
        requires
            t == m * s,
            t <= 1_000_000_000_000 * m,
            m > 0,
    ;
    assert(s >= 999_996_000_004) by (nonlinear_arith)
        requires
            t == m * s,
            4 * t >= 3_999_984_000_016 * m,
            m > 0,
    ;
}

/// The stretched vector of a vector that is not zero is long: its squared
/// length is at least the square of `SHORT_LIMIT`.
proof fn lemma_stretched_is_long(v: (int, int, int))
    requires
        v != (0int, 0int, 0int),
    ensures
        norm_squared(stretched(v)) >= 1_152_921_504_606_846_976,
{
    let w = stretched(v);
    lemma_square_of_magnitude(w.0);
    lemma_square_of_magnitude(w.1);
    lemma_square_of_magnitude(w.2);
    let i_long = if is_short(v) {
        if v.0 != 0 {
            0int
        } else if v.1 != 0 {
            1int
        } else {
            2int
        }
    } else {
        if magnitude(v.0) >= SHORT_LIMIT {
            0int
        } else if magnitude(v.1) >= SHORT_LIMIT {
            1int
        } else {
            2int
        }
    };
    let c = if i_long == 0 {
        w.0
    } else if i_long == 1 {
        w.1
    } else {
        w.2
    };
    assert(magnitude(c) >= 1_073_741_824);
    assert(magnitude(c) * magnitude(c) >= 1_152_921_504_606_846_976) by (nonlinear_arith)
        requires
            magnitude(c) >= 1_073_741_824,
    ;
}

/// The unit vector along a vector that is not zero has a length between
/// `UNIT_ONE - 2` and `UNIT_ONE`, and each of its components has the sign
/// of the component it comes from.
pub proof fn lemma_unit_length(v: (int, int, int))
    requires
        v != (0int, 0int, 0int),
    ensures
        (UNIT_ONE - 2) * (UNIT_ONE - 2) <= norm_squared(unit(v)) <= UNIT_ONE * UNIT_ONE,
        v.0 >= 0 ==> unit(v).0 >= 0,
        v.0 <= 0 ==> unit(v).0 <= 0,
        v.1 >= 0 ==> unit(v).1 >= 0,
        v.1 <= 0 ==> unit(v).1 <= 0,
        v.2 >= 0 ==> unit(v).2 >= 0,
        v.2 <= 0 ==> unit(v).2 <= 0,
{
    let w = stretched(v);
    lemma_stretched_is_long(v);
    let len = root_up(norm_squared(w));
    lemma_root_up(norm_squared(w));
    lemma_quotient_length(w, len);
    lemma_quotient_parts(w.0, len);
    lemma_quotient_parts(w.1, len);
    lemma_quotient_parts(w.2, len);
}

/// The unit vector along the opposite of a vector is the opposite of its
/// unit vector.
pub proof fn lemma_unit_of_opposite(v: (int, int, int))
    ensures
        unit((-v.0, -v.1, -v.2)) == (-unit(v).0, -unit(v).1, -unit(v).2),
{
    let o = (-v.0, -v.1, -v.2);
    let w = stretched(v);
    let wo = stretched(o);
    assert(is_short(o) == is_short(v));
    assert(wo == (-w.0, -w.1, -w.2));
    lemma_square_of_magnitude(w.0);
    lemma_square_of_magnitude(w.1);
    lemma_square_of_magnitude(w.2);
    lemma_square_of_magnitude(wo.0);
    lemma_square_of_magnitude(wo.1);
    lemma_square_of_magnitude(wo.2);
    assert(norm_squared(wo) == norm_squared(w));
    if norm_squared(w) != 0 {
        let len = root_up(norm_squared(w));
        lemma_root_up(norm_squared(w));
        lemma_opposite_quotient(w.0, len);
        lemma_opposite_quotient(w.1, len);
        lemma_opposite_quotient(w.2, len);
    }
}

/// The quotient of the opposite is the opposite of the quotient.
proof fn lemma_opposite_quotient(c: int, len: int)
    requires
        len > 0,
    ensures
        trunc_div((-c) * UNIT_ONE, len) == -trunc_div(c * UNIT_ONE, len),
{
    assert((-c) * UNIT_ONE == -(c * UNIT_ONE)) by (nonlinear_arith);
    if c * UNIT_ONE == 0 {
        assert(0int / len == 0) by (nonlinear_arith)
            requires
                len > 0,
        ;
    }
}

/// No component of a face normal exceeds the unit length.
pub proof fn lemma_face_normal_bound(a: Point3, b: Point3, c: Point3)
    ensures
        ({
            let f = face_normal(a, b, c);
            &&& -UNIT_ONE <= f.0 <= UNIT_ONE
            &&& -UNIT_ONE <= f.1 <= UNIT_ONE
            &&& -UNIT_ONE <= f.2 <= UNIT_ONE
        }),
{
    lemma_unit_bound(cross(edge(a, b), edge(a, c)));
}

/// No component of a unit vector exceeds the unit length.
pub proof fn lemma_unit_bound(v: (int, int, int))
    ensures
        ({
            let f = unit(v);
            &&& -UNIT_ONE <= f.0 <= UNIT_ONE
            &&& -UNIT_ONE <= f.1 <= UNIT_ONE
            &&& -UNIT_ONE <= f.2 <= UNIT_ONE
        }),
{
    let f = unit(v);
    lemma_square_of_magnitude(v.0);
    lemma_square_of_magnitude(v.1);
    lemma_square_of_magnitude(v.2);
    if v != (0int, 0int, 0int) {
        lemma_unit_length(v);
        lemma_square_of_magnitude(f.0);
        lemma_square_of_magnitude(f.1);
        lemma_square_of_magnitude(f.2);
        lemma_below_by_squares(magnitude(f.0), 1_000_000);
        lemma_below_by_squares(magnitude(f.1), 1_000_000);
        lemma_below_by_squares(magnitude(f.2), 1_000_000);
    } else {
        assert(norm_squared(stretched(v)) == 0) by (nonlinear_arith)
            requires
                stretched(v) == (0int, 0int, 0int),
        ;
    }
}

} // verus!
