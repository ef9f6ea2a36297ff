use vstd::prelude::*;

pub mod utils;

verus! {

/// True when the mathematical integer `v` fits in an `i32`.
pub open spec fn fits_i32(v: int) -> bool {
    i32::MIN <= v <= i32::MAX
}

/// The sign of an integer: -1, 0 or 1.
pub open spec fn signum(v: int) -> int {
    if v > 0 {
        1
    } else if v < 0 {
        -1
    } else {
        0
    }
}

/// Division rounding towards zero, as Rust's `/` on integers does.
pub open spec fn trunc_div(a: int, b: int) -> int {
    if (a >= 0) == (b > 0) || a == 0 {
        abs(a) / abs(b)
    } else {
        -(abs(a) / abs(b))
    }
}

/// Absolute value of a mathematical integer.
pub open spec fn abs(v: int) -> int {
    if v < 0 {
        -v
    } else {
        v
    }
}

/// A position or an offset on the three dimensional tile grid.
///
/// `x` grows to the east, `y` grows to the south and `z` grows upwards.
#[derive(Clone, Copy, Debug, PartialEq, Eq, Structural, Hash, PartialOrd, Ord)]
pub struct Vector3i {
    pub x: i32,
    pub y: i32,
    pub z: i32,
}

impl Vector3i {
    /// The vector with the given components, as a spec value.
    pub open spec fn of(x: int, y: int, z: int) -> Vector3i {
        Vector3i { x: x as i32, y: y as i32, z: z as i32 }
    }

    /// Component-wise sum, in mathematical integers.
    pub open spec fn add_in_range(self, other: Vector3i) -> bool {
        &&& fits_i32(self.x + other.x)
        &&& fits_i32(self.y + other.y)
        &&& fits_i32(self.z + other.z)
    }

    pub open spec fn plus(self, other: Vector3i) -> Vector3i {
        Vector3i::of(self.x + other.x, self.y + other.y, self.z + other.z)
    }

    pub open spec fn sub_in_range(self, other: Vector3i) -> bool {
        &&& fits_i32(self.x - other.x)
        &&& fits_i32(self.y - other.y)
        &&& fits_i32(self.z - other.z)
    }

    pub open spec fn minus(self, other: Vector3i) -> Vector3i {
        Vector3i::of(self.x - other.x, self.y - other.y, self.z - other.z)
    }

    pub open spec fn scale_in_range(self, factor: int) -> bool {
        &&& fits_i32(self.x * factor)
        &&& fits_i32(self.y * factor)
        &&& fits_i32(self.z * factor)
    }

    pub open spec fn scaled(self, factor: int) -> Vector3i {
        Vector3i::of(self.x * factor, self.y * factor, self.z * factor)
    }

    pub open spec fn mul_in_range(self, other: Vector3i) -> bool {
        &&& fits_i32(self.x * other.x)
        &&& fits_i32(self.y * other.y)
        &&& fits_i32(self.z * other.z)
    }

    pub open spec fn times(self, other: Vector3i) -> Vector3i {
        Vector3i::of(self.x * other.x, self.y * other.y, self.z * other.z)
    }

    /// Sum of the absolute component differences.
    pub open spec fn manhattan_spec(self, other: Vector3i) -> int {
        abs(self.x - other.x) + abs(self.y - other.y) + abs(self.z - other.z)
    }

    /// Squared euclidean distance.
    pub open spec fn distance_squared(self, other: Vector3i) -> int {
        (self.x - other.x) * (self.x - other.x) + (self.y - other.y) * (self.y - other.y) + (
        self.z - other.z) * (self.z - other.z)
    }

    /// `k` is the square root of `d2` rounded to the nearest integer:
    /// `(k - 1/2)^2 <= d2 < (k + 1/2)^2`.
    pub open spec fn is_rounded_root(d2: int, k: int) -> bool {
        &&& k >= 0
        &&& d2 <= k * k + k
        &&& k == 0 || k * k - k < d2
    }

    pub open spec fn normalized(self) -> Vector3i {
        Vector3i::of(signum(self.x as int), signum(self.y as int), signum(self.z as int))
    }

    pub fn new(x: i32, y: i32, z: i32) -> (v: Vector3i)
        ensures
            v.x == x,
            v.y == y,
            v.z == z,
    {
        Vector3i { x, y, z }
    }

    /// A vector with all three components equal to `size`.
    pub fn new_equi(size: i32) -> (v: Vector3i)
        ensures
            v.x == size,
            v.y == size,
            v.z == size,
    {
        Vector3i { x: size, y: size, z: size }
    }

    /// One level up.
    pub fn up() -> (v: Vector3i)
        ensures
            v == Vector3i::of(0, 0, 1),
    {
        Vector3i { x: 0, y: 0, z: 1 }
    }

    /// One level down.
    pub fn down() -> (v: Vector3i)
        ensures
            v == Vector3i::of(0, 0, -1),
    {
        Vector3i { x: 0, y: 0, z: -1 }
    }

    pub fn top() -> (v: Vector3i)
        ensures
            v == Vector3i::of(0, 1, 0),
    {
        Vector3i { x: 0, y: 1, z: 0 }
    }

    pub fn bottom() -> (v: Vector3i)
        ensures
            v == Vector3i::of(0, -1, 0),
    {
        Vector3i { x: 0, y: -1, z: 0 }
    }

    pub fn left() -> (v: Vector3i)
        ensures
            v == Vector3i::of(-1, 0, 0),
    {
        Vector3i { x: -1, y: 0, z: 0 }
    }

    pub fn right() -> (v: Vector3i)
        ensures
            v == Vector3i::of(1, 0, 0),
    {
        Vector3i { x: 1, y: 0, z: 0 }
    }

    pub fn north() -> (v: Vector3i)
        ensures
            v == Vector3i::of(0, -1, 0),
    {
        Vector3i { x: 0, y: -1, z: 0 }
    }

    pub fn north_east() -> (v: Vector3i)
        ensures
            v == Vector3i::of(1, -1, 0),
    {
        Vector3i { x: 1, y: -1, z: 0 }
    }

    pub fn east() -> (v: Vector3i)
        ensures
            v == Vector3i::of(1, 0, 0),
    {
        Vector3i { x: 1, y: 0, z: 0 }
    }

    pub fn south_east() -> (v: Vector3i)
        ensures
            v == Vector3i::of(1, 1, 0),
    {
        Vector3i { x: 1, y: 1, z: 0 }
    }

    pub fn south() -> (v: Vector3i)
        ensures
            v == Vector3i::of(0, 1, 0),
    {
        Vector3i { x: 0, y: 1, z: 0 }
    }

    pub fn south_west() -> (v: Vector3i)
        ensures
            v == Vector3i::of(-1, 1, 0),
    {
        Vector3i { x: -1, y: 1, z: 0 }
    }

    pub fn west() -> (v: Vector3i)
        ensures
            v == Vector3i::of(-1, 0, 0),
    {
        Vector3i { x: -1, y: 0, z: 0 }
    }

    pub fn north_west() -> (v: Vector3i)
        ensures
            v == Vector3i::of(-1, -1, 0),
    {
        Vector3i { x: -1, y: -1, z: 0 }
    }

    /// Manhattan distance between two positions.
    pub fn manhattan(&self, other: Vector3i) -> (d: i32)
        requires
            self.sub_in_range(other),
            fits_i32(self.manhattan_spec(other)),
        ensures
            d == self.manhattan_spec(other),
    {
        let dx = self.x - other.x;
        let dy = self.y - other.y;
        let dz = self.z - other.z;
        let ax = if dx < 0 { -dx } else { dx };
        let ay = if dy < 0 { -dy } else { dy };
        let az = if dz < 0 { -dz } else { dz };
        ax + ay + az
    }

    /// Component-wise sum.
    pub fn add(self, other: Vector3i) -> (v: Vector3i)
        requires
            self.add_in_range(other),
        ensures
            v == self.plus(other),
            v.x == self.x + other.x,
            v.y == self.y + other.y,
            v.z == self.z + other.z,
    {
        Vector3i { x: self.x + other.x, y: self.y + other.y, z: self.z + other.z }
    }

    /// Adds `other` in place.
    pub fn add_assign(&mut self, other: Vector3i)
        requires
            old(self).add_in_range(other),
        ensures
            *final(self) == old(self).plus(other),
    {
        *self = Vector3i { x: self.x + other.x, y: self.y + other.y, z: self.z + other.z };
    }

    /// Component-wise difference.
    pub fn sub(self, other: Vector3i) -> (v: Vector3i)
        requires
            self.sub_in_range(other),
        ensures
            v == self.minus(other),
            v.x == self.x - other.x,
            v.y == self.y - other.y,
            v.z == self.z - other.z,
    {
        Vector3i { x: self.x - other.x, y: self.y - other.y, z: self.z - other.z }
    }

    /// Subtracts `other` in place.
    pub fn sub_assign(&mut self, other: Vector3i)
        requires
            old(self).sub_in_range(other),
        ensures
            *final(self) == old(self).minus(other),
    {
        *self = Vector3i { x: self.x - other.x, y: self.y - other.y, z: self.z - other.z };
    }

    /// Component-wise division, rounding towards zero as Rust's `/` does.
    pub fn div(self, other: i32) -> (v: Vector3i)
        requires
            other != 0,
            other == -1 ==> self.x != i32::MIN && self.y != i32::MIN && self.z != i32::MIN,
        ensures
            v.x == trunc_div(self.x as int, other as int),
            v.y == trunc_div(self.y as int, other as int),
            v.z == trunc_div(self.z as int, other as int),
    {
        Vector3i {
            x: div_toward_zero(self.x, other),
            y: div_toward_zero(self.y, other),
            z: div_toward_zero(self.z, other),
        }
    }

    /// Every component multiplied by `factor`.
    pub fn mul(self, factor: i32) -> (v: Vector3i)
        requires
            self.scale_in_range(factor as int),
        ensures
            v == self.scaled(factor as int),
    {
        Vector3i { x: self.x * factor, y: self.y * factor, z: self.z * factor }
    }

    /// Component-wise product of two vectors.
    pub fn mul_components(self, other: Vector3i) -> (v: Vector3i)
        requires
            self.mul_in_range(other),
        ensures
            v == self.times(other),
    {
        Vector3i { x: self.x * other.x, y: self.y * other.y, z: self.z * other.z }
    }

    /// Each component replaced by its sign, giving the unit step towards the vector.
    pub fn normalize_delta(self) -> (v: Vector3i)
        ensures
            v == self.normalized(),
    {
        let sx: i32 = if self.x > 0 { 1 } else if self.x < 0 { -1 } else { 0 };
        let sy: i32 = if self.y > 0 { 1 } else if self.y < 0 { -1 } else { 0 };
        let sz: i32 = if self.z > 0 { 1 } else if self.z < 0 { -1 } else { 0 };
        Vector3i { x: sx, y: sy, z: sz }
    }

    /// The euclidean distance to `other`, rounded to the nearest whole number, for
    /// points whose squared distance fits an `i32`.
    pub fn distance_to(&self, other: Vector3i) -> (d: i32)
        requires
            self.distance_squared(other) <= i32::MAX,
        ensures
            Vector3i::is_rounded_root(self.distance_squared(other), d as int),
    {
        let d = self.distance_to_int(other);
        proof {
            let d2 = self.distance_squared(other);
            if d >= 0x1_0000 {
                assert(d * d - d >= 0x1_0000 * 0x1_0000 - 0x1_0000) by (nonlinear_arith)
                    requires
                        d >= 0x1_0000,
                ;
            }
        }
        d as i32
    }

    /// The euclidean distance to `other`, rounded to the nearest whole number.
    pub fn distance_to_int(&self, other: Vector3i) -> (d: i64)
        ensures
            Vector3i::is_rounded_root(self.distance_squared(other), d as int),
            0 <= d < 0x4_0000_0000,
    {
        let dx = (self.x as i64 - other.x as i64);
        let dy = (self.y as i64 - other.y as i64);
        let dz = (self.z as i64 - other.z as i64);
        let ax = (if dx < 0 { -dx } else { dx }) as u128;
        let ay = (if dy < 0 { -dy } else { dy }) as u128;
        let az = (if dz < 0 { -dz } else { dz }) as u128;
        proof {
            assert(ax * ax <= 0x1_0000_0000 * 0x1_0000_0000) by (nonlinear_arith)
                requires
                    ax <= 0x1_0000_0000,
            ;
            assert(ay * ay <= 0x1_0000_0000 * 0x1_0000_0000) by (nonlinear_arith)
                requires
                    ay <= 0x1_0000_0000,
            ;
            assert(az * az <= 0x1_0000_0000 * 0x1_0000_0000) by (nonlinear_arith)
                requires
                    az <= 0x1_0000_0000,
            ;
            assert(ax * ax == (self.x - other.x) * (self.x - other.x)) by (nonlinear_arith)
                requires
                    ax == abs(self.x - other.x),
            ;
            assert(ay * ay == (self.y - other.y) * (self.y - other.y)) by (nonlinear_arith)
                requires
                    ay == abs(self.y - other.y),
            ;
            assert(az * az == (self.z - other.z) * (self.z - other.z)) by (nonlinear_arith)
                requires
                    az == abs(self.z - other.z),
            ;
        }
        let d2: u128 = ax * ax + ay * ay + az * az;
        let mut lo: u128 = 0;
        let mut hi: u128 = 0x4_0000_0000;
        assert(d2 < hi * hi);
        while hi - lo > 1
            invariant
                lo < hi <= 0x4_0000_0000,
                lo * lo <= d2,
                d2 < hi * hi,
            decreases hi - lo,
        {
            let mid = lo + (hi - lo) / 2;
            proof {
                assert(mid * mid <= 0x4_0000_0000 * 0x4_0000_0000) by (nonlinear_arith)
                    requires
                        mid <= 0x4_0000_0000,
                ;
            }
            if mid * mid <= d2 {
                lo = mid;
            } else {
                hi = mid;
            }
        }
        let k = lo;
        assert(hi == k + 1);
        proof {
            assert((k + 1) * (k + 1) == k * k + 2 * k + 1) by (nonlinear_arith);
        }
        if d2 - k * k > k {
            proof {
                assert((k + 1) * (k + 1) + (k + 1) == k * k + 3 * k + 2) by (nonlinear_arith);
                assert((k + 1) * (k + 1) - (k + 1) == k * k + k) by (nonlinear_arith);
            }
            (k + 1) as i64
        } else {
            proof {
                if k > 0 {
                    assert(k * k - k < k * k);
                }
            }
            k as i64
        }
    }

    /// Component-wise equality, which is `==` on vectors.
    pub fn eq(&self, other: &Vector3i) -> (b: bool)
        ensures
            b == (*self == *other),
    {
        self.x == other.x && self.y == other.y && self.z == other.z
    }

    /// The text `{x, y, z}`.
    pub fn to_string(&self) -> (s: String)
        ensures
            s@ == vector_text(*self),
    {
        format_vector(self.x, self.y, self.z)
    }
}

/// Adding a vector and taking it away again gives back where one started.
pub proof fn lemma_add_sub_undo(a: Vector3i, b: Vector3i)
    requires
        a.add_in_range(b),
    ensures
        a.plus(b).sub_in_range(b),
        a.plus(b).minus(b) == a,
{
}

/// Distances do not depend on the direction they are measured in: the Manhattan and
/// squared distances from `a` to `b` equal those from `b` to `a`, and the rounded
/// euclidean distance is one number either way.
pub proof fn lemma_distance_symmetric(a: Vector3i, b: Vector3i, k1: int, k2: int)
    requires
        Vector3i::is_rounded_root(a.distance_squared(b), k1),
        Vector3i::is_rounded_root(b.distance_squared(a), k2),
    ensures
        a.manhattan_spec(b) == b.manhattan_spec(a),
        a.distance_squared(b) == b.distance_squared(a),
        k1 == k2,
{
    let (dx, dy, dz) = (a.x - b.x, a.y - b.y, a.z - b.z);
    assert(dx * dx == (-dx) * (-dx) && dy * dy == (-dy) * (-dy) && dz * dz == (-dz) * (-dz)) by (nonlinear_arith);
    let d2 = a.distance_squared(b);
    if k1 < k2 {
        assert(k2 * k2 - k2 >= k1 * k1 + k1) by (nonlinear_arith)
            requires
                0 <= k1 < k2,
        ;
    }
    if k2 < k1 {
        assert(k1 * k1 - k1 >= k2 * k2 + k2) by (nonlinear_arith)
            requires
                0 <= k2 < k1,
        ;
    }
}

/// Taking the unit step of a unit step changes nothing.
pub proof fn lemma_normalized_idempotent(v: Vector3i)
    ensures
        v.normalized().normalized() == v.normalized(),
{
}

/// Rust's integer division on `i32`.
fn div_toward_zero(a: i32, b: i32) -> (q: i32)
    requires
        b != 0,
        !(a == i32::MIN && b == -1),
    ensures
        q == trunc_div(a as int, b as int),
{
    if b > 0 {
        let q = a / b;
        proof {
            if a >= 0 {
                assert(q == (a as int) / (b as int));
            } else {
                assert(q == -((-(a as int)) / (b as int)));
            }
        }
        q
    } else if b == i32::MIN {
        if a == i32::MIN {
            1
        } else {
            assert(abs(a as int) < 0x8000_0000);
            proof {
                assert(abs(b as int) == 0x8000_0000);
                vstd::arithmetic::div_mod::lemma_basic_div(abs(a as int), 0x8000_0000);
            }
            0
        }
    } else {
        let nb = -b;
        let t = a / nb;
        proof {
            if a >= 0 {
                assert(t == (a as int) / (nb as int));
            } else {
                assert(t == -((-(a as int)) / (nb as int)));
                assert((-(a as int)) / (nb as int) <= -(a as int)) by (nonlinear_arith)
                    requires
                        -(a as int) > 0,
                        nb > 0,
                ;
                if nb == 1 {
                    assert(a != i32::MIN);
                } else {
                    assert((-(a as int)) / (nb as int) < -(a as int)) by (nonlinear_arith)
                        requires
                            -(a as int) > 0,
                            nb > 1,
                    ;
                }
            }
        }
        -t
    }
}

/// The decimal digit `d` as a character.
pub open spec fn decimal_digit(d: int) -> char {
    (48 + d) as char
}

/// The decimal digits of `n`, most significant first, without leading zeros.
pub open spec fn decimal_digits(n: nat) -> Seq<char>
    decreases n,
{
    if n < 10 {
        seq![decimal_digit(n as int)]
    } else {
        decimal_digits(n / 10).push(decimal_digit((n % 10) as int))
    }
}

/// How `std` writes an integer with `{}`: its decimal digits, after a minus sign when
/// it is negative.
pub open spec fn int_text(i: int) -> Seq<char> {
    if i < 0 {
        seq!['-'] + decimal_digits((-i) as nat)
    } else {
        decimal_digits(i as nat)
    }
}

/// What `std` writes for `{x, y, z}` with each component written by `{}`.
pub open spec fn vector_text(v: Vector3i) -> Seq<char> {
    seq!['{'] + int_text(v.x as int) + seq![',', ' '] + int_text(v.y as int) + seq![',', ' '] + int_text(
        v.z as int,
    ) + seq!['}']
}

/// Formats the three components as `{x, y, z}` through `std::format!`.
#[verifier::external_body]
fn format_vector(x: i32, y: i32, z: i32) -> (s: String)
    ensures
        s@ == vector_text(Vector3i { x, y, z }),
{
    format!("{{{}, {}, {}}}", x, y, z)
}

} // verus!
