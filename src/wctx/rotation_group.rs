//! Discrete orientation groups (faces, vertices and edges of the unit cube)
//! and the exact rotations that map one member of a group onto another.
//!
//! Rotations are kept exactly: a rotation is an integer matrix over a positive
//! integer denominator. The shortest-arc rotation between two of the canonical
//! vectors (whose components are -1, 0 or 1) always has rational entries, so no
//! rounding ever enters the obstruction logic.
use vstd::prelude::*;

verus! {

/// A vector in the integer lattice.
#[derive(Clone, Copy, Debug, PartialEq, Eq, Structural)]
pub struct IVec3 {
    pub x: i64,
    pub y: i64,
    pub z: i64,
}

/// A vector of mathematical integers.
pub type V3 = (int, int, int);

impl View for IVec3 {
    type V = V3;

    open spec fn view(&self) -> V3 {
        (self.x as int, self.y as int, self.z as int)
    }
}

pub open spec fn dot(a: V3, b: V3) -> int {
    a.0 * b.0 + a.1 * b.1 + a.2 * b.2
}

pub open spec fn cross(a: V3, b: V3) -> V3 {
    (a.1 * b.2 - a.2 * b.1, a.2 * b.0 - a.0 * b.2, a.0 * b.1 - a.1 * b.0)
}

pub open spec fn neg(a: V3) -> V3 {
    (-a.0, -a.1, -a.2)
}

/// `v` points the same way as `c`: it is a positive multiple of `c`, which is
/// the same as saying that both normalise to the same unit vector.
pub open spec fn same_direction(v: V3, c: V3) -> bool {
    cross(v, c) == (0int, 0int, 0int) && dot(v, c) > 0
}

/// Every component lies in -1..=1.
pub open spec fn is_unit_box(v: V3) -> bool {
    -1 <= v.0 <= 1 && -1 <= v.1 <= 1 && -1 <= v.2 <= 1
}

/// Every component has magnitude at most `b`.
pub open spec fn bounded_by(v: V3, b: int) -> bool {
    -b <= v.0 <= b && -b <= v.1 <= b && -b <= v.2 <= b
}

/// Upper bound on the magnitude of a rotation's entries and denominator.
pub const ROT_BOUND: i64 = 64;

/// Upper bound on the components of a vector that a rotation may be applied to.
pub const VEC_BOUND: i64 = 0x100_0000_0000;

/// The rotation `(1 / den) * [row_x; row_y; row_z]`.
#[derive(Clone, Copy, Debug, PartialEq, Eq, Structural)]
pub struct Rotation {
    pub row_x: IVec3,
    pub row_y: IVec3,
    pub row_z: IVec3,
    pub den: i64,
}

impl Rotation {
    /// Entries and denominator are small, the denominator positive.
    pub open spec fn wf(&self) -> bool {
        0 < self.den <= ROT_BOUND
            && bounded_by(self.row_x@, ROT_BOUND as int)
            && bounded_by(self.row_y@, ROT_BOUND as int)
            && bounded_by(self.row_z@, ROT_BOUND as int)
    }

    /// `den` times the rotated vector.
    pub open spec fn apply_spec(&self, v: V3) -> V3 {
        (dot(self.row_x@, v), dot(self.row_y@, v), dot(self.row_z@, v))
    }

    /// `den` times the vector rotated by the inverse (transposed) rotation.
    pub open spec fn apply_inverse_spec(&self, v: V3) -> V3 {
        (
            self.row_x.x * v.0 + self.row_y.x * v.1 + self.row_z.x * v.2,
            self.row_x.y * v.0 + self.row_y.y * v.1 + self.row_z.y * v.2,
            self.row_x.z * v.0 + self.row_y.z * v.1 + self.row_z.z * v.2,
        )
    }

    pub open spec fn identity_spec() -> Rotation {
        Rotation {
            row_x: IVec3 { x: 1, y: 0, z: 0 },
            row_y: IVec3 { x: 0, y: 1, z: 0 },
            row_z: IVec3 { x: 0, y: 0, z: 1 },
            den: 1,
        }
    }

    /// The identity rotation.
    pub fn identity() -> (r: Rotation)
        ensures
            r == Rotation::identity_spec(),
            r.wf(),
    {
        Rotation {
            row_x: IVec3 { x: 1, y: 0, z: 0 },
            row_y: IVec3 { x: 0, y: 1, z: 0 },
            row_z: IVec3 { x: 0, y: 0, z: 1 },
            den: 1,
        }
    }

    /// `den` times the rotated vector.
    pub fn apply(&self, v: IVec3) -> (r: IVec3)
        requires
            self.wf(),
            bounded_by(v@, VEC_BOUND as int),
        ensures
            r@ == self.apply_spec(v@),
    {
        proof {
            lemma_dot_bounded(self.row_x@, v@);
            lemma_dot_bounded(self.row_y@, v@);
            lemma_dot_bounded(self.row_z@, v@);
        }
        IVec3 {
            x: dot_exec(self.row_x, v),
            y: dot_exec(self.row_y, v),
            z: dot_exec(self.row_z, v),
        }
    }

    /// `den` times the vector rotated by the inverse rotation.
    pub fn apply_inverse(&self, v: IVec3) -> (r: IVec3)
        requires
            self.wf(),
            bounded_by(v@, VEC_BOUND as int),
        ensures
            r@ == self.apply_inverse_spec(v@),
    {
        let col_x = IVec3 { x: self.row_x.x, y: self.row_y.x, z: self.row_z.x };
        let col_y = IVec3 { x: self.row_x.y, y: self.row_y.y, z: self.row_z.y };
        let col_z = IVec3 { x: self.row_x.z, y: self.row_y.z, z: self.row_z.z };
        proof {
            lemma_dot_bounded(col_x@, v@);
            lemma_dot_bounded(col_y@, v@);
            lemma_dot_bounded(col_z@, v@);
        }
        IVec3 { x: dot_exec(col_x, v), y: dot_exec(col_y, v), z: dot_exec(col_z, v) }
    }
}

/// The identity rotation and its inverse leave every vector as it is.
pub proof fn lemma_identity_apply(v: V3)
    ensures
        Rotation::identity_spec().apply_spec(v) == v,
        Rotation::identity_spec().apply_inverse_spec(v) == v,
{
    let (v0, v1, v2) = v;
    assert(1 * v0 + 0 * v1 + 0 * v2 == v0 && 0 * v0 + 1 * v1 + 0 * v2 == v1 && 0 * v0 + 0 * v1 + 1
        * v2 == v2) by (nonlinear_arith);
}

proof fn lemma_dot_bounded(a: V3, v: V3)
    requires
        bounded_by(a, ROT_BOUND as int),
        bounded_by(v, VEC_BOUND as int),
    ensures
        -3 * ROT_BOUND * VEC_BOUND <= dot(a, v) <= 3 * ROT_BOUND * VEC_BOUND,
        -ROT_BOUND * VEC_BOUND <= a.0 * v.0 <= ROT_BOUND * VEC_BOUND,
        -ROT_BOUND * VEC_BOUND <= a.1 * v.1 <= ROT_BOUND * VEC_BOUND,
        -ROT_BOUND * VEC_BOUND <= a.2 * v.2 <= ROT_BOUND * VEC_BOUND,
{
    let rb = ROT_BOUND as int;
    let vb = VEC_BOUND as int;
    assert(-rb * vb <= a.0 * v.0 <= rb * vb) by (nonlinear_arith)
        requires -rb <= a.0 <= rb, -vb <= v.0 <= vb, rb >= 0, vb >= 0;
    assert(-rb * vb <= a.1 * v.1 <= rb * vb) by (nonlinear_arith)
        requires -rb <= a.1 <= rb, -vb <= v.1 <= vb, rb >= 0, vb >= 0;
    assert(-rb * vb <= a.2 * v.2 <= rb * vb) by (nonlinear_arith)
        requires -rb <= a.2 <= rb, -vb <= v.2 <= vb, rb >= 0, vb >= 0;
}

fn dot_exec(a: IVec3, v: IVec3) -> (r: i64)
    requires
        bounded_by(a@, ROT_BOUND as int),
        bounded_by(v@, VEC_BOUND as int),
    ensures
        r == dot(a@, v@),
{
    proof {
        lemma_dot_bounded(a@, v@);
    }
    a.x * v.x + a.y * v.y + a.z * v.z
}

// ---------------------------------------------------------------------------
// Shortest-arc rotations
// ---------------------------------------------------------------------------

/// The axis of a half turn that takes `a` to `-a`: `x × a`, or `y × a` when
/// `a` lies on the x axis.
pub open spec fn half_turn_axis(a: V3) -> V3 {
    if cross((1, 0, 0), a) != (0int, 0int, 0int) {
        cross((1, 0, 0), a)
    } else {
        cross((0, 1, 0), a)
    }
}

pub open spec fn comp(v: V3, i: int) -> int {
    if i == 0 {
        v.0
    } else if i == 1 {
        v.1
    } else {
        v.2
    }
}

/// Entry `(i, j)` of the cross-product matrix of `w`.
pub open spec fn skew(w: V3, i: int, j: int) -> int {
    if i == 0 && j == 1 {
        -w.2
    } else if i == 0 && j == 2 {
        w.1
    } else if i == 1 && j == 0 {
        w.2
    } else if i == 1 && j == 2 {
        -w.0
    } else if i == 2 && j == 0 {
        -w.1
    } else if i == 2 && j == 1 {
        w.0
    } else {
        0
    }
}

/// Denominator of the shortest-arc rotation from `a` to `b` (of equal length).
pub open spec fn arc_den(a: V3, b: V3) -> int {
    if dot(a, b) == -dot(a, a) {
        dot(half_turn_axis(a), half_turn_axis(a))
    } else {
        dot(a, a) * (dot(a, a) + dot(a, b))
    }
}

/// Numerator entry `(i, j)` of the shortest-arc rotation from `a` to `b`.
///
/// With `n = a·a`, `c = a·b`, `w = a × b`, Rodrigues' formula gives the rotation
/// `(c (n + c) I + (n + c) [w]× + w wᵀ) / (n (n + c))`. When `b = -a` the arc is
/// a half turn about `k = half_turn_axis(a)`: `(2 k kᵀ - (k·k) I) / (k·k)`.
pub open spec fn arc_entry(a: V3, b: V3, i: int, j: int) -> int {
    let n = dot(a, a);
    let c = dot(a, b);
    if c == -n {
        let k = half_turn_axis(a);
        if i == j {
            2 * comp(k, i) * comp(k, j) - dot(k, k)
        } else {
            2 * comp(k, i) * comp(k, j)
        }
    } else {
        let w = cross(a, b);
        (if i == j {
            c * (n + c)
        } else {
            0
        }) + (n + c) * skew(w, i, j) + comp(w, i) * comp(w, j)
    }
}

/// The rotation of least angle that takes the direction of `a` to that of `b`.
pub open spec fn arc_spec(a: V3, b: V3) -> Rotation {
    Rotation {
        row_x: IVec3 {
            x: arc_entry(a, b, 0, 0) as i64,
            y: arc_entry(a, b, 0, 1) as i64,
            z: arc_entry(a, b, 0, 2) as i64,
        },
        row_y: IVec3 {
            x: arc_entry(a, b, 1, 0) as i64,
            y: arc_entry(a, b, 1, 1) as i64,
            z: arc_entry(a, b, 1, 2) as i64,
        },
        row_z: IVec3 {
            x: arc_entry(a, b, 2, 0) as i64,
            y: arc_entry(a, b, 2, 1) as i64,
            z: arc_entry(a, b, 2, 2) as i64,
        },
        den: arc_den(a, b) as i64,
    }
}

/// The inputs of an arc: nonzero vectors of equal length in the unit box.
pub open spec fn arc_inputs_ok(a: V3, b: V3) -> bool {
    is_unit_box(a) && is_unit_box(b) && a != (0int, 0int, 0int) && dot(a, a) == dot(b, b)
}

proof fn lemma_unit_box_products(a: V3, b: V3)
    requires
        is_unit_box(a),
        is_unit_box(b),
    ensures
        -1 <= a.0 * b.0 <= 1,
        -1 <= a.1 * b.1 <= 1,
        -1 <= a.2 * b.2 <= 1,
        -1 <= a.0 * b.1 <= 1,
        -1 <= a.0 * b.2 <= 1,
        -1 <= a.1 * b.0 <= 1,
        -1 <= a.1 * b.2 <= 1,
        -1 <= a.2 * b.0 <= 1,
        -1 <= a.2 * b.1 <= 1,
{
    lemma_unit_product(a.0, b.0);
    lemma_unit_product(a.1, b.1);
    lemma_unit_product(a.2, b.2);
    lemma_unit_product(a.0, b.1);
    lemma_unit_product(a.0, b.2);
    lemma_unit_product(a.1, b.0);
    lemma_unit_product(a.1, b.2);
    lemma_unit_product(a.2, b.0);
    lemma_unit_product(a.2, b.1);
}

/// The squared length of a vector in the unit box counts its nonzero components.
proof fn lemma_unit_norm(v: V3)
    requires
        is_unit_box(v),
    ensures
        0 <= dot(v, v) <= 3,
        v != (0int, 0int, 0int) ==> 1 <= dot(v, v),
        dot(v, v) == (if v.0 != 0 { 1int } else { 0 }) + (if v.1 != 0 { 1int } else { 0 }) + (
        if v.2 != 0 { 1int } else { 0 }),
{
    lemma_unit_square(v.0);
    lemma_unit_square(v.1);
    lemma_unit_square(v.2);
}

proof fn lemma_unit_square(p: int)
    requires
        -1 <= p <= 1,
    ensures
        p == 0 ==> p * p == 0,
        p != 0 ==> p * p == 1,
{
    assert(p == 0 || p == 1 || p == -1);
}

proof fn lemma_unit_product(p: int, q: int)
    requires
        -1 <= p <= 1,
        -1 <= q <= 1,
    ensures
        -1 <= p * q <= 1,
{
    assert(-1 <= p * q <= 1) by (nonlinear_arith)
        requires -1 <= p <= 1, -1 <= q <= 1;
}

proof fn lemma_arc_bounds(a: V3, b: V3, i: int, j: int)
    requires
        arc_inputs_ok(a, b),
        0 <= i < 3,
        0 <= j < 3,
    ensures
        -ROT_BOUND <= arc_entry(a, b, i, j) <= ROT_BOUND,
        0 < arc_den(a, b) <= ROT_BOUND,
{
    lemma_unit_box_products(a, b);
    lemma_unit_box_products(a, a);
    let n = dot(a, a);
    let c = dot(a, b);
    let w = cross(a, b);
    lemma_unit_norm(a);
    assert(1 <= n <= 3);
    assert(-3 <= c <= 3);
    lemma_unit_box_products((1, 0, 0), a);
    lemma_unit_box_products((0, 1, 0), a);
    let k = half_turn_axis(a);
    assert(bounded_by(w, 2));
    assert(bounded_by(k, 1));
    lemma_unit_norm(k);
    let wi = comp(w, i);
    let wj = comp(w, j);
    let ki = comp(k, i);
    let kj = comp(k, j);
    assert(-2 <= wi <= 2 && -2 <= wj <= 2);
    assert(-1 <= ki <= 1 && -1 <= kj <= 1);
    assert(-4 <= wi * wj <= 4) by (nonlinear_arith)
        requires -2 <= wi <= 2, -2 <= wj <= 2;
    assert(-1 <= ki * kj <= 1) by (nonlinear_arith)
        requires -1 <= ki <= 1, -1 <= kj <= 1;
    assert(-2 <= skew(w, i, j) <= 2);
    let s = skew(w, i, j);
    assert(-18 <= c * (n + c) <= 18) by (nonlinear_arith)
        requires -3 <= c <= 3, 1 <= n <= 3;
    assert(-12 <= (n + c) * s <= 12) by (nonlinear_arith)
        requires -3 <= c <= 3, 1 <= n <= 3, -2 <= s <= 2;
    assert(0 <= dot(k, k) <= 3);
    assert(2 * ki * kj == 2 * (ki * kj)) by (nonlinear_arith);
    if c == -n {
        // `a` is not on the x axis or not on the y axis, so the axis is nonzero.
        assert(dot(k, k) > 0);
    } else {
        // Cauchy-Schwarz in the unit box: |c| <= n, so n + c > 0 here.
        assert(c <= n && -n <= c) by {
            assert(dot(a, a) == dot(b, b));
            lemma_cauchy_unit_box(a, b);
        }
        assert(0 < n * (n + c) <= 18) by (nonlinear_arith)
            requires 1 <= n <= 3, -n < c <= n;
    }
}

/// `|a·b| <= a·a` for vectors of equal length in the unit box.
proof fn lemma_cauchy_unit_box(a: V3, b: V3)
    requires
        is_unit_box(a),
        is_unit_box(b),
        dot(a, a) == dot(b, b),
    ensures
        -dot(a, a) <= dot(a, b) <= dot(a, a),
{
    // Each term: 2|a_i b_i| <= a_i^2 + b_i^2.
    assert(2 * (a.0 * b.0) <= a.0 * a.0 + b.0 * b.0) by (nonlinear_arith);
    assert(2 * (a.1 * b.1) <= a.1 * a.1 + b.1 * b.1) by (nonlinear_arith);
    assert(2 * (a.2 * b.2) <= a.2 * a.2 + b.2 * b.2) by (nonlinear_arith);
    assert(-2 * (a.0 * b.0) <= a.0 * a.0 + b.0 * b.0) by (nonlinear_arith);
    assert(-2 * (a.1 * b.1) <= a.1 * a.1 + b.1 * b.1) by (nonlinear_arith);
    assert(-2 * (a.2 * b.2) <= a.2 * a.2 + b.2 * b.2) by (nonlinear_arith);
}

fn comp_exec(v: IVec3, i: usize) -> (r: i64)
    requires
        i < 3,
    ensures
        r == comp(v@, i as int),
{
    if i == 0 {
        v.x
    } else if i == 1 {
        v.y
    } else {
        v.z
    }
}

fn cross_exec(a: IVec3, b: IVec3) -> (r: IVec3)
    requires
        is_unit_box(a@),
        is_unit_box(b@),
    ensures
        r@ == cross(a@, b@),
        bounded_by(r@, 2),
{
    proof {
        lemma_unit_box_products(a@, b@);
    }
    IVec3 { x: a.y * b.z - a.z * b.y, y: a.z * b.x - a.x * b.z, z: a.x * b.y - a.y * b.x }
}

fn small_dot(a: IVec3, b: IVec3) -> (r: i64)
    requires
        is_unit_box(a@),
        is_unit_box(b@),
    ensures
        r == dot(a@, b@),
        -3 <= r <= 3,
{
    proof {
        lemma_unit_box_products(a@, b@);
    }
    a.x * b.x + a.y * b.y + a.z * b.z
}

fn arc_entry_exec(a: IVec3, b: IVec3, i: usize, j: usize) -> (r: i64)
    requires
        arc_inputs_ok(a@, b@),
        i < 3,
        j < 3,
    ensures
        r == arc_entry(a@, b@, i as int, j as int),
{
    proof {
        lemma_arc_bounds(a@, b@, i as int, j as int);
        lemma_unit_box_products((1, 0, 0), a@);
        lemma_unit_box_products((0, 1, 0), a@);
        lemma_unit_norm(a@);
    }
    let n = small_dot(a, a);
    let c = small_dot(a, b);
    if c == -n {
        let ex = IVec3 { x: 1, y: 0, z: 0 };
        let ey = IVec3 { x: 0, y: 1, z: 0 };
        let kx = cross_exec(ex, a);
        let k = if kx.x != 0 || kx.y != 0 || kx.z != 0 { kx } else { cross_exec(ey, a) };
        assert(k@ == half_turn_axis(a@));
        assert(is_unit_box(k@));
        let ki = comp_exec(k, i);
        let kj = comp_exec(k, j);
        let kk = small_dot(k, k);
        assert(-1 <= ki * kj <= 1) by (nonlinear_arith)
            requires -1 <= ki <= 1, -1 <= kj <= 1;
        assert(2 * ki * kj == 2 * (ki * kj)) by (nonlinear_arith);
        if i == j {
            2 * ki * kj - kk
        } else {
            2 * ki * kj
        }
    } else {
        let w = cross_exec(a, b);
        let wi = comp_exec(w, i);
        let wj = comp_exec(w, j);
        let s: i64 = if i == 0 && j == 1 {
            -w.z
        } else if i == 0 && j == 2 {
            w.y
        } else if i == 1 && j == 0 {
            w.z
        } else if i == 1 && j == 2 {
            -w.x
        } else if i == 2 && j == 0 {
            -w.y
        } else if i == 2 && j == 1 {
            w.x
        } else {
            0
        };
        assert(-4 <= wi * wj <= 4) by (nonlinear_arith)
            requires -2 <= wi <= 2, -2 <= wj <= 2;
        assert(-18 <= c * (n + c) <= 18) by (nonlinear_arith)
            requires -3 <= c <= 3, 1 <= n <= 3;
        assert(-12 <= (n + c) * s <= 12) by (nonlinear_arith)
            requires -3 <= c <= 3, 1 <= n <= 3, -2 <= s <= 2;
        let diag: i64 = if i == j { c * (n + c) } else { 0 };
        diag + (n + c) * s + wi * wj
    }
}

/// The rotation of least angle that takes the direction of `a` to that of `b`.
/// Where `b` is opposite to `a`, the arc is a half turn about `half_turn_axis(a)`.
pub fn arc_rotation(a: IVec3, b: IVec3) -> (r: Rotation)
    requires
        arc_inputs_ok(a@, b@),
    ensures
        r == arc_spec(a@, b@),
        r.wf(),
{
    proof {
        assert forall|i: int, j: int| 0 <= i < 3 && 0 <= j < 3 implies -ROT_BOUND
            <= #[trigger] arc_entry(a@, b@, i, j) <= ROT_BOUND by {
            lemma_arc_bounds(a@, b@, i, j);
        }
        lemma_arc_bounds(a@, b@, 0, 0);
        lemma_unit_box_products(a@, a@);
        lemma_unit_box_products(a@, b@);
        lemma_unit_norm(a@);
    }
    let n = small_dot(a, a);
    let c = small_dot(a, b);
    let den: i64 = if c == -n {
        let ex = IVec3 { x: 1, y: 0, z: 0 };
        let ey = IVec3 { x: 0, y: 1, z: 0 };
        proof {
            lemma_unit_box_products((1, 0, 0), a@);
            lemma_unit_box_products((0, 1, 0), a@);
        }
        let kx = cross_exec(ex, a);
        let k = if kx.x != 0 || kx.y != 0 || kx.z != 0 { kx } else { cross_exec(ey, a) };
        assert(k@ == half_turn_axis(a@));
        small_dot(k, k)
    } else {
        assert(-18 <= n * (n + c) <= 18) by (nonlinear_arith)
            requires -3 <= c <= 3, 1 <= n <= 3;
        n * (n + c)
    };
    Rotation {
        row_x: IVec3 {
            x: arc_entry_exec(a, b, 0, 0),
            y: arc_entry_exec(a, b, 0, 1),
            z: arc_entry_exec(a, b, 0, 2),
        },
        row_y: IVec3 {
            x: arc_entry_exec(a, b, 1, 0),
            y: arc_entry_exec(a, b, 1, 1),
            z: arc_entry_exec(a, b, 1, 2),
        },
        row_z: IVec3 {
            x: arc_entry_exec(a, b, 2, 0),
            y: arc_entry_exec(a, b, 2, 1),
            z: arc_entry_exec(a, b, 2, 2),
        },
        den,
    }
}

/// `p * u` for `u` in -1..=1, without multiplication.
pub open spec fn unit_mul(p: int, u: int) -> int {
    if u == 0 {
        0
    } else if u > 0 {
        p
    } else {
        -p
    }
}

proof fn lemma_unit_mul(p: int, u: int)
    requires
        -1 <= u <= 1,
    ensures
        p * u == unit_mul(p, u),
{
    if u == 0 {
        assert(p * u == 0) by (nonlinear_arith)
            requires u == 0;
    } else if u == 1 {
        assert(p * u == p) by (nonlinear_arith)
            requires u == 1;
    } else {
        assert(p * u == -p) by (nonlinear_arith)
            requires u == -1;
    }
}

/// Cross and dot products against a direction in the unit box, as sums of
/// signed components.
pub(crate) proof fn lemma_unit_direction_products(v: V3, c: V3)
    requires
        is_unit_box(c),
    ensures
        cross(v, c) == (
            unit_mul(v.1, c.2) - unit_mul(v.2, c.1),
            unit_mul(v.2, c.0) - unit_mul(v.0, c.2),
            unit_mul(v.0, c.1) - unit_mul(v.1, c.0),
        ),
        dot(v, c) == unit_mul(v.0, c.0) + unit_mul(v.1, c.1) + unit_mul(v.2, c.2),
{
    lemma_unit_mul(v.0, c.0);
    lemma_unit_mul(v.0, c.1);
    lemma_unit_mul(v.0, c.2);
    lemma_unit_mul(v.1, c.0);
    lemma_unit_mul(v.1, c.1);
    lemma_unit_mul(v.1, c.2);
    lemma_unit_mul(v.2, c.0);
    lemma_unit_mul(v.2, c.1);
    lemma_unit_mul(v.2, c.2);
}

// ---------------------------------------------------------------------------
// Helpers on signs and magnitudes
// ---------------------------------------------------------------------------

/// `|a| == |b|`, decided without overflow.
fn same_magnitude(a: i64, b: i64) -> (r: bool)
    ensures
        r == (a == b || a == -b),
{
    if (a > 0) == (b > 0) {
        a == b
    } else {
        a + b == 0
    }
}

/// How the orientation byte of a block is read for its shape.
#[derive(Clone, Copy, Debug, PartialEq, Eq, Structural)]
pub enum RotType {
    Static,
    RotFace,
    RotVert,
    RotEdge,
}

// ---------------------------------------------------------------------------
// Faces
// ---------------------------------------------------------------------------

/// The six axis directions.
#[derive(Clone, Copy, Debug, PartialEq, Eq, Structural)]
pub enum RotFace {
    PlusZ,
    MinusZ,
    PlusY,
    MinusY,
    PlusX,
    MinusX,
}

/// The reference member of the face group: orientation 0 points this way.
pub const RF_ZERO: RotFace = RotFace::PlusZ;

pub open spec fn rf_vec(rf: RotFace) -> V3 {
    match rf {
        RotFace::PlusZ => (0, 0, 1),
        RotFace::MinusZ => (0, 0, -1),
        RotFace::PlusY => (0, 1, 0),
        RotFace::MinusY => (0, -1, 0),
        RotFace::PlusX => (1, 0, 0),
        RotFace::MinusX => (-1, 0, 0),
    }
}

pub open spec fn rf_reverse(rf: RotFace) -> RotFace {
    match rf {
        RotFace::PlusZ => RotFace::MinusZ,
        RotFace::MinusZ => RotFace::PlusZ,
        RotFace::PlusY => RotFace::MinusY,
        RotFace::MinusY => RotFace::PlusY,
        RotFace::PlusX => RotFace::MinusX,
        RotFace::MinusX => RotFace::PlusX,
    }
}

/// The packed index of a face direction, as stored in an orientation byte.
pub open spec fn rf_index(rf: RotFace) -> u8 {
    match rf {
        RotFace::PlusZ => 0,
        RotFace::MinusZ => 1,
        RotFace::PlusY => 2,
        RotFace::MinusY => 3,
        RotFace::PlusX => 4,
        RotFace::MinusX => 5,
    }
}

/// The face direction that `v` points along, if any.
pub open spec fn face_of(v: V3) -> Option<RotFace> {
    if same_direction(v, rf_vec(RotFace::PlusZ)) {
        Some(RotFace::PlusZ)
    } else if same_direction(v, rf_vec(RotFace::MinusZ)) {
        Some(RotFace::MinusZ)
    } else if same_direction(v, rf_vec(RotFace::PlusY)) {
        Some(RotFace::PlusY)
    } else if same_direction(v, rf_vec(RotFace::MinusY)) {
        Some(RotFace::MinusY)
    } else if same_direction(v, rf_vec(RotFace::PlusX)) {
        Some(RotFace::PlusX)
    } else if same_direction(v, rf_vec(RotFace::MinusX)) {
        Some(RotFace::MinusX)
    } else {
        None
    }
}

pub fn rf_to_vector(rf: RotFace) -> (r: IVec3)
    ensures
        r@ == rf_vec(rf),
{
    match rf {
        RotFace::PlusZ => IVec3 { x: 0, y: 0, z: 1 },
        RotFace::MinusZ => IVec3 { x: 0, y: 0, z: -1 },
        RotFace::PlusY => IVec3 { x: 0, y: 1, z: 0 },
        RotFace::MinusY => IVec3 { x: 0, y: -1, z: 0 },
        RotFace::PlusX => IVec3 { x: 1, y: 0, z: 0 },
        RotFace::MinusX => IVec3 { x: -1, y: 0, z: 0 },
    }
}

pub fn reverse_rf(rf: RotFace) -> (r: RotFace)
    ensures
        r == rf_reverse(rf),
        rf_vec(r) == neg(rf_vec(rf)),
{
    match rf {
        RotFace::PlusZ => RotFace::MinusZ,
        RotFace::MinusZ => RotFace::PlusZ,
        RotFace::PlusX => RotFace::MinusX,
        RotFace::MinusX => RotFace::PlusX,
        RotFace::PlusY => RotFace::MinusY,
        RotFace::MinusY => RotFace::PlusY,
    }
}

/// The RotFace member stored under packed index `n`, if any.
pub open spec fn rf_at(n: u8) -> Option<RotFace> {
    match n {
        0 => Some(RotFace::PlusZ),
        1 => Some(RotFace::MinusZ),
        2 => Some(RotFace::PlusY),
        3 => Some(RotFace::MinusY),
        4 => Some(RotFace::PlusX),
        5 => Some(RotFace::MinusX),
        _ => None,
    }
}

pub fn num_to_rf(num: u8) -> (r: Option<RotFace>)
    ensures
        r == rf_at(num),
        r is Some <==> num < 6,
        r matches Some(x) ==> rf_index(x) == num,
{
    match num {
        0 => Some(RotFace::PlusZ),
        1 => Some(RotFace::MinusZ),
        2 => Some(RotFace::PlusY),
        3 => Some(RotFace::MinusY),
        4 => Some(RotFace::PlusX),
        5 => Some(RotFace::MinusX),
        _ => None,
    }
}

pub fn rf_to_num(rf: RotFace) -> (r: u8)
    ensures
        r == rf_index(rf),
        r < 6,
{
    match rf {
        RotFace::PlusZ => 0,
        RotFace::MinusZ => 1,
        RotFace::PlusX => 4,
        RotFace::MinusX => 5,
        RotFace::PlusY => 2,
        RotFace::MinusY => 3,
    }
}

/// The face direction that `v` points along; `None` when `v` is not a
/// positive multiple of an axis direction.
pub fn vector_to_rf(v: IVec3) -> (r: Option<RotFace>)
    ensures
        r == face_of(v@),
{
    if v.x == 0 && v.y == 0 {
        if v.z > 0 {
            Some(RotFace::PlusZ)
        } else if v.z < 0 {
            Some(RotFace::MinusZ)
        } else {
            None
        }
    } else if v.x == 0 && v.z == 0 {
        if v.y > 0 {
            Some(RotFace::PlusY)
        } else {
            Some(RotFace::MinusY)
        }
    } else if v.y == 0 && v.z == 0 {
        if v.x > 0 {
            Some(RotFace::PlusX)
        } else {
            Some(RotFace::MinusX)
        }
    } else {
        None
    }
}

/// The face direction that `rf` turns into under `quat`.
pub fn rotate_rf(rf: RotFace, quat: &Rotation) -> (r: Option<RotFace>)
    requires
        quat.wf(),
    ensures
        r == face_of(quat.apply_spec(rf_vec(rf))),
{
    let v = rf_to_vector(rf);
    vector_to_rf(quat.apply(v))
}

/// The shortest-arc rotation from the reference face direction to `rf`.
pub fn generate_quat_from_rf(rf: RotFace) -> (r: Rotation)
    ensures
        r == arc_spec(rf_vec(RF_ZERO), rf_vec(rf)),
        r.wf(),
        face_of(r.apply_spec(rf_vec(RF_ZERO))) == Some(rf),
{
    proof {
        crate::wctx::rotation_lemmas::lemma_quat_rf_reaches(rf);
    }
    let zero = rf_to_vector(RF_ZERO);
    let v = rf_to_vector(rf);
    proof {
        lemma_rf_arc_inputs(rf);
    }
    arc_rotation(zero, v)
}

proof fn lemma_rf_arc_inputs(x: RotFace)
    ensures
        arc_inputs_ok(rf_vec(RF_ZERO), rf_vec(x)),
{
    assert(rf_vec(RF_ZERO) == (0int, 0int, 1int));
    lemma_unit_norm(rf_vec(RF_ZERO));
    lemma_unit_norm(rf_vec(x));
    match x {
        RotFace::PlusZ => {},
        RotFace::MinusZ => {},
        RotFace::PlusY => {},
        RotFace::MinusY => {},
        RotFace::PlusX => {},
        RotFace::MinusX => {},
    }
}

/// Reversing a face direction twice gives it back.
pub proof fn lemma_reverse_rf_involutive(x: RotFace)
    ensures
        rf_reverse(rf_reverse(x)) == x,
{
}

/// Reading back the vector of a face direction gives the direction.
pub proof fn lemma_rf_vector_round_trip(x: RotFace)
    ensures
        face_of(rf_vec(x)) == Some(x),
{
    match x {
        RotFace::PlusZ => {},
        RotFace::MinusZ => {},
        RotFace::PlusY => {},
        RotFace::MinusY => {},
        RotFace::PlusX => {},
        RotFace::MinusX => {},
    }
}

/// The identity rotation keeps every face direction.
pub proof fn lemma_rotate_rf_identity(x: RotFace)
    ensures
        face_of(Rotation::identity_spec().apply_spec(rf_vec(x))) == Some(x),
{
    match x {
        RotFace::PlusZ => {},
        RotFace::MinusZ => {},
        RotFace::PlusY => {},
        RotFace::MinusY => {},
        RotFace::PlusX => {},
        RotFace::MinusX => {},
    }
}

/// Packing a face direction into its index and back gives it back.
pub proof fn lemma_rf_index_round_trip(x: RotFace, y: RotFace)
    ensures
        rf_index(x) < 6,
        rf_index(x) == rf_index(y) ==> x == y,
{
}

// ---------------------------------------------------------------------------
// Vertices
// ---------------------------------------------------------------------------

/// The eight corner directions; `XmYpZp` is minus x, plus y, plus z.
#[derive(Clone, Copy, Debug, PartialEq, Eq, Structural)]
pub enum RotVert {
    XmYmZm,
    XmYmZp,
    XmYpZm,
    XmYpZp,
    XpYmZm,
    XpYmZp,
    XpYpZm,
    XpYpZp,
}

/// The reference member of the vertex group: orientation 0 points this way.
pub const RV_ZERO: RotVert = RotVert::XmYmZm;

pub open spec fn rv_vec(rv: RotVert) -> V3 {
    match rv {
        RotVert::XmYmZm => (-1, -1, -1),
        RotVert::XmYmZp => (-1, -1, 1),
        RotVert::XmYpZm => (-1, 1, -1),
        RotVert::XmYpZp => (-1, 1, 1),
        RotVert::XpYmZm => (1, -1, -1),
        RotVert::XpYmZp => (1, -1, 1),
        RotVert::XpYpZm => (1, 1, -1),
        RotVert::XpYpZp => (1, 1, 1),
    }
}

pub open spec fn rv_reverse(rv: RotVert) -> RotVert {
    match rv {
        RotVert::XmYmZm => RotVert::XpYpZp,
        RotVert::XmYmZp => RotVert::XpYpZm,
        RotVert::XmYpZm => RotVert::XpYmZp,
        RotVert::XmYpZp => RotVert::XpYmZm,
        RotVert::XpYmZm => RotVert::XmYpZp,
        RotVert::XpYmZp => RotVert::XmYpZm,
        RotVert::XpYpZm => RotVert::XmYmZp,
        RotVert::XpYpZp => RotVert::XmYmZm,
    }
}

/// The packed index of a vertex direction, as stored in an orientation byte.
pub open spec fn rv_index(rv: RotVert) -> u8 {
    match rv {
        RotVert::XmYmZm => 0,
        RotVert::XmYmZp => 1,
        RotVert::XmYpZm => 2,
        RotVert::XmYpZp => 3,
        RotVert::XpYmZm => 4,
        RotVert::XpYmZp => 5,
        RotVert::XpYpZm => 6,
        RotVert::XpYpZp => 7,
    }
}

/// The vertex direction that `v` points along, if any.
pub open spec fn vertex_of(v: V3) -> Option<RotVert> {
    if same_direction(v, rv_vec(RotVert::XmYmZm)) {
        Some(RotVert::XmYmZm)
    } else if same_direction(v, rv_vec(RotVert::XmYmZp)) {
        Some(RotVert::XmYmZp)
    } else if same_direction(v, rv_vec(RotVert::XmYpZm)) {
        Some(RotVert::XmYpZm)
    } else if same_direction(v, rv_vec(RotVert::XmYpZp)) {
        Some(RotVert::XmYpZp)
    } else if same_direction(v, rv_vec(RotVert::XpYmZm)) {
        Some(RotVert::XpYmZm)
    } else if same_direction(v, rv_vec(RotVert::XpYmZp)) {
        Some(RotVert::XpYmZp)
    } else if same_direction(v, rv_vec(RotVert::XpYpZm)) {
        Some(RotVert::XpYpZm)
    } else if same_direction(v, rv_vec(RotVert::XpYpZp)) {
        Some(RotVert::XpYpZp)
    } else {
        None
    }
}

pub fn reverse_rv(rv: RotVert) -> (r: RotVert)
    ensures
        r == rv_reverse(rv),
        rv_vec(r) == neg(rv_vec(rv)),
{
    match rv {
        RotVert::XmYmZm => RotVert::XpYpZp,
        RotVert::XmYmZp => RotVert::XpYpZm,
        RotVert::XmYpZm => RotVert::XpYmZp,
        RotVert::XmYpZp => RotVert::XpYmZm,
        RotVert::XpYmZm => RotVert::XmYpZp,
        RotVert::XpYmZp => RotVert::XmYpZm,
        RotVert::XpYpZm => RotVert::XmYmZp,
        RotVert::XpYpZp => RotVert::XmYmZm,
    }
}

/// The RotVert member stored under packed index `n`, if any.
pub open spec fn rv_at(n: u8) -> Option<RotVert> {
    match n {
        0 => Some(RotVert::XmYmZm),
        1 => Some(RotVert::XmYmZp),
        2 => Some(RotVert::XmYpZm),
        3 => Some(RotVert::XmYpZp),
        4 => Some(RotVert::XpYmZm),
        5 => Some(RotVert::XpYmZp),
        6 => Some(RotVert::XpYpZm),
        7 => Some(RotVert::XpYpZp),
        _ => None,
    }
}

pub fn num_to_rv(num: u8) -> (r: Option<RotVert>)
    ensures
        r == rv_at(num),
        r is Some <==> num < 8,
        r matches Some(x) ==> rv_index(x) == num,
{
    match num {
        0 => Some(RotVert::XmYmZm),
        1 => Some(RotVert::XmYmZp),
        2 => Some(RotVert::XmYpZm),
        3 => Some(RotVert::XmYpZp),
        4 => Some(RotVert::XpYmZm),
        5 => Some(RotVert::XpYmZp),
        6 => Some(RotVert::XpYpZm),
        7 => Some(RotVert::XpYpZp),
        _ => None,
    }
}

pub fn rv_to_num(rv: RotVert) -> (r: u8)
    ensures
        r == rv_index(rv),
        r < 8,
{
    match rv {
        RotVert::XmYmZm => 0,
        RotVert::XmYmZp => 1,
        RotVert::XmYpZm => 2,
        RotVert::XmYpZp => 3,
        RotVert::XpYmZm => 4,
        RotVert::XpYmZp => 5,
        RotVert::XpYpZm => 6,
        RotVert::XpYpZp => 7,
    }
}

pub fn rv_to_vector(rv: RotVert) -> (r: IVec3)
    ensures
        r@ == rv_vec(rv),
{
    match rv {
        RotVert::XmYmZm => IVec3 { x: -1, y: -1, z: -1 },
        RotVert::XmYmZp => IVec3 { x: -1, y: -1, z: 1 },
        RotVert::XmYpZm => IVec3 { x: -1, y: 1, z: -1 },
        RotVert::XmYpZp => IVec3 { x: -1, y: 1, z: 1 },
        RotVert::XpYmZm => IVec3 { x: 1, y: -1, z: -1 },
        RotVert::XpYmZp => IVec3 { x: 1, y: -1, z: 1 },
        RotVert::XpYpZm => IVec3 { x: 1, y: 1, z: -1 },
        RotVert::XpYpZp => IVec3 { x: 1, y: 1, z: 1 },
    }
}

/// The vertex direction that `v` points along; `None` when `v` is not a
/// positive multiple of a corner direction.
pub fn vector_to_rv(v: IVec3) -> (r: Option<RotVert>)
    ensures
        r == vertex_of(v@),
{
    if v.x == 0 || v.y == 0 || v.z == 0 || !same_magnitude(v.x, v.y) || !same_magnitude(v.x, v.z) {
        return None;
    }
    if v.x < 0 {
        if v.y < 0 {
            if v.z < 0 { Some(RotVert::XmYmZm) } else { Some(RotVert::XmYmZp) }
        } else {
            if v.z < 0 { Some(RotVert::XmYpZm) } else { Some(RotVert::XmYpZp) }
        }
    } else {
        if v.y < 0 {
            if v.z < 0 { Some(RotVert::XpYmZm) } else { Some(RotVert::XpYmZp) }
        } else {
            if v.z < 0 { Some(RotVert::XpYpZm) } else { Some(RotVert::XpYpZp) }
        }
    }
}

/// The vertex direction that `rv` turns into under `quat`.
pub fn rotate_rv(rv: RotVert, quat: &Rotation) -> (r: Option<RotVert>)
    requires
        quat.wf(),
    ensures
        r == vertex_of(quat.apply_spec(rv_vec(rv))),
{
    let v = rv_to_vector(rv);
    vector_to_rv(quat.apply(v))
}

proof fn lemma_rv_arc_inputs(x: RotVert)
    ensures
        arc_inputs_ok(rv_vec(RV_ZERO), rv_vec(x)),
{
    assert(rv_vec(RV_ZERO) == (-1int, -1int, -1int));
    lemma_unit_norm(rv_vec(RV_ZERO));
    lemma_unit_norm(rv_vec(x));
    match x {
        RotVert::XmYmZm => {},
        RotVert::XmYmZp => {},
        RotVert::XmYpZm => {},
        RotVert::XmYpZp => {},
        RotVert::XpYmZm => {},
        RotVert::XpYmZp => {},
        RotVert::XpYpZm => {},
        RotVert::XpYpZp => {},
    }
}

/// The shortest-arc rotation from the reference vertex direction to `rv`.
pub fn generate_quat_from_rv(rv: RotVert) -> (r: Rotation)
    ensures
        r == arc_spec(rv_vec(RV_ZERO), rv_vec(rv)),
        r.wf(),
        vertex_of(r.apply_spec(rv_vec(RV_ZERO))) == Some(rv),
{
    proof {
        crate::wctx::rotation_lemmas::lemma_quat_rv_reaches(rv);
    }
    let zero = rv_to_vector(RV_ZERO);
    let v = rv_to_vector(rv);
    proof {
        lemma_rv_arc_inputs(rv);
    }
    arc_rotation(zero, v)
}

/// Reversing a vertex direction twice gives it back.
pub proof fn lemma_reverse_rv_involutive(x: RotVert)
    ensures
        rv_reverse(rv_reverse(x)) == x,
{
}

/// Reading back the vector of a vertex direction gives the direction.
pub proof fn lemma_rv_vector_round_trip(x: RotVert)
    ensures
        vertex_of(rv_vec(x)) == Some(x),
{
    match x {
        RotVert::XmYmZm => {},
        RotVert::XmYmZp => {},
        RotVert::XmYpZm => {},
        RotVert::XmYpZp => {},
        RotVert::XpYmZm => {},
        RotVert::XpYmZp => {},
        RotVert::XpYpZm => {},
        RotVert::XpYpZp => {},
    }
}

/// The identity rotation keeps every vertex direction.
pub proof fn lemma_rotate_rv_identity(x: RotVert)
    ensures
        vertex_of(Rotation::identity_spec().apply_spec(rv_vec(x))) == Some(x),
{
    match x {
        RotVert::XmYmZm => {},
        RotVert::XmYmZp => {},
        RotVert::XmYpZm => {},
        RotVert::XmYpZp => {},
        RotVert::XpYmZm => {},
        RotVert::XpYmZp => {},
        RotVert::XpYpZm => {},
        RotVert::XpYpZp => {},
    }
}

/// Distinct vertex directions have distinct indices, all below eight.
pub proof fn lemma_rv_index_round_trip(x: RotVert, y: RotVert)
    ensures
        rv_index(x) < 8,
        rv_index(x) == rv_index(y) ==> x == y,
{
}

// ---------------------------------------------------------------------------
// Edges
// ---------------------------------------------------------------------------

/// The twelve edge directions: four on the top face, four around the middle
/// and four on the bottom face (`Low`).
#[derive(Clone, Copy, Debug, PartialEq, Eq, Structural)]
pub enum RotEdge {
    TopZm,
    TopZp,
    TopXm,
    TopXp,
    MidZmXm,
    MidZpXp,
    MidZpXm,
    MidZmXp,
    LowZm,
    LowZp,
    LowXm,
    LowXp,
}

/// The reference member of the edge group: orientation 0 points this way.
pub const RE_ZERO: RotEdge = RotEdge::LowZm;

pub open spec fn re_vec(re: RotEdge) -> V3 {
    match re {
        RotEdge::TopZm => (0, 1, -1),
        RotEdge::TopZp => (0, 1, 1),
        RotEdge::TopXm => (-1, 1, 0),
        RotEdge::TopXp => (1, 1, 0),
        RotEdge::MidZmXm => (-1, 0, -1),
        RotEdge::MidZpXp => (1, 0, 1),
        RotEdge::MidZpXm => (1, 0, -1),
        RotEdge::MidZmXp => (-1, 0, 1),
        RotEdge::LowZm => (0, -1, -1),
        RotEdge::LowZp => (0, -1, 1),
        RotEdge::LowXm => (-1, -1, 0),
        RotEdge::LowXp => (1, -1, 0),
    }
}

pub open spec fn re_reverse(re: RotEdge) -> RotEdge {
    match re {
        RotEdge::TopZm => RotEdge::LowZp,
        RotEdge::TopZp => RotEdge::LowZm,
        RotEdge::TopXm => RotEdge::LowXp,
        RotEdge::TopXp => RotEdge::LowXm,
        RotEdge::MidZmXm => RotEdge::MidZpXp,
        RotEdge::MidZpXp => RotEdge::MidZmXm,
        RotEdge::MidZpXm => RotEdge::MidZmXp,
        RotEdge::MidZmXp => RotEdge::MidZpXm,
        RotEdge::LowZm => RotEdge::TopZp,
        RotEdge::LowZp => RotEdge::TopZm,
        RotEdge::LowXm => RotEdge::TopXp,
        RotEdge::LowXp => RotEdge::TopXm,
    }
}

/// The packed index of an edge direction, as stored in an orientation byte.
pub open spec fn re_index(re: RotEdge) -> u8 {
    match re {
        RotEdge::TopZm => 8,
        RotEdge::TopZp => 9,
        RotEdge::TopXm => 10,
        RotEdge::TopXp => 11,
        RotEdge::MidZmXm => 4,
        RotEdge::MidZpXp => 5,
        RotEdge::MidZpXm => 6,
        RotEdge::MidZmXp => 7,
        RotEdge::LowZm => 0,
        RotEdge::LowZp => 1,
        RotEdge::LowXm => 2,
        RotEdge::LowXp => 3,
    }
}

/// The edge direction that `v` points along, if any.
pub open spec fn edge_of(v: V3) -> Option<RotEdge> {
    if same_direction(v, re_vec(RotEdge::TopZm)) {
        Some(RotEdge::TopZm)
    } else if same_direction(v, re_vec(RotEdge::TopZp)) {
        Some(RotEdge::TopZp)
    } else if same_direction(v, re_vec(RotEdge::TopXm)) {
        Some(RotEdge::TopXm)
    } else if same_direction(v, re_vec(RotEdge::TopXp)) {
        Some(RotEdge::TopXp)
    } else if same_direction(v, re_vec(RotEdge::MidZmXm)) {
        Some(RotEdge::MidZmXm)
    } else if same_direction(v, re_vec(RotEdge::MidZpXp)) {
        Some(RotEdge::MidZpXp)
    } else if same_direction(v, re_vec(RotEdge::MidZpXm)) {
        Some(RotEdge::MidZpXm)
    } else if same_direction(v, re_vec(RotEdge::MidZmXp)) {
        Some(RotEdge::MidZmXp)
    } else if same_direction(v, re_vec(RotEdge::LowZm)) {
        Some(RotEdge::LowZm)
    } else if same_direction(v, re_vec(RotEdge::LowZp)) {
        Some(RotEdge::LowZp)
    } else if same_direction(v, re_vec(RotEdge::LowXm)) {
        Some(RotEdge::LowXm)
    } else if same_direction(v, re_vec(RotEdge::LowXp)) {
        Some(RotEdge::LowXp)
    } else {
        None
    }
}

pub fn reverse_re(re: RotEdge) -> (r: RotEdge)
    ensures
        r == re_reverse(re),
        re_vec(r) == neg(re_vec(re)),
{
    match re {
        RotEdge::TopZm => RotEdge::LowZp,
        RotEdge::TopZp => RotEdge::LowZm,
        RotEdge::TopXm => RotEdge::LowXp,
        RotEdge::TopXp => RotEdge::LowXm,
        RotEdge::MidZmXm => RotEdge::MidZpXp,
        RotEdge::MidZpXp => RotEdge::MidZmXm,
        RotEdge::MidZpXm => RotEdge::MidZmXp,
        RotEdge::MidZmXp => RotEdge::MidZpXm,
        RotEdge::LowZm => RotEdge::TopZp,
        RotEdge::LowZp => RotEdge::TopZm,
        RotEdge::LowXm => RotEdge::TopXp,
        RotEdge::LowXp => RotEdge::TopXm,
    }
}

/// The RotEdge member stored under packed index `n`, if any.
pub open spec fn re_at(n: u8) -> Option<RotEdge> {
    match n {
        0 => Some(RotEdge::LowZm),
        1 => Some(RotEdge::LowZp),
        2 => Some(RotEdge::LowXm),
        3 => Some(RotEdge::LowXp),
        4 => Some(RotEdge::MidZmXm),
        5 => Some(RotEdge::MidZpXp),
        6 => Some(RotEdge::MidZpXm),
        7 => Some(RotEdge::MidZmXp),
        8 => Some(RotEdge::TopZm),
        9 => Some(RotEdge::TopZp),
        10 => Some(RotEdge::TopXm),
        11 => Some(RotEdge::TopXp),
        _ => None,
    }
}

pub fn num_to_re(num: u8) -> (r: Option<RotEdge>)
    ensures
        r == re_at(num),
        r is Some <==> num < 12,
        r matches Some(x) ==> re_index(x) == num,
{
    match num {
        0 => Some(RotEdge::LowZm),
        1 => Some(RotEdge::LowZp),
        2 => Some(RotEdge::LowXm),
        3 => Some(RotEdge::LowXp),
        4 => Some(RotEdge::MidZmXm),
        5 => Some(RotEdge::MidZpXp),
        6 => Some(RotEdge::MidZpXm),
        7 => Some(RotEdge::MidZmXp),
        8 => Some(RotEdge::TopZm),
        9 => Some(RotEdge::TopZp),
        10 => Some(RotEdge::TopXm),
        11 => Some(RotEdge::TopXp),
        _ => None,
    }
}

pub fn re_to_num(re: RotEdge) -> (r: u8)
    ensures
        r == re_index(re),
        r < 12,
{
    match re {
        RotEdge::TopZm => 8,
        RotEdge::TopZp => 9,
        RotEdge::TopXm => 10,
        RotEdge::TopXp => 11,
        RotEdge::MidZmXm => 4,
        RotEdge::MidZpXp => 5,
        RotEdge::MidZpXm => 6,
        RotEdge::MidZmXp => 7,
        RotEdge::LowZm => 0,
        RotEdge::LowZp => 1,
        RotEdge::LowXm => 2,
        RotEdge::LowXp => 3,
    }
}

pub fn re_to_vector(re: RotEdge) -> (r: IVec3)
    ensures
        r@ == re_vec(re),
{
    match re {
        RotEdge::TopZm => IVec3 { x: 0, y: 1, z: -1 },
        RotEdge::TopZp => IVec3 { x: 0, y: 1, z: 1 },
        RotEdge::TopXm => IVec3 { x: -1, y: 1, z: 0 },
        RotEdge::TopXp => IVec3 { x: 1, y: 1, z: 0 },
        RotEdge::MidZmXm => IVec3 { x: -1, y: 0, z: -1 },
        RotEdge::MidZpXp => IVec3 { x: 1, y: 0, z: 1 },
        RotEdge::MidZpXm => IVec3 { x: 1, y: 0, z: -1 },
        RotEdge::MidZmXp => IVec3 { x: -1, y: 0, z: 1 },
        RotEdge::LowZm => IVec3 { x: 0, y: -1, z: -1 },
        RotEdge::LowZp => IVec3 { x: 0, y: -1, z: 1 },
        RotEdge::LowXm => IVec3 { x: -1, y: -1, z: 0 },
        RotEdge::LowXp => IVec3 { x: 1, y: -1, z: 0 },
    }
}

/// The edge direction that `v` points along; `None` when `v` is not a
/// positive multiple of an edge direction.
#[verifier::rlimit(50)]
pub fn vector_to_re(v: IVec3) -> (r: Option<RotEdge>)
    ensures
        r == edge_of(v@),
{
    proof {
        lemma_unit_direction_products(v@, re_vec(RotEdge::TopZm));
        lemma_unit_direction_products(v@, re_vec(RotEdge::TopZp));
        lemma_unit_direction_products(v@, re_vec(RotEdge::TopXm));
        lemma_unit_direction_products(v@, re_vec(RotEdge::TopXp));
        lemma_unit_direction_products(v@, re_vec(RotEdge::MidZmXm));
        lemma_unit_direction_products(v@, re_vec(RotEdge::MidZpXp));
        lemma_unit_direction_products(v@, re_vec(RotEdge::MidZpXm));
        lemma_unit_direction_products(v@, re_vec(RotEdge::MidZmXp));
        lemma_unit_direction_products(v@, re_vec(RotEdge::LowZm));
        lemma_unit_direction_products(v@, re_vec(RotEdge::LowZp));
        lemma_unit_direction_products(v@, re_vec(RotEdge::LowXm));
        lemma_unit_direction_products(v@, re_vec(RotEdge::LowXp));
    }
    if v.x == 0 && v.y != 0 && v.z != 0 && same_magnitude(v.y, v.z) {
        if v.y < 0 {
            if v.z < 0 { Some(RotEdge::LowZm) } else { Some(RotEdge::LowZp) }
        } else {
            if v.z < 0 { Some(RotEdge::TopZm) } else { Some(RotEdge::TopZp) }
        }
    } else if v.z == 0 && v.x != 0 && v.y != 0 && same_magnitude(v.x, v.y) {
        if v.y < 0 {
            if v.x < 0 { Some(RotEdge::LowXm) } else { Some(RotEdge::LowXp) }
        } else {
            if v.x < 0 { Some(RotEdge::TopXm) } else { Some(RotEdge::TopXp) }
        }
    } else if v.y == 0 && v.x != 0 && v.z != 0 && same_magnitude(v.x, v.z) {
        if v.x < 0 {
            if v.z < 0 { Some(RotEdge::MidZmXm) } else { Some(RotEdge::MidZmXp) }
        } else {
            if v.z < 0 { Some(RotEdge::MidZpXm) } else { Some(RotEdge::MidZpXp) }
        }
    } else {
        None
    }
}

/// The edge direction that `re` turns into under `quat`.
pub fn rotate_re(re: RotEdge, quat: &Rotation) -> (r: Option<RotEdge>)
    requires
        quat.wf(),
    ensures
        r == edge_of(quat.apply_spec(re_vec(re))),
{
    let v = re_to_vector(re);
    vector_to_re(quat.apply(v))
}

proof fn lemma_re_arc_inputs(x: RotEdge)
    ensures
        arc_inputs_ok(re_vec(RE_ZERO), re_vec(x)),
{
    assert(re_vec(RE_ZERO) == (0int, -1int, -1int));
    lemma_unit_norm(re_vec(RE_ZERO));
    lemma_unit_norm(re_vec(x));
    match x {
        RotEdge::TopZm => {},
        RotEdge::TopZp => {},
        RotEdge::TopXm => {},
        RotEdge::TopXp => {},
        RotEdge::MidZmXm => {},
        RotEdge::MidZpXp => {},
        RotEdge::MidZpXm => {},
        RotEdge::MidZmXp => {},
        RotEdge::LowZm => {},
        RotEdge::LowZp => {},
        RotEdge::LowXm => {},
        RotEdge::LowXp => {},
    }
}

/// The shortest-arc rotation from the reference edge direction to `re`.
pub fn generate_quat_from_re(re: RotEdge) -> (r: Rotation)
    ensures
        r == arc_spec(re_vec(RE_ZERO), re_vec(re)),
        r.wf(),
        edge_of(r.apply_spec(re_vec(RE_ZERO))) == Some(re),
{
    proof {
        crate::wctx::rotation_lemmas::lemma_quat_re_reaches(re);
    }
    let zero = re_to_vector(RE_ZERO);
    let v = re_to_vector(re);
    proof {
        lemma_re_arc_inputs(re);
    }
    arc_rotation(zero, v)
}

/// Reversing an edge direction twice gives it back.
pub proof fn lemma_reverse_re_involutive(x: RotEdge)
    ensures
        re_reverse(re_reverse(x)) == x,
{
}

/// Reading back the vector of an edge direction gives the direction.
pub proof fn lemma_re_vector_round_trip(x: RotEdge)
    ensures
        edge_of(re_vec(x)) == Some(x),
{
    match x {
        RotEdge::TopZm => {},
        RotEdge::TopZp => {},
        RotEdge::TopXm => {},
        RotEdge::TopXp => {},
        RotEdge::MidZmXm => {},
        RotEdge::MidZpXp => {},
        RotEdge::MidZpXm => {},
        RotEdge::MidZmXp => {},
        RotEdge::LowZm => {},
        RotEdge::LowZp => {},
        RotEdge::LowXm => {},
        RotEdge::LowXp => {},
    }
}

/// The identity rotation keeps every edge direction.
pub proof fn lemma_rotate_re_identity(x: RotEdge)
    ensures
        edge_of(Rotation::identity_spec().apply_spec(re_vec(x))) == Some(x),
{
    match x {
        RotEdge::TopZm => {},
        RotEdge::TopZp => {},
        RotEdge::TopXm => {},
        RotEdge::TopXp => {},
        RotEdge::MidZmXm => {},
        RotEdge::MidZpXp => {},
        RotEdge::MidZpXm => {},
        RotEdge::MidZmXp => {},
        RotEdge::LowZm => {},
        RotEdge::LowZp => {},
        RotEdge::LowXm => {},
        RotEdge::LowXp => {},
    }
}

/// Distinct edge directions have distinct indices, all below twelve.
pub proof fn lemma_re_index_round_trip(x: RotEdge, y: RotEdge)
    ensures
        re_index(x) < 12,
        re_index(x) == re_index(y) ==> x == y,
{
}

} // verus!
