//! View-frustum culling over an integer model.
//!
//! The six clip planes come out of a view-projection matrix by the standard
//! row addition and subtraction identity. The box test evaluates, per
//! plane, the corner picked by the sign of each normal component and
//! rejects only boxes fully on a plane's negative side, so it is
//! conservative and free of false rejections.
//!
//! Planes and matrices are held as fixed-point integers (the caller scales
//! its float matrix by a power of two). The usual normalization of each
//! plane is deliberately skipped: it only scales a plane by a positive
//! factor, and `lemma_plane_test_scale_invariant` shows the box test does
//! not change under that.

use vstd::prelude::*;

verus! {

/// Largest magnitude allowed for a matrix entry handed to plane extraction.
pub const MAT_BOUND: i64 = 0x4000_0000_0000;

/// Largest magnitude of an extracted plane coefficient: a sum of two
/// bounded matrix entries.
pub const PLANE_BOUND: i64 = 0x8000_0000_0000;

/// Largest magnitude allowed for a box coordinate in the AABB test.
pub const COORD_BOUND: i64 = 0x100_0000_0000;

/// One clip plane `a*x + b*y + c*z + d >= 0`, in fixed-point integers.
#[derive(PartialEq, Eq, Structural, Clone, Copy, Debug)]
pub struct Plane {
    pub a: i64,
    pub b: i64,
    pub c: i64,
    pub d: i64,
}

/// One column of a 4x4 view-projection matrix, in fixed-point integers.
#[derive(PartialEq, Eq, Structural, Clone, Copy, Debug)]
pub struct MatCol {
    pub x: i64,
    pub y: i64,
    pub z: i64,
    pub w: i64,
}

/// A column-major 4x4 view-projection matrix, in fixed-point integers.
#[derive(PartialEq, Eq, Structural, Clone, Copy, Debug)]
pub struct Mat4Fixed {
    pub c0: MatCol,
    pub c1: MatCol,
    pub c2: MatCol,
    pub c3: MatCol,
}

/// All sixteen entries within the extraction bound.
pub open spec fn mat_in_bounds(m: Mat4Fixed) -> bool {
    &&& -MAT_BOUND <= m.c0.x <= MAT_BOUND && -MAT_BOUND <= m.c0.y <= MAT_BOUND
    &&& -MAT_BOUND <= m.c0.z <= MAT_BOUND && -MAT_BOUND <= m.c0.w <= MAT_BOUND
    &&& -MAT_BOUND <= m.c1.x <= MAT_BOUND && -MAT_BOUND <= m.c1.y <= MAT_BOUND
    &&& -MAT_BOUND <= m.c1.z <= MAT_BOUND && -MAT_BOUND <= m.c1.w <= MAT_BOUND
    &&& -MAT_BOUND <= m.c2.x <= MAT_BOUND && -MAT_BOUND <= m.c2.y <= MAT_BOUND
    &&& -MAT_BOUND <= m.c2.z <= MAT_BOUND && -MAT_BOUND <= m.c2.w <= MAT_BOUND
    &&& -MAT_BOUND <= m.c3.x <= MAT_BOUND && -MAT_BOUND <= m.c3.y <= MAT_BOUND
    &&& -MAT_BOUND <= m.c3.z <= MAT_BOUND && -MAT_BOUND <= m.c3.w <= MAT_BOUND
}

/// A plane's coefficients within the bound a single extraction can produce.
pub open spec fn plane_in_bounds(p: Plane) -> bool {
    &&& -PLANE_BOUND <= p.a <= PLANE_BOUND
    &&& -PLANE_BOUND <= p.b <= PLANE_BOUND
    &&& -PLANE_BOUND <= p.c <= PLANE_BOUND
    &&& -PLANE_BOUND <= p.d <= PLANE_BOUND
}

/// The box corner test against one plane: pick, per axis, the corner the
/// plane normal points toward, and ask whether it reaches the plane's
/// non-negative side.
pub open spec fn spec_plane_test(
    p: Plane,
    min_x: int,
    min_y: int,
    min_z: int,
    max_x: int,
    max_y: int,
    max_z: int,
) -> bool {
    p.a * (if p.a < 0 {
        min_x
    } else {
        max_x
    }) + p.b * (if p.b < 0 {
        min_y
    } else {
        max_y
    }) + p.c * (if p.c < 0 {
        min_z
    } else {
        max_z
    }) + p.d >= 0
}

/// The six planes extracted from `m` by the row addition and subtraction
/// identity: left and right from the first row, bottom and top from the
/// second, near and far from the third, each against the fourth.
pub open spec fn spec_extracted(m: Mat4Fixed, f: Frustum) -> bool {
    &&& f.left == (Plane {
        a: (m.c0.w + m.c0.x) as i64,
        b: (m.c1.w + m.c1.x) as i64,
        c: (m.c2.w + m.c2.x) as i64,
        d: (m.c3.w + m.c3.x) as i64,
    })
    &&& f.right == (Plane {
        a: (m.c0.w - m.c0.x) as i64,
        b: (m.c1.w - m.c1.x) as i64,
        c: (m.c2.w - m.c2.x) as i64,
        d: (m.c3.w - m.c3.x) as i64,
    })
    &&& f.bottom == (Plane {
        a: (m.c0.w + m.c0.y) as i64,
        b: (m.c1.w + m.c1.y) as i64,
        c: (m.c2.w + m.c2.y) as i64,
        d: (m.c3.w + m.c3.y) as i64,
    })
    &&& f.top == (Plane {
        a: (m.c0.w - m.c0.y) as i64,
        b: (m.c1.w - m.c1.y) as i64,
        c: (m.c2.w - m.c2.y) as i64,
        d: (m.c3.w - m.c3.y) as i64,
    })
    &&& f.near == (Plane {
        a: (m.c0.w + m.c0.z) as i64,
        b: (m.c1.w + m.c1.z) as i64,
        c: (m.c2.w + m.c2.z) as i64,
        d: (m.c3.w + m.c3.z) as i64,
    })
    &&& f.far == (Plane {
        a: (m.c0.w - m.c0.z) as i64,
        b: (m.c1.w - m.c1.z) as i64,
        c: (m.c2.w - m.c2.z) as i64,
        d: (m.c3.w - m.c3.z) as i64,
    })
}

/// The six clip planes of a view frustum.
#[derive(PartialEq, Eq, Structural, Clone, Copy, Debug)]
pub struct Frustum {
    pub left: Plane,
    pub right: Plane,
    pub bottom: Plane,
    pub top: Plane,
    pub near: Plane,
    pub far: Plane,
}

impl Frustum {
    /// All six planes within the extraction bound.
    pub open spec fn wf(&self) -> bool {
        &&& plane_in_bounds(self.left)
        &&& plane_in_bounds(self.right)
        &&& plane_in_bounds(self.bottom)
        &&& plane_in_bounds(self.top)
        &&& plane_in_bounds(self.near)
        &&& plane_in_bounds(self.far)
    }

    /// The box passes the corner test against all six planes.
    pub open spec fn spec_visible(
        &self,
        min_x: int,
        min_y: int,
        min_z: int,
        max_x: int,
        max_y: int,
        max_z: int,
    ) -> bool {
        &&& spec_plane_test(self.left, min_x, min_y, min_z, max_x, max_y, max_z)
        &&& spec_plane_test(self.right, min_x, min_y, min_z, max_x, max_y, max_z)
        &&& spec_plane_test(self.bottom, min_x, min_y, min_z, max_x, max_y, max_z)
        &&& spec_plane_test(self.top, min_x, min_y, min_z, max_x, max_y, max_z)
        &&& spec_plane_test(self.near, min_x, min_y, min_z, max_x, max_y, max_z)
        &&& spec_plane_test(self.far, min_x, min_y, min_z, max_x, max_y, max_z)
    }

    pub fn new() -> (f: Frustum)
        ensures
            f.wf(),
            f.left == (Plane { a: 0, b: 0, c: 0, d: 0 }),
            f.right == (Plane { a: 0, b: 0, c: 0, d: 0 }),
            f.bottom == (Plane { a: 0, b: 0, c: 0, d: 0 }),
            f.top == (Plane { a: 0, b: 0, c: 0, d: 0 }),
            f.near == (Plane { a: 0, b: 0, c: 0, d: 0 }),
            f.far == (Plane { a: 0, b: 0, c: 0, d: 0 }),
    {
        let zero = Plane { a: 0, b: 0, c: 0, d: 0 };
        Frustum { left: zero, right: zero, bottom: zero, top: zero, near: zero, far: zero }
    }

    pub fn from_matrix(m: &Mat4Fixed) -> (f: Frustum)
        requires
            mat_in_bounds(*m),
        ensures
            f.wf(),
            spec_extracted(*m, f),
    {
        let mut frustum = Frustum::new();
        frustum.set(m);
        frustum
    }

    /// Extract the six clip planes of `m` into this frustum.
    pub fn set(&mut self, m: &Mat4Fixed)
        requires
            mat_in_bounds(*m),
        ensures
            final(self).wf(),
            spec_extracted(*m, *final(self)),
    {
        self.left = Plane {
            a: m.c0.w + m.c0.x,
            b: m.c1.w + m.c1.x,
            c: m.c2.w + m.c2.x,
            d: m.c3.w + m.c3.x,
        };
        self.right = Plane {
            a: m.c0.w - m.c0.x,
            b: m.c1.w - m.c1.x,
            c: m.c2.w - m.c2.x,
            d: m.c3.w - m.c3.x,
        };
        self.bottom = Plane {
            a: m.c0.w + m.c0.y,
            b: m.c1.w + m.c1.y,
            c: m.c2.w + m.c2.y,
            d: m.c3.w + m.c3.y,
        };
        self.top = Plane {
            a: m.c0.w - m.c0.y,
            b: m.c1.w - m.c1.y,
            c: m.c2.w - m.c2.y,
            d: m.c3.w - m.c3.y,
        };
        self.near = Plane {
            a: m.c0.w + m.c0.z,
            b: m.c1.w + m.c1.z,
            c: m.c2.w + m.c2.z,
            d: m.c3.w + m.c3.z,
        };
        self.far = Plane {
            a: m.c0.w - m.c0.z,
            b: m.c1.w - m.c1.z,
            c: m.c2.w - m.c2.z,
            d: m.c3.w - m.c3.z,
        };
    }

    /// Test an axis-aligned box against all six planes: true means the box
    /// may intersect the frustum, false means it is fully outside some
    /// plane. Conservative, but never rejects a visible box.
    pub fn test_aabb(&self, min: (i64, i64, i64), max: (i64, i64, i64)) -> (r: bool)
        requires
            self.wf(),
            -COORD_BOUND <= min.0 <= COORD_BOUND,
            -COORD_BOUND <= min.1 <= COORD_BOUND,
            -COORD_BOUND <= min.2 <= COORD_BOUND,
            -COORD_BOUND <= max.0 <= COORD_BOUND,
            -COORD_BOUND <= max.1 <= COORD_BOUND,
            -COORD_BOUND <= max.2 <= COORD_BOUND,
        ensures
            r == self.spec_visible(
                min.0 as int,
                min.1 as int,
                min.2 as int,
                max.0 as int,
                max.1 as int,
                max.2 as int,
            ),
    {
        plane_test(&self.left, min, max) && plane_test(&self.right, min, max) && plane_test(
            &self.bottom,
            min,
            max,
        ) && plane_test(&self.top, min, max) && plane_test(&self.near, min, max) && plane_test(
            &self.far,
            min,
            max,
        )
    }
}

/// Evaluate the corner test against one plane in 128-bit arithmetic.
fn plane_test(p: &Plane, min: (i64, i64, i64), max: (i64, i64, i64)) -> (r: bool)
    requires
        plane_in_bounds(*p),
        -COORD_BOUND <= min.0 <= COORD_BOUND,
        -COORD_BOUND <= min.1 <= COORD_BOUND,
        -COORD_BOUND <= min.2 <= COORD_BOUND,
        -COORD_BOUND <= max.0 <= COORD_BOUND,
        -COORD_BOUND <= max.1 <= COORD_BOUND,
        -COORD_BOUND <= max.2 <= COORD_BOUND,
    ensures
        r == spec_plane_test(
            *p,
            min.0 as int,
            min.1 as int,
            min.2 as int,
            max.0 as int,
            max.1 as int,
            max.2 as int,
        ),
{
    let px: i128 = if p.a < 0 {
        min.0 as i128
    } else {
        max.0 as i128
    };
    let py: i128 = if p.b < 0 {
        min.1 as i128
    } else {
        max.1 as i128
    };
    let pz: i128 = if p.c < 0 {
        min.2 as i128
    } else {
        max.2 as i128
    };
    proof {
        lemma_product_bound(p.a as int, px as int);
        lemma_product_bound(p.b as int, py as int);
        lemma_product_bound(p.c as int, pz as int);
    }
    let sum: i128 = (p.a as i128) * px + (p.b as i128) * py + (p.c as i128) * pz + (p.d as i128);
    sum >= 0
}

/// A bounded coefficient times a bounded coordinate stays far inside the
/// 128-bit range.
proof fn lemma_product_bound(a: int, x: int)
    requires
        -PLANE_BOUND <= a <= PLANE_BOUND,
        -COORD_BOUND <= x <= COORD_BOUND,
    ensures
        -0x8000_0000_0000_0000_0000_0000 <= a * x <= 0x8000_0000_0000_0000_0000_0000,
{
    assert(-0x8000_0000_0000_0000_0000_0000 <= a * x <= 0x8000_0000_0000_0000_0000_0000)
        by (nonlinear_arith)
        requires
            -0x8000_0000_0000 <= a <= 0x8000_0000_0000,
            -0x100_0000_0000 <= x <= 0x100_0000_0000,
    ;
}

/// Scaling a plane by a positive factor does not change the corner test:
/// this is why the integer model may skip the float normalization step,
/// which only rescales each plane.
pub proof fn lemma_plane_test_scale_invariant(
    p: Plane,
    q: Plane,
    k: int,
    min_x: int,
    min_y: int,
    min_z: int,
    max_x: int,
    max_y: int,
    max_z: int,
)
    requires
        k > 0,
        q.a == k * p.a,
        q.b == k * p.b,
        q.c == k * p.c,
        q.d == k * p.d,
    ensures
        spec_plane_test(q, min_x, min_y, min_z, max_x, max_y, max_z) == spec_plane_test(
            p,
            min_x,
            min_y,
            min_z,
            max_x,
            max_y,
            max_z,
        ),
{
    assert(q.a < 0 <==> p.a < 0) by (nonlinear_arith)
        requires
            k > 0,
            q.a == k * p.a,
    ;
    assert(q.b < 0 <==> p.b < 0) by (nonlinear_arith)
        requires
            k > 0,
            q.b == k * p.b,
    ;
    assert(q.c < 0 <==> p.c < 0) by (nonlinear_arith)
        requires
            k > 0,
            q.c == k * p.c,
    ;
    let sx = if p.a < 0 {
        min_x
    } else {
        max_x
    };
    let sy = if p.b < 0 {
        min_y
    } else {
        max_y
    };
    let sz = if p.c < 0 {
        min_z
    } else {
        max_z
    };
    let pa = p.a as int;
    let pb = p.b as int;
    let pc = p.c as int;
    let pd = p.d as int;
    let psum = pa * sx + pb * sy + pc * sz + pd;
    assert((k * pa) * sx == k * (pa * sx)) by (nonlinear_arith);
    assert((k * pb) * sy == k * (pb * sy)) by (nonlinear_arith);
    assert((k * pc) * sz == k * (pc * sz)) by (nonlinear_arith);
    assert(k * (pa * sx) + k * (pb * sy) + k * (pc * sz) + k * pd == k * psum) by (nonlinear_arith)
        requires
            psum == pa * sx + pb * sy + pc * sz + pd,
    ;
    assert((k * psum >= 0) == (psum >= 0)) by (nonlinear_arith)
        requires
            k > 0,
    ;
}

} // verus!
