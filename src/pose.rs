use vstd::prelude::*;

verus! {

/// A spatial transform that can be chained with another one.
///
/// `compose(outer, inner)` is the transform that applies `inner` first and
/// `outer` second, so that a child's absolute pose is
/// `compose(parent_world, child_local)`.
pub trait Pose: Sized + Copy {
    /// The transform applying `inner` first and then `outer`.
    spec fn compose(outer: Self, inner: Self) -> Self;

    /// The transform that leaves every point where it is.
    spec fn neutral() -> Self;

    /// Signed distance along the viewing axis of the point that this
    /// transform carries the origin to.
    spec fn depth(self) -> int;

    fn identity() -> (r: Self)
        ensures
            r == Self::neutral(),
    ;

    fn concat(&self, other: &Self) -> (r: Self)
        ensures
            r == Self::compose(*self, *other),
    ;

    fn view_depth(&self) -> (r: i64)
        ensures
            r as int == self.depth(),
    ;
}

/// A point or direction with integer coordinates.
#[derive(Clone, Copy, Debug, PartialEq, Eq, Structural)]
pub struct Vector3 {
    pub x: i64,
    pub y: i64,
    pub z: i64,
}

/// Integer affine transform: `p -> rows * p + disp`, with the arithmetic of
/// 64-bit two's complement integers.
///
/// Rotations by quarter turns, reflections, integer scales and integer
/// displacements are represented exactly.
#[derive(Clone, Copy, Debug, PartialEq, Eq, Structural)]
pub struct Affine {
    /// First row of the linear part.
    pub rx: Vector3,
    /// Second row of the linear part.
    pub ry: Vector3,
    /// Third row of the linear part.
    pub rz: Vector3,
    /// Displacement applied after the linear part.
    pub disp: Vector3,
}

/// `a * b + c` in wrapping arithmetic.
pub open spec fn mul_add(a: i64, b: i64, c: i64) -> i64 {
    a.wrapping_mul(b).wrapping_add(c)
}

/// Dot product of `row` with the column `(c0, c1, c2)`, plus `extra`,
/// in wrapping arithmetic.
pub open spec fn dot_add(row: Vector3, c0: i64, c1: i64, c2: i64, extra: i64) -> i64 {
    mul_add(row.x, c0, mul_add(row.y, c1, mul_add(row.z, c2, extra)))
}

/// The row `row` of the product `outer * inner` of two linear parts.
pub open spec fn row_times(row: Vector3, inner: Affine) -> Vector3 {
    Vector3 {
        x: dot_add(row, inner.rx.x, inner.ry.x, inner.rz.x, 0),
        y: dot_add(row, inner.rx.y, inner.ry.y, inner.rz.y, 0),
        z: dot_add(row, inner.rx.z, inner.ry.z, inner.rz.z, 0),
    }
}

/// `outer` applied after `inner`: linear parts multiplied, the inner
/// displacement carried through the outer transform.
pub open spec fn affine_compose(outer: Affine, inner: Affine) -> Affine {
    Affine {
        rx: row_times(outer.rx, inner),
        ry: row_times(outer.ry, inner),
        rz: row_times(outer.rz, inner),
        disp: Vector3 {
            x: dot_add(outer.rx, inner.disp.x, inner.disp.y, inner.disp.z, outer.disp.x),
            y: dot_add(outer.ry, inner.disp.x, inner.disp.y, inner.disp.z, outer.disp.y),
            z: dot_add(outer.rz, inner.disp.x, inner.disp.y, inner.disp.z, outer.disp.z),
        },
    }
}

pub open spec fn vec3(x: int, y: int, z: int) -> Vector3 {
    Vector3 { x: x as i64, y: y as i64, z: z as i64 }
}

pub open spec fn affine_identity() -> Affine {
    Affine { rx: vec3(1, 0, 0), ry: vec3(0, 1, 0), rz: vec3(0, 0, 1), disp: vec3(0, 0, 0) }
}

fn exec_dot_add(row: &Vector3, c0: i64, c1: i64, c2: i64, extra: i64) -> (r: i64)
    ensures
        r == dot_add(*row, c0, c1, c2, extra),
{
    let t = row.z.wrapping_mul(c2).wrapping_add(extra);
    let t = row.y.wrapping_mul(c1).wrapping_add(t);
    row.x.wrapping_mul(c0).wrapping_add(t)
}

fn exec_row_times(row: &Vector3, inner: &Affine) -> (r: Vector3)
    ensures
        r == row_times(*row, *inner),
{
    Vector3 {
        x: exec_dot_add(row, inner.rx.x, inner.ry.x, inner.rz.x, 0),
        y: exec_dot_add(row, inner.rx.y, inner.ry.y, inner.rz.y, 0),
        z: exec_dot_add(row, inner.rx.z, inner.ry.z, inner.rz.z, 0),
    }
}

impl Vector3 {
    pub fn new(x: i64, y: i64, z: i64) -> (r: Vector3)
        ensures
            r == (Vector3 { x, y, z }),
    {
        Vector3 { x, y, z }
    }
}

impl Affine {
    /// Pure displacement by `(x, y, z)`.
    pub fn translation(x: i64, y: i64, z: i64) -> (r: Affine)
        ensures
            r == (Affine { disp: Vector3 { x, y, z }, ..affine_identity() }),
    {
        Affine {
            rx: Vector3::new(1, 0, 0),
            ry: Vector3::new(0, 1, 0),
            rz: Vector3::new(0, 0, 1),
            disp: Vector3::new(x, y, z),
        }
    }

    /// Rotation by `quarters` quarter turns counter-clockwise about the Z axis.
    pub fn rotation_z(quarters: u8) -> (r: Affine)
        ensures
            r.disp == vec3(0, 0, 0),
            r.rz == vec3(0, 0, 1),
            quarters % 4 == 0 ==> r.rx == vec3(1, 0, 0) && r.ry == vec3(0, 1, 0),
            quarters % 4 == 1 ==> r.rx == vec3(0, -1, 0) && r.ry == vec3(1, 0, 0),
            quarters % 4 == 2 ==> r.rx == vec3(-1, 0, 0) && r.ry == vec3(0, -1, 0),
            quarters % 4 == 3 ==> r.rx == vec3(0, 1, 0) && r.ry == vec3(-1, 0, 0),
    {
        let q = quarters % 4;
        let (c, s): (i64, i64) = if q == 0 {
            (1, 0)
        } else if q == 1 {
            (0, 1)
        } else if q == 2 {
            (-1, 0)
        } else {
            (0, -1)
        };
        Affine {
            rx: Vector3::new(c, -s, 0),
            ry: Vector3::new(s, c, 0),
            rz: Vector3::new(0, 0, 1),
            disp: Vector3::new(0, 0, 0),
        }
    }

    /// Uniform scale by `factor`.
    pub fn scale(factor: i64) -> (r: Affine)
        ensures
            r == (Affine {
                rx: vec3(factor as int, 0, 0),
                ry: vec3(0, factor as int, 0),
                rz: vec3(0, 0, factor as int),
                disp: vec3(0, 0, 0),
            }),
    {
        Affine {
            rx: Vector3::new(factor, 0, 0),
            ry: Vector3::new(0, factor, 0),
            rz: Vector3::new(0, 0, factor),
            disp: Vector3::new(0, 0, 0),
        }
    }
}

impl Pose for Affine {
    open spec fn compose(outer: Affine, inner: Affine) -> Affine {
        affine_compose(outer, inner)
    }

    open spec fn neutral() -> Affine {
        affine_identity()
    }

    open spec fn depth(self) -> int {
        self.disp.z as int
    }

    fn identity() -> (r: Affine) {
        Affine::translation(0, 0, 0)
    }

    fn concat(&self, other: &Affine) -> (r: Affine) {
        Affine {
            rx: exec_row_times(&self.rx, other),
            ry: exec_row_times(&self.ry, other),
            rz: exec_row_times(&self.rz, other),
            disp: Vector3 {
                x: exec_dot_add(&self.rx, other.disp.x, other.disp.y, other.disp.z, self.disp.x),
                y: exec_dot_add(&self.ry, other.disp.x, other.disp.y, other.disp.z, self.disp.y),
                z: exec_dot_add(&self.rz, other.disp.x, other.disp.y, other.disp.z, self.disp.z),
            },
        }
    }

    fn view_depth(&self) -> (r: i64) {
        self.disp.z
    }
}

} // verus!
