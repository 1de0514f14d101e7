//! Angles and projections, over functions that a caller hands in.
use crate::arithmetic;
use crate::geometry;
use crate::scalar::Point;
use vstd::prelude::*;

verus! {

/// A point in clip space, or a column of a matrix.
#[derive(Clone, Copy, Debug, Default, PartialEq, Eq, Structural)]
pub struct Clip {
    pub x: u32,
    pub y: u32,
    pub z: u32,
    pub w: u32,
}

impl Clip {
    pub open spec fn finite(self) -> bool {
        &&& crate::scalar::finite(self.x)
        &&& crate::scalar::finite(self.y)
        &&& crate::scalar::finite(self.z)
        &&& crate::scalar::finite(self.w)
    }

    pub fn is_finite(&self) -> (result: bool)
        ensures
            result == self.finite(),
    {
        crate::scalar::is_finite(self.x) && crate::scalar::is_finite(self.y)
            && crate::scalar::is_finite(self.z) && crate::scalar::is_finite(self.w)
    }
}

/// A matrix, column by column.
#[derive(Clone, Copy, Debug, Default, PartialEq, Eq, Structural)]
pub struct Matrix {
    pub x: Clip,
    pub y: Clip,
    pub z: Clip,
    pub w: Clip,
}

impl Matrix {
    pub open spec fn finite(self) -> bool {
        self.x.finite() && self.y.finite() && self.z.finite() && self.w.finite()
    }

    pub fn is_finite(&self) -> (result: bool)
        ensures
            result == self.finite(),
    {
        self.x.is_finite() && self.y.is_finite() && self.z.is_finite() && self.w.is_finite()
    }
}

/// What a perspective view is made of. It goes from the eye to the target, with Z upright, and the
/// field of view is the vertical one.
#[derive(Clone, Copy, Debug, PartialEq, Eq, Structural)]
pub struct View {
    pub eye: Point,
    pub target: Point,
    pub field_of_view: u32,
    pub aspect: u32,
    pub near: u32,
    pub far: u32,
}

/// The functions of angles, and the matrices of a view.
pub trait Optics: Sized {
    /// Whether every function can be called, and gives equal arguments equal results.
    spec fn total(&self) -> bool;

    spec fn spec_sine(&self, angle: u32) -> u32;

    spec fn spec_cosine(&self, angle: u32) -> u32;

    spec fn spec_tangent(&self, angle: u32) -> u32;

    spec fn spec_arc_sine(&self, value: u32) -> u32;

    spec fn spec_arc_tangent(&self, y: u32, x: u32) -> u32;

    spec fn spec_exponential(&self, value: u32) -> u32;

    spec fn spec_remainder(&self, value: u32, modulus: u32) -> u32;

    spec fn spec_view_projection(&self, view: View) -> Matrix;

    spec fn spec_inverse(&self, matrix: Matrix) -> Matrix;

    spec fn spec_transform(&self, matrix: Matrix, clip: Clip) -> Clip;

    fn sine(&self, angle: u32) -> (result: u32)
        requires
            self.total(),
        ensures
            result == self.spec_sine(angle),
    ;

    fn cosine(&self, angle: u32) -> (result: u32)
        requires
            self.total(),
        ensures
            result == self.spec_cosine(angle),
    ;

    fn tangent(&self, angle: u32) -> (result: u32)
        requires
            self.total(),
        ensures
            result == self.spec_tangent(angle),
    ;

    fn arc_sine(&self, value: u32) -> (result: u32)
        requires
            self.total(),
        ensures
            result == self.spec_arc_sine(value),
    ;

    /// The angle of a point in the plane.
    fn arc_tangent(&self, y: u32, x: u32) -> (result: u32)
        requires
            self.total(),
        ensures
            result == self.spec_arc_tangent(y, x),
    ;

    fn exponential(&self, value: u32) -> (result: u32)
        requires
            self.total(),
        ensures
            result == self.spec_exponential(value),
    ;

    /// The least remainder that is not negative.
    fn remainder(&self, value: u32, modulus: u32) -> (result: u32)
        requires
            self.total(),
        ensures
            result == self.spec_remainder(value, modulus),
    ;

    /// The matrix that takes the world to clip space.
    fn view_projection(&self, view: View) -> (result: Matrix)
        requires
            self.total(),
        ensures
            result == self.spec_view_projection(view),
    ;

    fn inverse(&self, matrix: Matrix) -> (result: Matrix)
        requires
            self.total(),
        ensures
            result == self.spec_inverse(matrix),
    ;

    fn transform(&self, matrix: Matrix, clip: Clip) -> (result: Clip)
        requires
            self.total(),
        ensures
            result == self.spec_transform(matrix, clip),
    ;
}

/// The functions of a caller, one for each function of a view.
pub struct Lens<S, C, T, N, A, E, R, V, I, M> {
    pub sine: S,
    pub cosine: C,
    pub tangent: T,
    pub arc_sine: N,
    pub arc_tangent: A,
    pub exponential: E,
    pub remainder: R,
    pub view_projection: V,
    pub inverse: I,
    pub transform: M,
}

impl<S, C, T, N, A, E, R, V, I, M> Optics for Lens<S, C, T, N, A, E, R, V, I, M> where
    S: Fn(u32) -> u32,
    C: Fn(u32) -> u32,
    T: Fn(u32) -> u32,
    N: Fn(u32) -> u32,
    A: Fn(u32, u32) -> u32,
    E: Fn(u32) -> u32,
    R: Fn(u32, u32) -> u32,
    V: Fn(View) -> Matrix,
    I: Fn(Matrix) -> Matrix,
    M: Fn((Matrix, Clip)) -> Clip,
 {
    open spec fn total(&self) -> bool {
        &&& arithmetic::converts::<u32, S>(self.sine)
        &&& arithmetic::converts::<u32, C>(self.cosine)
        &&& arithmetic::converts::<u32, T>(self.tangent)
        &&& arithmetic::converts::<u32, N>(self.arc_sine)
        &&& arithmetic::combines(self.arc_tangent)
        &&& arithmetic::converts::<u32, E>(self.exponential)
        &&& arithmetic::combines(self.remainder)
        &&& geometry::answers::<View, Matrix, V>(self.view_projection)
        &&& geometry::answers::<Matrix, Matrix, I>(self.inverse)
        &&& geometry::answers::<(Matrix, Clip), Clip, M>(self.transform)
    }

    open spec fn spec_sine(&self, angle: u32) -> u32 {
        arithmetic::converted(self.sine, angle)
    }

    open spec fn spec_cosine(&self, angle: u32) -> u32 {
        arithmetic::converted(self.cosine, angle)
    }

    open spec fn spec_tangent(&self, angle: u32) -> u32 {
        arithmetic::converted(self.tangent, angle)
    }

    open spec fn spec_arc_sine(&self, value: u32) -> u32 {
        arithmetic::converted(self.arc_sine, value)
    }

    open spec fn spec_arc_tangent(&self, y: u32, x: u32) -> u32 {
        arithmetic::combined(self.arc_tangent, y, x)
    }

    open spec fn spec_exponential(&self, value: u32) -> u32 {
        arithmetic::converted(self.exponential, value)
    }

    open spec fn spec_remainder(&self, value: u32, modulus: u32) -> u32 {
        arithmetic::combined(self.remainder, value, modulus)
    }

    open spec fn spec_view_projection(&self, view: View) -> Matrix {
        geometry::of(self.view_projection, view)
    }

    open spec fn spec_inverse(&self, matrix: Matrix) -> Matrix {
        geometry::of(self.inverse, matrix)
    }

    open spec fn spec_transform(&self, matrix: Matrix, clip: Clip) -> Clip {
        geometry::of(self.transform, (matrix, clip))
    }

    fn sine(&self, angle: u32) -> u32 {
        (self.sine)(angle)
    }

    fn cosine(&self, angle: u32) -> u32 {
        (self.cosine)(angle)
    }

    fn tangent(&self, angle: u32) -> u32 {
        (self.tangent)(angle)
    }

    fn arc_sine(&self, value: u32) -> u32 {
        (self.arc_sine)(value)
    }

    fn arc_tangent(&self, y: u32, x: u32) -> u32 {
        (self.arc_tangent)(y, x)
    }

    fn exponential(&self, value: u32) -> u32 {
        (self.exponential)(value)
    }

    fn remainder(&self, value: u32, modulus: u32) -> u32 {
        (self.remainder)(value, modulus)
    }

    fn view_projection(&self, view: View) -> Matrix {
        (self.view_projection)(view)
    }

    fn inverse(&self, matrix: Matrix) -> Matrix {
        (self.inverse)(matrix)
    }

    fn transform(&self, matrix: Matrix, clip: Clip) -> Clip {
        (self.transform)((matrix, clip))
    }
}

} // verus!
