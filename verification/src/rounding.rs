//! What follows for meshes from a few things that machine arithmetic keeps to however it rounds.
use crate::arithmetic;
use crate::arithmetic::Arithmetic;
use crate::deform;
use crate::mesh;
use crate::mesh::Mesh;
use crate::scalar;
use crate::scalar::Point;
use crate::shapes;
use crate::shapes::Solid;
use crate::topology;
use vstd::prelude::*;

verus! {

/// Whether two patterns are the same, or neither is a number.
pub open spec fn alike(a: u32, b: u32) -> bool {
    a == b || (scalar::nan(a) && scalar::nan(b))
}

/// Whether the square of a difference does not depend on which number is taken from which.
pub open spec fn squares_ignore_sign<O: Arithmetic>(ops: &O) -> bool {
    forall|p: u32, q: u32| #[trigger]
        alike(
            ops.spec_product(ops.spec_difference(p, q), ops.spec_difference(p, q)),
            ops.spec_product(ops.spec_difference(q, p), ops.spec_difference(q, p)),
        )
}

/// Whether a sum with what is not a number is not a number.
pub open spec fn sums_keep_nan<O: Arithmetic>(ops: &O) -> bool {
    forall|a: u32, b: u32|
        scalar::nan(a) || scalar::nan(b) ==> scalar::nan(#[trigger] ops.spec_sum(a, b))
}

/// Whether what is not finite has no finite square, and is in no finite sum.
pub open spec fn excess_stays<O: Arithmetic>(ops: &O) -> bool {
    &&& forall|a: u32| !scalar::finite(a) ==> !scalar::finite(#[trigger] ops.spec_product(a, a))
    &&& forall|a: u32, b: u32|
        !scalar::finite(a) || !scalar::finite(b) ==> !scalar::finite(
            #[trigger] ops.spec_sum(a, b),
        )
}

/// Whether a vector's coordinates are differences, and another's are the same ones the other way
/// round.
spec fn turned_round<O: Arithmetic>(ops: &O, u: Point, v: Point, p: Point, q: Point) -> bool {
    &&& u == arithmetic::spec_minus(ops, p, q)
    &&& v == arithmetic::spec_minus(ops, q, p)
}

proof fn lemma_lengths_alike<O: Arithmetic>(ops: &O, u: Point, v: Point, p: Point, q: Point)
    requires
        squares_ignore_sign(ops),
        sums_keep_nan(ops),
        turned_round(ops, u, v, p, q),
    ensures
        alike(shapes::length_squared(ops, u), shapes::length_squared(ops, v)),
{
    let (ux, uy, uz) = (
        ops.spec_product(u.x, u.x),
        ops.spec_product(u.y, u.y),
        ops.spec_product(u.z, u.z),
    );
    let (vx, vy, vz) = (
        ops.spec_product(v.x, v.x),
        ops.spec_product(v.y, v.y),
        ops.spec_product(v.z, v.z),
    );
    assert(alike(ux, vx));
    assert(alike(uy, vy));
    assert(alike(uz, vz));
    let (a, b) = (ops.spec_sum(ux, uy), ops.spec_sum(vx, vy));
    assert(alike(a, b));
    assert(alike(ops.spec_sum(a, uz), ops.spec_sum(b, vz)));
}

/// Two longest sides that are the same but for the order in which sides are compared.
proof fn lemma_longest_alike(x: u32, y: u32, z: u32, w: u32)
    requires
        alike(z, w),
    ensures
        ({
            let a = scalar::greatest(scalar::greatest(x, y), z);
            let b = scalar::greatest(scalar::greatest(y, x), w);
            alike(a, b) || (!scalar::lt(scalar::ZERO, a) && !scalar::lt(scalar::ZERO, b))
        }),
{
}

/// A triangle and its reverse have the same use, as far as the arithmetic keeps to what it should.
pub proof fn reversing_keeps_the_shape<O: Arithmetic>(solid: &Solid<O>)
    requires
        squares_ignore_sign(&solid.ops),
        sums_keep_nan(&solid.ops),
    ensures
        mesh::shape_ignores_winding(solid),
{
    let ops = &solid.ops;
    assert forall|a: Point, b: Point, c: Point|
        shapes::forms_valid_triangle(ops, a, b, c) == shapes::forms_valid_triangle(
            ops,
            a,
            c,
            b,
        ) by {
        let ab = arithmetic::spec_minus(ops, b, a);
        let ac = arithmetic::spec_minus(ops, c, a);
        let bc = arithmetic::spec_minus(ops, c, b);
        let cb = arithmetic::spec_minus(ops, b, c);
        lemma_lengths_alike(ops, bc, cb, c, b);
        let p = Point {
            x: ops.spec_product(ab.y, ac.z),
            y: ops.spec_product(ab.z, ac.x),
            z: ops.spec_product(ab.x, ac.y),
        };
        let q = Point {
            x: ops.spec_product(ac.y, ab.z),
            y: ops.spec_product(ac.z, ab.x),
            z: ops.spec_product(ac.x, ab.y),
        };
        let one = arithmetic::spec_cross(ops, ab, ac);
        let other = arithmetic::spec_cross(ops, ac, ab);
        lemma_lengths_alike(ops, one, other, p, q);
        lemma_longest_alike(
            shapes::length_squared(ops, ab),
            shapes::length_squared(ops, ac),
            shapes::length_squared(ops, bc),
            shapes::length_squared(ops, cb),
        );
    }
}

/// A face with an area has a finite normal, as far as the arithmetic keeps to what it should.
pub proof fn usable_faces_have_finite_normals<O: Arithmetic>(
    solid: &Solid<O>,
    mesh: Mesh,
    face: u32,
)
    requires
        excess_stays(&solid.ops),
        mesh::usable(solid, mesh.positions@, mesh.triangles@[face as int]),
    ensures
        deform::face_cross(solid, mesh, face).finite(),
{
    let ops = &solid.ops;
    let cross = deform::face_cross(solid, mesh, face);
    let (x, y, z) = (
        ops.spec_product(cross.x, cross.x),
        ops.spec_product(cross.y, cross.y),
        ops.spec_product(cross.z, cross.z),
    );
    assert(scalar::finite(ops.spec_sum(ops.spec_sum(x, y), z)));
    assert(scalar::finite(ops.spec_sum(x, y)) && scalar::finite(z));
    assert(scalar::finite(x) && scalar::finite(y));
}

/// Where every face has an area, bringing normals up to date around moved vertices needs no more.
pub proof fn usable_faces_are_finite_around<O: Arithmetic>(
    solid: &Solid<O>,
    mesh: Mesh,
    moved: Seq<u32>,
)
    requires
        excess_stays(&solid.ops),
        forall|f: int|
            0 <= f < mesh.triangles@.len() ==> mesh::usable(
                solid,
                mesh.positions@,
                #[trigger] mesh.triangles@[f],
            ),
    ensures
        deform::finite_around(solid, mesh, moved),
{
    assert forall|v: u32, f: u32|
        deform::shares_face(mesh.triangles@, v, moved) && f < mesh.triangles@.len()
            && #[trigger] topology::is_corner(
            mesh.triangles@[f as int],
            v,
        ) implies deform::face_cross(solid, mesh, f).finite() by {
        usable_faces_have_finite_normals(solid, mesh, f);
    }
}

} // verus!
