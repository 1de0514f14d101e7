//! What the grid over a box comes to, in numbers.
use crate::arithmetic::Arithmetic;
use crate::meaning;
use crate::meaning::{is_rounding, value};
use crate::scalar;
use crate::scalar::Point;
use crate::voxel_remesh::GridRequest;
use crate::wide;
use crate::wide::WideArithmetic;
use crate::wide_meaning;
use crate::wide_meaning::{wide_fits, wide_rounds, wide_value};
use vstd::prelude::*;

verus! {

/// How far a box goes along each axis.
pub open spec fn extents<N: Arithmetic>(narrow: &N, request: GridRequest) -> Seq<u32> {
    seq![
        narrow.spec_difference(request.max.x, request.min.x),
        narrow.spec_difference(request.max.y, request.min.y),
        narrow.spec_difference(request.max.z, request.min.z),
    ]
}

/// The longest axis that is measured is the extent of the box along one of its axes, and the box
/// goes no farther along any.
pub proof fn the_longest_axis_is_the_longest<N: Arithmetic, O: WideArithmetic>(
    narrow: &N,
    ops: &O,
    request: GridRequest,
) -> (axis: int)
    requires
        forall|i: int| 0 <= i < 3 ==> scalar::finite(#[trigger] extents(narrow, request)[i]),
    ensures
        0 <= axis < 3,
        wide::measure_of(narrow, ops, request).longest_axis == ops.spec_widened(
            extents(narrow, request)[axis],
        ),
        forall|i: int|
            0 <= i < 3 ==> scalar::le(
                #[trigger] extents(narrow, request)[i],
                extents(narrow, request)[axis],
            ),
{
    let all = extents(narrow, request);
    assert(scalar::finite(all[0]) && scalar::finite(all[1]) && scalar::finite(all[2]));
    if scalar::lt(all[0], all[1]) {
        if scalar::lt(all[1], all[2]) {
            2
        } else {
            1
        }
    } else if scalar::lt(all[0], all[2]) {
        2
    } else {
        0
    }
}

/// A box with its first two axes exchanged.
pub open spec fn turned(request: GridRequest) -> GridRequest {
    GridRequest {
        min: Point { x: request.min.y, y: request.min.x, z: request.min.z },
        max: Point { x: request.max.y, y: request.max.x, z: request.max.z },
        resolution: request.resolution,
    }
}

/// A box with its axes moved on by one.
pub open spec fn rolled(request: GridRequest) -> GridRequest {
    GridRequest {
        min: Point { x: request.min.y, y: request.min.z, z: request.min.x },
        max: Point { x: request.max.y, y: request.max.z, z: request.max.x },
        resolution: request.resolution,
    }
}

/// Cells are as large however the box is turned, and its padded axes turn with it. The two boxes
/// here are enough for every order of the three axes.
pub proof fn cells_do_not_depend_on_how_the_box_is_turned<N: Arithmetic, O: WideArithmetic>(
    narrow: &N,
    ops: &O,
    request: GridRequest,
)
    requires
        forall|i: int| 0 <= i < 3 ==> scalar::finite(#[trigger] extents(narrow, request)[i]),
        exists|i: int| 0 <= i < 3 && scalar::lt(scalar::ZERO, #[trigger] extents(narrow, request)[i]),
    ensures
        ({
            let measure = wide::measure_of(narrow, ops, request);
            let other = wide::measure_of(narrow, ops, turned(request));
            let third = wide::measure_of(narrow, ops, rolled(request));
            &&& other.longest_axis == measure.longest_axis
            &&& other.voxel_size == measure.voxel_size
            &&& other.x == measure.y && other.y == measure.x && other.z == measure.z
            &&& third.longest_axis == measure.longest_axis
            &&& third.voxel_size == measure.voxel_size
            &&& third.x == measure.y && third.y == measure.z && third.z == measure.x
        }),
{
    let all = extents(narrow, request);
    assert(scalar::finite(all[0]) && scalar::finite(all[1]) && scalar::finite(all[2]));
    assert(scalar::lt(scalar::ZERO, all[0]) || scalar::lt(scalar::ZERO, all[1]) || scalar::lt(
        scalar::ZERO,
        all[2],
    ));
}

/// The cells divide the longest axis: as many of them as were asked for go along it.
pub proof fn cells_divide_the_longest_axis<N: Arithmetic, O: WideArithmetic>(
    narrow: &N,
    ops: &O,
    round: spec_fn(real) -> u64,
    request: GridRequest,
    axis: int,
)
    requires
        wide_rounds(ops, round),
        forall|i: int| 0 <= i < 3 ==> scalar::finite(#[trigger] extents(narrow, request)[i]),
        0 <= axis < 3,
        forall|i: int|
            0 <= i < 3 ==> value(#[trigger] extents(narrow, request)[i]) <= value(
                extents(narrow, request)[axis],
            ),
        request.resolution > 0,
        wide_fits(value(extents(narrow, request)[axis]) / (request.resolution as real)),
    ensures
        scalar::wide_finite(wide::measure_of(narrow, ops, request).voxel_size),
        wide_value(wide::measure_of(narrow, ops, request).voxel_size) * (request.resolution as real)
            == value(extents(narrow, request)[axis]),
        wide_value(wide::measure_of(narrow, ops, request).longest_axis) == value(
            extents(narrow, request)[axis],
        ),
{
    let all = extents(narrow, request);
    let measure = wide::measure_of(narrow, ops, request);
    let found = the_longest_axis_is_the_longest(narrow, ops, request);
    assert(scalar::finite(all[found]) && scalar::finite(all[axis]));
    meaning::values_are_ordered(all[found], all[axis]);
    meaning::values_are_ordered(all[axis], all[found]);
    assert(value(all[found]) <= value(all[axis]));
    assert(scalar::le(all[axis], all[found]));
    wide_meaning::lemma_widened(ops, round, all[found]);
    wide_meaning::lemma_wide_count(ops, round, request.resolution);
    wide_meaning::lemma_wide_quotient(
        ops,
        round,
        measure.longest_axis,
        ops.spec_count(request.resolution),
    );
    let (l, n) = (value(all[axis]), request.resolution as real);
    assert(l / n * n == l) by (nonlinear_arith)
        requires
            n > 0 as real,
    ;
}

/// Whether narrowing rounds.
pub open spec fn narrows<O: WideArithmetic>(ops: &O, round: spec_fn(real) -> u32) -> bool {
    &&& is_rounding(round)
    &&& forall|a: u64|
        scalar::wide_finite(a) ==> scalar::same(
            #[trigger] ops.spec_narrowed(a),
            round(wide_value(a)),
        )
}

/// Along each axis the box is padded by two cells on either side, and the steps go one cell inwards
/// again. What is narrowed stands for the same numbers where single precision holds them.
pub proof fn a_box_is_padded_by_two_cells<O: WideArithmetic>(
    ops: &O,
    round: spec_fn(real) -> u64,
    thin: spec_fn(real) -> u32,
    min: u32,
    max: u32,
    voxel: u64,
)
    requires
        wide_rounds(ops, round),
        narrows(ops, thin),
        scalar::finite(min) && scalar::finite(max) && scalar::wide_finite(voxel),
        wide_fits(2 as real * wide_value(voxel)),
        wide_fits(value(min) - 2 as real * wide_value(voxel)),
        wide_fits(value(max) + 2 as real * wide_value(voxel)),
        wide_fits(value(min) - wide_value(voxel)),
        wide_fits(value(max) + wide_value(voxel)),
    ensures
        ({
            let axis = wide::axis_of(ops, min, max, voxel);
            let v = wide_value(voxel);
            &&& scalar::wide_finite(axis.low) && scalar::wide_finite(axis.high)
            &&& wide_value(axis.low) == value(min) - 2 as real * v
            &&& wide_value(axis.high) == value(max) + 2 as real * v
            &&& scalar::same(axis.narrow_low, thin(value(min) - 2 as real * v))
            &&& scalar::same(axis.narrow_high, thin(value(max) + 2 as real * v))
            &&& scalar::same(axis.narrow_low_step, thin(value(min) - v))
            &&& scalar::same(axis.narrow_high_step, thin(value(max) + v))
        }),
{
    let v = wide_value(voxel);
    wide_meaning::wide_constants_mean_what_they_say();
    wide_meaning::lemma_wide_product(ops, round, voxel, wide::WIDE_TWO);
    assert(v * (2 as real) == 2 as real * v);
    let padding = ops.spec_product(voxel, wide::WIDE_TWO);
    wide_meaning::lemma_widened(ops, round, min);
    wide_meaning::lemma_widened(ops, round, max);
    wide_meaning::lemma_wide_difference(ops, round, ops.spec_widened(min), padding);
    wide_meaning::lemma_wide_sum(ops, round, ops.spec_widened(max), padding);
    let axis = wide::axis_of(ops, min, max, voxel);
    assert(wide_value(axis.low) + v == value(min) - v);
    assert(wide_value(axis.high) - v == value(max) + v);
    wide_meaning::lemma_wide_sum(ops, round, axis.low, voxel);
    wide_meaning::lemma_wide_difference(ops, round, axis.high, voxel);
}

/// The grid measures its three axes each by its own ends, with the cells it measured.
pub proof fn each_axis_is_measured_by_its_own_ends<N: Arithmetic, O: WideArithmetic>(
    narrow: &N,
    ops: &O,
    request: GridRequest,
)
    ensures
        ({
            let measure = wide::measure_of(narrow, ops, request);
            let voxel = measure.voxel_size;
            &&& measure.x == wide::axis_of(ops, request.min.x, request.max.x, voxel)
            &&& measure.y == wide::axis_of(ops, request.min.y, request.max.y, voxel)
            &&& measure.z == wide::axis_of(ops, request.min.z, request.max.z, voxel)
        }),
{
}

} // verus!
