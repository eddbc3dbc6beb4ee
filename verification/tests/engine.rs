use sdf_builder::grid::Grid;
use sdf_builder::instructions::{id_of_signed_distance, InstructionForId};
use sdf_builder::math::{from_pixels, Point, COORD_MAX, UNIT};
use sdf_builder::primitives::{Cross, Disk, LineSegment, Plane, Ray, Rectangle, Torus};
use sdf_builder::primitives_enum::Shape;
use sdf_builder::sdf::{Sdf, SignedDistance, DIVERGENT};
use sdf_builder::sdf_builder_tree::ItemId;
use sdf_builder::sdf_interpreter::{Instruction, Operator, SdfInstructions, Transform};
use sdf_builder::sdf_wrapper::{SdfWrapper, WrappedDistance};
use sdf_builder::stack::Stack;
use sdf_builder::ui::UiState;

fn units(x: f64) -> i64 {
    (x * 65536.0).round() as i64
}

fn assert_close(actual: i64, expected: i64, tolerance: i64) {
    let diff: i64 = (actual - expected).abs();
    assert!(
        diff <= tolerance,
        "actual {} expected {} tolerance {}",
        actual,
        expected,
        tolerance
    );
}

#[test]
fn primitives() {
    let disk = Disk::new(units(0.1));
    let d: i64 = disk.signed_distance(Point::new(units(0.0), units(0.4)));
    assert_close(d, units(0.3), 2);
    let torus = Torus::new(units(0.2), units(0.1));
    let d: i64 = torus.signed_distance(Point::new(units(0.4), units(0.0)));
    assert_close(d, units(0.1), 2);
}

#[test]
fn grid() {
    let rows: usize = 32;
    let cols: usize = 32;
    let e: i64 = UNIT / 32 + 4;

    let disk = Disk::new(units(0.1));
    let mut grid = Grid::from_sdf(rows, cols, &disk);
    let d: i64 = grid.signed_distance(Point::new(units(0.0), units(0.4)));
    assert_close(d, units(0.3), e);
    let d: i64 = grid.as_ref().signed_distance(Point::new(units(0.0), units(0.4)));
    assert_close(d, units(0.3), e);

    let torus = Torus::new(units(0.2), units(0.1));
    grid.update(&torus);
    let d: i64 = grid.signed_distance(Point::new(units(0.4), units(0.0)));
    assert_close(d, units(0.1), e);
    let d: i64 = grid.as_ref().signed_distance(Point::new(units(0.4), units(0.0)));
    assert_close(d, units(0.1), e);
}

#[test]
fn disk_boundary_is_zero() {
    let disk = Disk::new(6554);
    assert_eq!(disk.signed_distance(Point::new(6554, 0)), 0);
    assert_eq!(disk.signed_distance(Point::new(0, -6554)), 0);
    assert_eq!(disk.signed_distance(Point::new(0, 0)), -6554);
}

#[test]
fn torus_tube_centre_and_rim() {
    let torus = Torus::new(13107, 6554);
    assert_eq!(torus.signed_distance(Point::new(13107, 0)), -6554);
    assert_eq!(torus.signed_distance(Point::new(13107 + 6554, 0)), 0);
    assert_eq!(torus.signed_distance(Point::new(0, 0)), 13107 - 6554);
}

#[test]
fn rectangle_inside_and_outside() {
    let rect = Rectangle::new(2000, 1000);
    assert_eq!(rect.signed_distance(Point::new(0, 0)), -500);
    assert_eq!(rect.signed_distance(Point::new(1000 + 700, 0)), 700);
    assert_eq!(rect.distance(Point::new(0, 0)), 500);
}

#[test]
fn plane_is_signed_projection() {
    let plane = Plane::new(Point::new(0, UNIT));
    assert_eq!(plane.signed_distance(Point::new(12345, 777)), 777);
    assert_eq!(plane.signed_distance(Point::new(12345, -777)), -777);
}

#[test]
fn ray_distance() {
    let ray = Ray::new(Point::new(UNIT, 0));
    assert_eq!(ray.signed_distance(Point::new(5000, 0)), 0);
    assert_eq!(ray.signed_distance(Point::new(5000, 300)), 300);
    assert_eq!(ray.signed_distance(Point::new(-3000, 4000)), 5000);
}

#[test]
fn line_segment_distance() {
    let seg = LineSegment::new(Point::new(-1000, 0), Point::new(1000, 0));
    assert_eq!(seg.signed_distance(Point::new(0, 500)), 500);
    assert_eq!(seg.signed_distance(Point::new(2000, 0)), 1000);
    let degenerate = LineSegment::new(Point::new(30, 40), Point::new(30, 40));
    assert_eq!(degenerate.signed_distance(Point::new(0, 0)), 50);
}

#[test]
fn cross_regimes() {
    let cross = Cross::new(2000, 500);
    assert_eq!(cross.signed_distance(Point::new(0, 0)), -707);
    assert_eq!(cross.signed_distance(Point::new(1000, 900)), 400);
    assert_eq!(cross.signed_distance(Point::new(2300, 900)), 500);
}

#[test]
fn algebra_on_plain_scalars() {
    let a: i64 = -6554;
    let b: i64 = 19660;
    assert_eq!(a.union(&b), -6554);
    assert_eq!(a.intersect(&b), 19660);
    assert_eq!(a.subtract(&b), 19660);
    assert_eq!(b.subtract(&a), -6554);
    assert_eq!(a.xor(&b), -6554);
    let c: i64 = -2;
    let d: i64 = -3;
    assert_eq!(c.union(&d), -3);
    assert_eq!(c.intersect(&d), -2);
    assert_eq!(c.subtract(&d), 2);
    assert_eq!(c.xor(&d), 2);
}

#[test]
fn algebra_propagates_payload() {
    let a = WrappedDistance::new(-100, 7);
    let b = WrappedDistance::new(50, 9);
    assert_eq!(a.union(&b), WrappedDistance::new(-100, 7));
    assert_eq!(a.intersect(&b), WrappedDistance::new(50, 9));
    assert_eq!(a.subtract(&b), WrappedDistance::new(100, 7));
    assert_eq!(b.subtract(&a), WrappedDistance::new(-50, 9));
    assert_eq!(WrappedDistance::divergent().value(), i64::MAX);
    assert_eq!(a.with_new_distance(42), WrappedDistance::new(42, 7));
}

#[test]
fn wrapper_tags_every_sample() {
    let disk = Disk::new(6554);
    let wrapped = SdfWrapper::new(disk, 23);
    let v = wrapped.signed_distance(Point::new(0, 0));
    assert_eq!(v, WrappedDistance::new(-6554, 23));
}

fn two_disk_tape() -> Vec<Instruction> {
    let a = Shape::Disk(Disk::new(6554));
    let b = Shape::Disk(Disk::new(6554));
    let away = Transform {
        position: Point::new(26214, 0),
    };
    vec![
        Instruction::Sdf(a, Transform::default()),
        Instruction::Sdf(b, away),
        Instruction::Operator(Operator::Union),
    ]
}

#[test]
fn interpreter_union_of_two_disks() {
    let tape = two_disk_tape();
    let sdf = SdfInstructions::new(&tape);
    assert_eq!(sdf.signed_distance(Point::new(0, 0)), -6554);
    assert_eq!(sdf.signed_distance(Point::new(26214, 0)), -6554);
    assert_eq!(sdf.signed_distance(Point::new(13107, 0)), 13107 - 6554);
}

#[test]
fn interpreter_subtract_and_xor() {
    let a = Shape::Disk(Disk::new(13107));
    let b = Shape::Disk(Disk::new(6554));
    let tape = vec![
        Instruction::Sdf(a, Transform::default()),
        Instruction::Sdf(b, Transform::default()),
        Instruction::Operator(Operator::Subtract),
    ];
    let sdf = SdfInstructions::new(&tape);
    assert_eq!(sdf.signed_distance(Point::new(0, 0)), 13107);
    assert_eq!(sdf.signed_distance(Point::new(9000, 0)), 13107 - 9000);

    let tape = vec![
        Instruction::Sdf(a, Transform::default()),
        Instruction::Sdf(b, Transform::default()),
        Instruction::Operator(Operator::Xor),
    ];
    let sdf = SdfInstructions::new(&tape);
    assert_eq!(sdf.signed_distance(Point::new(9000, 0)), -(9000 - 6554));
}

#[test]
fn evaluation_is_deterministic() {
    let tape = two_disk_tape();
    let sdf = SdfInstructions::new(&tape);
    let p = Point::new(4321, -8765);
    let first: i64 = sdf.signed_distance(p);
    let second: i64 = sdf.signed_distance(p);
    assert_eq!(first, second);
}

#[test]
fn empty_tape_diverges() {
    let tape: Vec<Instruction> = Vec::new();
    let sdf = SdfInstructions::new(&tape);
    assert_eq!(sdf.signed_distance(Point::new(0, 0)), DIVERGENT);
    assert_eq!(sdf.signed_distance(Point::new(0, 0)), i64::MAX);
    let tagged: Vec<InstructionForId> = Vec::new();
    assert_eq!(id_of_signed_distance(&tagged, Point::new(0, 0)), None);
}

#[test]
fn picking_returns_owner() {
    let a = Shape::Disk(Disk::new(6554));
    let b = Shape::Disk(Disk::new(6554));
    let away = Transform {
        position: Point::new(26214, 0),
    };
    let tape = vec![
        InstructionForId::Shape(a, ItemId(7), Transform::default()),
        InstructionForId::Shape(b, ItemId(9), away),
        InstructionForId::Operator(Operator::Union, ItemId(3)),
    ];
    assert_eq!(id_of_signed_distance(&tape, Point::new(0, 0)), Some(ItemId(7)));
    assert_eq!(
        id_of_signed_distance(&tape, Point::new(26214, 0)),
        Some(ItemId(9))
    );
}

#[test]
fn grid_update_overwrites_resized_extent() {
    let disk = Disk::new(6554);
    let mut small = Grid::from_sdf(4, 4, &disk);
    small.resize(8, 8);
    let torus = Torus::new(13107, 6554);
    small.update(&torus);
    let fresh = Grid::from_sdf(8, 8, &torus);
    for y in 0..8usize {
        for x in 0..8usize {
            assert_eq!(small.get(x, y), fresh.get(x, y));
        }
    }
}

#[test]
fn grid_new_and_set_get() {
    let mut g: Grid<i64> = Grid::new(3, 2);
    assert_eq!(g.get(2, 1), 0);
    g.set(2, 1, -5);
    assert_eq!(g.get(2, 1), -5);
    assert_eq!(g.get(0, 0), 0);
    assert_eq!(g.as_ref().get(2, 1), -5);
    assert_eq!(g.as_ref().aspect_ratio(), UNIT * 3 / 2);
    let mut m = g.as_ref_mut();
    m.set(0, 0, 11);
    assert_eq!(m.get(0, 0), 11);
    assert_eq!(m.as_ref().get(0, 0), 11);
    assert_eq!(m.aspect_ratio(), UNIT * 3 / 2);
}

#[test]
fn empty_scene_grid_diverges_everywhere() {
    let tape: Vec<Instruction> = Vec::new();
    let sdf = SdfInstructions::new(&tape);
    let g: Grid<i64> = Grid::from_sdf(8, 8, &sdf);
    for y in 0..8usize {
        for x in 0..8usize {
            assert_eq!(g.get(x, y), DIVERGENT);
        }
    }
    assert_eq!(g.signed_distance(Point::new(0, 0)), DIVERGENT);
}

#[test]
fn derivative_points_outward() {
    let shape = Shape::Disk(Disk::new(6554));
    let d = shape.derivative(Point::new(13107, 0), 655);
    assert_eq!(d, Point::new(UNIT, 0));
    let d = shape.derivative(Point::new(-13107, 0), 655);
    assert_eq!(d, Point::new(-UNIT, 0));
}

#[test]
fn resize_disk_grows_radius() {
    let disk = Disk::new(6554);
    let grown = disk.resize(
        Point::new(0, 0),
        Point::new(6554, 0),
        Point::new(UNIT, 0),
    );
    assert_eq!(grown, Disk::new(13108));
    let shrunk = disk.resize(
        Point::new(0, 0),
        Point::new(-20000, 0),
        Point::new(UNIT, 0),
    );
    assert_eq!(shrunk, Disk::new(0));
}

#[test]
fn resize_torus_clamps_tube() {
    let torus = Torus::new(13107, 6554);
    let r = torus.resize(
        Point::new(13107, 0),
        Point::new(13107 + 40000, 0),
        Point::new(UNIT, 0),
    );
    assert_eq!(r.minor_radius, r.major_radius.min(6554 + 40000));
    assert!(r.minor_radius <= r.major_radius);
}

#[test]
fn resize_ray_renormalizes() {
    let ray = Ray::new(Point::new(UNIT, 0));
    let turned = ray.resize(Point::new(0, 0), Point::new(0, 2000), Point::new(0, 0));
    assert_eq!(turned.direction, Point::new(0, UNIT));
    let kept = ray.resize(Point::new(0, 0), Point::new(0, 0), Point::new(0, 0));
    assert_eq!(kept.direction, Point::new(UNIT, 0));
}

#[test]
fn resize_line_segment_moves_endpoint() {
    let seg = LineSegment::new(Point::new(-1000, 0), Point::new(1000, 0));
    let moved = seg.resize(
        Point::new(-1000, 10),
        Point::new(-1500, 10),
        Point::new(0, 0),
    );
    assert_eq!(moved.a, Point::new(-1500, 0));
    assert_eq!(moved.b, Point::new(1000, 0));
}

#[test]
fn stack_is_last_in_first_out() {
    let mut s: Stack<i64> = Stack::new();
    assert_eq!(s.len(), 0);
    s.push(1);
    s.push(2);
    assert_eq!(s.peek(), 2);
    assert_eq!(s.pop(), 2);
    assert_eq!(s.pop(), 1);
    assert_eq!(s.len(), 0);
}

#[test]
fn ui_state_defaults() {
    let ui = UiState::new();
    assert_eq!(ui.fps, 0);
    assert!(ui.show_fps);
    assert!(ui.vsync);
}

#[test]
fn coordinate_bounds_are_consistent() {
    assert_eq!(UNIT, 65536);
    assert!(COORD_MAX > 16 * UNIT);
}

#[test]
fn from_pixels_centres_the_viewport() {
    assert_eq!(from_pixels(640, 360, 1280, 720), Point::new(0, 0));
    assert_eq!(from_pixels(1280, 720, 1280, 720), Point::new(58254, -32768));
    assert_eq!(from_pixels(0, 0, 1280, 720), Point::new(-58254, 32768));
}

#[test]
fn resize_grows_with_default_fill() {
    let mut g: Grid<i64> = Grid::new(2, 2);
    g.set(0, 0, 7);
    g.resize(3, 3);
    // the old buffer prefix is preserved raw; newly grown slots hold the
    // default value until the next update
    assert_eq!(g.get(0, 0), 7);
    assert_eq!(g.get(2, 2), 0);
}
