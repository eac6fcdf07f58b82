use uturtle::fx::{cos_fx_i64, isqrt_u128, mul_div_scale_i64, norm_deg_i128, sat_i64, sin_fx_i64};
use uturtle::geom::{PointFx, RectFx, stroke_quad};
use uturtle::interp::TurtleState;
use uturtle::scene::{BuildResultFlags, Paint, Scene};
use uturtle::viewer::{create_grid_vertex_positions, Options};

#[test]
fn normalization_lands_in_one_revolution() {
    assert_eq!(norm_deg_i128(0), 0);
    assert_eq!(norm_deg_i128(3_600_000), 0);
    assert_eq!(norm_deg_i128(3_600_001), 1);
    assert_eq!(norm_deg_i128(-1), 3_599_999);
    assert_eq!(norm_deg_i128(-3_600_000), 0);
    assert_eq!(norm_deg_i128(-900_000), 2_700_000);
    // Invariant under adding a full revolution.
    for d in [-7_300_000i128, -1, 0, 1, 12_345_678] {
        assert_eq!(norm_deg_i128(d + 3_600_000), norm_deg_i128(d));
        let n = norm_deg_i128(d);
        assert!((0..3_600_000).contains(&n));
    }
}

#[test]
fn trigonometry_is_exact_at_quadrants() {
    assert_eq!(sin_fx_i64(0), 0);
    assert_eq!(sin_fx_i64(900_000), 10_000);
    assert_eq!(sin_fx_i64(1_800_000), 0);
    assert_eq!(sin_fx_i64(2_700_000), -10_000);
    assert_eq!(cos_fx_i64(0), 10_000);
    assert_eq!(cos_fx_i64(900_000), 0);
    assert_eq!(cos_fx_i64(1_800_000), -10_000);
    assert_eq!(cos_fx_i64(2_700_000), 0);
    // Bhaskara's approximation is exact at 30 and 150 degrees.
    assert_eq!(sin_fx_i64(300_000), 5_000);
    assert_eq!(sin_fx_i64(1_500_000), 5_000);
}

#[test]
fn fixed_point_helpers() {
    assert_eq!(sat_i64(5), 5);
    assert_eq!(sat_i64(i64::MAX), 1_000_000_000_000);
    assert_eq!(sat_i64(i64::MIN), -1_000_000_000_000);
    assert_eq!(mul_div_scale_i64(10_000, 5_000), 5_000);
    assert_eq!(mul_div_scale_i64(-10_000, 5_000), -5_000);
    assert_eq!(mul_div_scale_i64(3, 3), 0);
    assert_eq!(isqrt_u128(0), 0);
    assert_eq!(isqrt_u128(1), 1);
    assert_eq!(isqrt_u128(99), 9);
    assert_eq!(isqrt_u128(10_000_000_000), 100_000);
}

#[test]
fn rect_unions_grow() {
    let z = RectFx::zero();
    let r = z.union_point(PointFx { x: 5, y: -3 });
    assert_eq!(r, RectFx { min_x: 0, min_y: -3, max_x: 5, max_y: 0 });
    let s = r.union_rect(&RectFx { min_x: -1, min_y: 0, max_x: 2, max_y: 9 });
    assert_eq!(s, RectFx { min_x: -1, min_y: -3, max_x: 5, max_y: 9 });
}

#[test]
fn stroke_quad_offsets_perpendicular() {
    // A vertical segment: the offset is horizontal.
    let quad = stroke_quad(
        PointFx { x: 0, y: 0 },
        PointFx { x: 0, y: 100_000 },
        20_000,
    );
    assert_eq!(quad[0], PointFx { x: -10_000, y: 0 });
    assert_eq!(quad[1], PointFx { x: -10_000, y: 100_000 });
    assert_eq!(quad[2], PointFx { x: 10_000, y: 100_000 });
    assert_eq!(quad[3], PointFx { x: 10_000, y: 0 });
    // A degenerate segment collapses to its endpoints.
    let quad = stroke_quad(PointFx { x: 7, y: 7 }, PointFx { x: 7, y: 7 }, 0);
    assert_eq!(quad.len(), 4);
    assert_eq!(quad[0], PointFx { x: 7, y: 7 });
    assert_eq!(quad[2], PointFx { x: 7, y: 7 });
}

#[test]
fn paint_registry_dedups_by_value() {
    let mut scene = Scene::new();
    let red = Paint::from_rgb(255, 0, 0);
    let blue = Paint::from_rgb(0, 0, 255);
    let a = scene.push_paint(&red);
    let b = scene.push_paint(&blue);
    let c = scene.push_paint(&red);
    assert_eq!(a, c);
    assert_ne!(a, b);
    assert_eq!(scene.paints.len(), 2);
    assert_eq!(scene.paints[0], red);
}

#[test]
fn paint_alpha_is_opaque() {
    assert_eq!(
        Paint::from_pencolor((1, 2, 3)),
        Paint { r: 1, g: 2, b: 3, a: 255 }
    );
}

#[test]
fn flags_render_in_canonical_order() {
    let mut f = BuildResultFlags::empty();
    assert!(f.is_empty());
    assert_eq!(f.to_text(), "");
    f.poprot_on_empty_stack = true;
    assert_eq!(f.to_text(), "poprot on empty stack");
    f.unhandled_command = true;
    assert_eq!(f.to_text(), "unhandled command, poprot on empty stack");
    f.poploc_on_empty_stack = true;
    assert_eq!(
        f.to_text(),
        "unhandled command, poploc on empty stack, poprot on empty stack"
    );
    assert!(!f.is_empty());
}

#[test]
fn default_turtle_state() {
    let s = TurtleState::new();
    assert_eq!(s.pos_x, 0);
    assert_eq!(s.pos_y, 0);
    assert_eq!(s.direction, 0);
    assert!(!s.pen_down);
    assert_eq!(s.pen_width, 0);
    assert_eq!(s.pen_color, (0, 0, 0));
    assert!(s.positions.is_empty());
    assert!(s.directions.is_empty());
}

#[test]
fn grid_vertex_positions_cover_every_gridline() {
    let positions = create_grid_vertex_positions();
    assert_eq!(positions.len(), 44);
    for index in 0..=10u8 {
        let base = 4 * index as usize;
        assert_eq!(positions[base], (0, index));
        assert_eq!(positions[base + 1], (10, index));
        assert_eq!(positions[base + 2], (index, 0));
        assert_eq!(positions[base + 3], (index, 10));
    }
}

#[test]
fn options_bundle_their_values() {
    let o = Options::new(Some(4), true, String::from("scene.svg"));
    assert_eq!(o.jobs, Some(4));
    assert!(o.threed);
    assert_eq!(o.input_path, "scene.svg");
}
