use uturtle::compile;
use uturtle::geom::{PointFx, RectFx};
use uturtle::scene::{Paint, PathObjectKind};

fn pt(x: i64, y: i64) -> PointFx {
    PointFx { x, y }
}

#[test]
fn pendown_move_draws_one_hairline_stroke() {
    let built = compile("pendown move 10").unwrap();
    assert_eq!(built.state.pos_x, 100_000);
    assert_eq!(built.state.pos_y, 0);
    assert_eq!(built.scene.objects.len(), 1);
    let obj = &built.scene.objects[0];
    assert_eq!(obj.id, 1);
    assert_eq!(obj.kind, PathObjectKind::Stroke);
    // A horizontal segment from (0,0) to (10,0), offset by half the
    // hairline width (333 / 2 = 166 units) perpendicular to it.
    assert_eq!(
        obj.outline,
        vec![pt(0, 166), pt(100_000, 166), pt(100_000, -166), pt(0, -166)]
    );
    assert_eq!(
        built.scene.bounds,
        RectFx {
            min_x: 0,
            min_y: -166,
            max_x: 100_000,
            max_y: 166
        }
    );
    assert_eq!(built.scene.view_box, built.scene.bounds);
    assert_eq!(built.scene.paints, vec![Paint { r: 0, g: 0, b: 0, a: 255 }]);
    assert!(built.result_flags.is_empty());
}

#[test]
fn penup_move_emits_no_geometry() {
    let built = compile("penup move 10 pendown move 10").unwrap();
    assert_eq!(built.scene.objects.len(), 1);
    let obj = &built.scene.objects[0];
    assert_eq!(
        obj.outline,
        vec![
            pt(100_000, 166),
            pt(200_000, 166),
            pt(200_000, -166),
            pt(100_000, -166)
        ]
    );
    assert_eq!(built.state.pos_x, 200_000);
    assert_eq!(built.state.pos_y, 0);
}

#[test]
fn poploc_restores_the_pushed_position() {
    let built = compile("pushloc move 5 poploc move 5").unwrap();
    assert_eq!(built.state.pos_x, 50_000);
    assert_eq!(built.state.pos_y, 0);
    assert!(built.result_flags.is_empty());
    assert_eq!(built.scene.objects.len(), 0);
}

#[test]
fn poploc_on_empty_stack_is_flagged_noop() {
    let built = compile("poploc").unwrap();
    assert_eq!(built.scene.objects.len(), 0);
    assert_eq!(built.scene.paints.len(), 0);
    assert_eq!(built.scene.bounds, RectFx { min_x: 0, min_y: 0, max_x: 0, max_y: 0 });
    assert_eq!(built.state.pos_x, 0);
    assert_eq!(built.state.pos_y, 0);
    assert!(!built.result_flags.unhandled_command);
    assert!(built.result_flags.poploc_on_empty_stack);
    assert!(!built.result_flags.poprot_on_empty_stack);
    assert_eq!(built.result_flags.to_text(), "poploc on empty stack");
}

#[test]
fn poprot_on_empty_stack_is_flagged_noop() {
    let built = compile("turnleft 45 poprot").unwrap();
    assert_eq!(built.state.direction, 450_000);
    assert!(built.result_flags.poprot_on_empty_stack);
    assert!(!built.result_flags.poploc_on_empty_stack);
    assert_eq!(built.result_flags.to_text(), "poprot on empty stack");
}

#[test]
fn reset_discards_everything_but_object_ids() {
    let fresh = compile("").unwrap();
    let reset = compile("pendown move 10 poploc reset").unwrap();
    assert_eq!(reset.scene.objects.len(), fresh.scene.objects.len());
    assert_eq!(reset.scene.paints.len(), 0);
    assert_eq!(reset.scene.bounds, RectFx { min_x: 0, min_y: 0, max_x: 0, max_y: 0 });
    assert!(reset.result_flags.is_empty());
    assert_eq!(reset.state.pos_x, 0);
    assert_eq!(reset.state.pos_y, 0);
    assert_eq!(reset.state.direction, 0);
    assert_eq!(reset.state.pen_width, 0);
    // Identifiers stay monotonic across a reset: the next stroke is 2.
    let after = compile("pendown move 10 reset pendown move 10").unwrap();
    assert_eq!(after.scene.objects.len(), 1);
    assert_eq!(after.scene.objects[0].id, 2);
}

#[test]
fn balanced_push_pop_returns_to_start() {
    let built = compile("move 7 pushloc pushloc move 2 poploc poploc move 1").unwrap();
    assert_eq!(built.state.pos_x, 80_000);
    assert_eq!(built.state.pos_y, 0);
    assert!(!built.result_flags.poploc_on_empty_stack);
}

#[test]
fn pushrot_poprot_restores_heading() {
    let built = compile("turnleft 30 pushrot turnleft 90 poprot").unwrap();
    assert_eq!(built.state.direction, 300_000);
}

#[test]
fn heading_arithmetic_is_normalized() {
    let built = compile("turnright 90").unwrap();
    assert_eq!(built.state.direction, 2_700_000);
    let built = compile("turnleft 720.5").unwrap();
    assert_eq!(built.state.direction, 5_000);
    let built = compile("direction -90").unwrap();
    assert_eq!(built.state.direction, 2_700_000);
    let built = compile("direction 360").unwrap();
    assert_eq!(built.state.direction, 0);
}

#[test]
fn move_at_thirty_degrees_uses_exact_half_sine() {
    // Bhaskara's approximation is exact at 30 degrees: sin = 0.5, and
    // cos 30 comes out as 0.8648 (the approximation of 0.8660).
    let built = compile("turnleft 30 pendown move 1").unwrap();
    assert_eq!(built.state.pos_y, 5_000);
    assert_eq!(built.state.pos_x, 8_648);
}

#[test]
fn pen_width_sets_the_stroke_offset() {
    let built = compile("penwidth 2 pendown move 10").unwrap();
    let obj = &built.scene.objects[0];
    assert_eq!(
        obj.outline,
        vec![
            pt(0, 10_000),
            pt(100_000, 10_000),
            pt(100_000, -10_000),
            pt(0, -10_000)
        ]
    );
}

#[test]
fn go_moves_and_extends_bounds_regardless_of_pen() {
    let built = compile("go 3 4").unwrap();
    assert_eq!(built.state.pos_x, 30_000);
    assert_eq!(built.state.pos_y, 40_000);
    assert_eq!(
        built.scene.bounds,
        RectFx { min_x: 0, min_y: 0, max_x: 30_000, max_y: 40_000 }
    );
    let built = compile("gox -2 goy -1").unwrap();
    assert_eq!(built.state.pos_x, -20_000);
    assert_eq!(built.state.pos_y, -10_000);
    assert_eq!(
        built.scene.bounds,
        RectFx { min_x: -20_000, min_y: -10_000, max_x: 0, max_y: 0 }
    );
}

#[test]
fn pen_color_reaches_emitted_paint() {
    let built = compile("pencolor 255,0,0 pendown move 1").unwrap();
    assert_eq!(built.scene.paints, vec![Paint { r: 255, g: 0, b: 0, a: 255 }]);
    assert_eq!(built.scene.objects[0].paint.0, 0);
}

#[test]
fn registering_the_same_color_twice_dedups() {
    let built = compile("pencolor 255,0,0 pendown move 1 move 1").unwrap();
    assert_eq!(built.scene.objects.len(), 2);
    assert_eq!(built.scene.paints.len(), 1);
    assert_eq!(built.scene.objects[0].paint, built.scene.objects[1].paint);
}

#[test]
fn parse_errors_propagate_from_compile() {
    assert!(compile("pendown move ten").is_err());
    assert!(compile("pendown move 10").is_ok());
}
