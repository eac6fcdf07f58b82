//! The turtle interpreter: a sequential state machine folding a command
//! list into a cursor state while accumulating stroked geometry, bounds and
//! diagnostics into a scene.
//!
//! The whole run is specified by the pure fold [`run_to`] over the ghost
//! [`Machine`]; the executable interpreter is proved to compute exactly that
//! fold. No command aborts a run: stack underflows are recorded as
//! diagnostics and act as no-ops.

use vstd::prelude::*;
use vstd::arithmetic::div_mod::lemma_mod_division_less_than_divisor;
use crate::ast::{Command, Turtle};
use crate::fx::{
    COORD_LIMIT, FULL_TURN, cos_fx, cos_fx_i64, mul_div_scale, mul_div_scale_i64, norm_deg,
    norm_deg_i128, sat, sat_i64, sin_fx, sin_fx_i64,
};
use crate::geom::{
    PointFx, RectFx, points_bounds, stroke_quad, stroke_quad_spec, union_point_spec,
    union_rect_spec, zero_rect,
};
use crate::scene::{
    BuildResultFlags, ObjModel, Paint, PathObject, PathObjectKind, Scene, SceneModel, empty_flags,
    empty_scene_model, paint_from_rgb, register_paint,
};

verus! {

/// The mutable cursor state of one interpretation run.
pub struct TurtleState {
    pub pos_x: i64,
    pub pos_y: i64,
    /// Heading in fixed-point degrees, normalized into `[0, FULL_TURN)`.
    pub direction: i64,
    pub pen_down: bool,
    /// The location stack: pushed `(x, y)` pairs, last pushed at the end.
    pub positions: Vec<(i64, i64)>,
    /// The rotation stack: pushed headings, last pushed at the end.
    pub directions: Vec<i64>,
    pub pen_width: i64,
    pub pen_color: (u8, u8, u8),
    /// The bounding rectangle of the positions this cursor has visited.
    pub bounds: RectFx,
}

/// The mathematical value of a turtle state.
#[verifier::ext_equal]
pub ghost struct StateModel {
    pub pos_x: i64,
    pub pos_y: i64,
    pub direction: i64,
    pub pen_down: bool,
    pub positions: Seq<(i64, i64)>,
    pub directions: Seq<i64>,
    pub pen_width: i64,
    pub pen_color: (u8, u8, u8),
    pub bounds: RectFx,
}

impl View for TurtleState {
    type V = StateModel;

    open spec fn view(&self) -> StateModel {
        StateModel {
            pos_x: self.pos_x,
            pos_y: self.pos_y,
            direction: self.direction,
            pen_down: self.pen_down,
            positions: self.positions@,
            directions: self.directions@,
            pen_width: self.pen_width,
            pen_color: self.pen_color,
            bounds: self.bounds,
        }
    }
}

/// The state a run (and every `Reset`) starts from: the origin, heading
/// along the positive x axis, pen up, empty stacks, black pen, and a pen
/// width of zero, so strokes are drawn at the hairline minimum until a
/// width is set.
pub open spec fn default_state_model() -> StateModel {
    StateModel {
        pos_x: 0,
        pos_y: 0,
        direction: 0,
        pen_down: false,
        positions: Seq::empty(),
        directions: Seq::empty(),
        pen_width: 0,
        pen_color: (0, 0, 0),
        bounds: zero_rect(),
    }
}

impl TurtleState {
    /// The default state a run starts from.
    pub fn new() -> (s: TurtleState)
        ensures
            s@ == default_state_model(),
    {
        let s = TurtleState {
            pos_x: 0,
            pos_y: 0,
            direction: 0,
            pen_down: false,
            positions: Vec::new(),
            directions: Vec::new(),
            pen_width: 0,
            pen_color: (0, 0, 0),
            bounds: RectFx::zero(),
        };
        proof {
            assert(s@ =~= default_state_model());
        }
        s
    }
}

/// The full interpreter configuration: cursor state, scene, diagnostics,
/// and the path-object identifier counter.
#[verifier::ext_equal]
pub ghost struct Machine {
    pub state: StateModel,
    pub scene: SceneModel,
    pub flags: BuildResultFlags,
    pub id_counter: int,
}

/// The configuration an interpretation run starts from.
pub open spec fn init_machine() -> Machine {
    Machine {
        state: default_state_model(),
        scene: empty_scene_model(),
        flags: empty_flags(),
        id_counter: 0,
    }
}

/// Every coordinate, stack entry, width and heading of a machine stays in
/// range while the interpreter runs.
pub open spec fn state_wf(s: StateModel) -> bool {
    &&& -COORD_LIMIT <= s.pos_x <= COORD_LIMIT
    &&& -COORD_LIMIT <= s.pos_y <= COORD_LIMIT
    &&& 0 <= s.direction < FULL_TURN
    &&& -COORD_LIMIT <= s.pen_width <= COORD_LIMIT
    &&& forall|i: int|
        0 <= i < s.positions.len() ==> -COORD_LIMIT <= (#[trigger] s.positions[i]).0 <= COORD_LIMIT
            && -COORD_LIMIT <= s.positions[i].1 <= COORD_LIMIT
    &&& forall|i: int| 0 <= i < s.directions.len() ==> 0 <= #[trigger] s.directions[i] < FULL_TURN
}

pub open spec fn machine_wf(m: Machine) -> bool {
    state_wf(m.state) && m.id_counter >= 0
}

/// Extend the cursor's own bounds over a point, then fold them into the
/// scene bounds.
pub open spec fn update_bounds_spec(m: Machine, p: PointFx) -> Machine {
    let sb = union_point_spec(m.state.bounds, p);
    Machine {
        state: StateModel { bounds: sb, ..m.state },
        scene: SceneModel { bounds: union_rect_spec(m.scene.bounds, sb), ..m.scene },
        ..m
    }
}

/// Emit one stroked segment: register the pen color, append the stroke
/// quadrilateral under the next identifier, and grow the scene bounds over
/// the new outline.
pub open spec fn emit_stroke_spec(m: Machine, from: PointFx, to: PointFx) -> Machine {
    let paint = paint_from_rgb(m.state.pen_color.0, m.state.pen_color.1, m.state.pen_color.2);
    let reg = register_paint(m.scene, paint);
    let quad = stroke_quad_spec(from, to, m.state.pen_width);
    let obj = ObjModel {
        outline: quad,
        paint: reg.1,
        id: m.id_counter + 1,
        kind: PathObjectKind::Stroke,
    };
    Machine {
        scene: SceneModel {
            bounds: points_bounds(reg.0.bounds, quad),
            objects: reg.0.objects.push(obj),
            ..reg.0
        },
        id_counter: m.id_counter + 1,
        ..m
    }
}

/// Walk a saturated distance along the heading; with the pen down, emit
/// the stroke and extend the bounds over the target first.
pub open spec fn move_spec(m: Machine, d: i64) -> Machine {
    let dc = sat(d as int);
    let tx = sat(m.state.pos_x + mul_div_scale(dc, cos_fx(m.state.direction as int))) as i64;
    let ty = sat(m.state.pos_y + mul_div_scale(dc, sin_fx(m.state.direction as int))) as i64;
    let to = PointFx { x: tx, y: ty };
    let m2 = if m.state.pen_down {
        update_bounds_spec(
            emit_stroke_spec(m, PointFx { x: m.state.pos_x, y: m.state.pos_y }, to),
            to,
        )
    } else {
        m
    };
    Machine { state: StateModel { pos_x: tx, pos_y: ty, ..m2.state }, ..m2 }
}

/// The transition of one command: the interpretation table of the state
/// machine. Total: every command maps to exactly one update and none
/// aborts the run.
pub open spec fn step_spec(m: Machine, c: Command) -> Machine {
    match c {
        Command::Reset => Machine {
            state: default_state_model(),
            scene: empty_scene_model(),
            flags: empty_flags(),
            id_counter: m.id_counter,
        },
        Command::PenUp => Machine { state: StateModel { pen_down: false, ..m.state }, ..m },
        Command::PenDown => Machine { state: StateModel { pen_down: true, ..m.state }, ..m },
        Command::Turn(d) => Machine {
            state: StateModel {
                direction: norm_deg(m.state.direction + d) as i64,
                ..m.state
            },
            ..m
        },
        Command::Direction(d) => Machine {
            state: StateModel { direction: norm_deg(d as int) as i64, ..m.state },
            ..m
        },
        Command::Move(d) => move_spec(m, d),
        Command::PushLoc => Machine {
            state: StateModel {
                positions: m.state.positions.push((m.state.pos_x, m.state.pos_y)),
                ..m.state
            },
            ..m
        },
        Command::PopLoc => if m.state.positions.len() == 0 {
            Machine {
                flags: BuildResultFlags { poploc_on_empty_stack: true, ..m.flags },
                ..m
            }
        } else {
            Machine {
                state: StateModel {
                    pos_x: m.state.positions.last().0,
                    pos_y: m.state.positions.last().1,
                    positions: m.state.positions.drop_last(),
                    ..m.state
                },
                ..m
            }
        },
        Command::PushRot => Machine {
            state: StateModel {
                directions: m.state.directions.push(m.state.direction),
                ..m.state
            },
            ..m
        },
        Command::PopRot => if m.state.directions.len() == 0 {
            Machine {
                flags: BuildResultFlags { poprot_on_empty_stack: true, ..m.flags },
                ..m
            }
        } else {
            Machine {
                state: StateModel {
                    direction: m.state.directions.last(),
                    directions: m.state.directions.drop_last(),
                    ..m.state
                },
                ..m
            }
        },
        Command::Go(x, y) => {
            let nx = sat(x as int) as i64;
            let ny = sat(y as int) as i64;
            update_bounds_spec(
                Machine { state: StateModel { pos_x: nx, pos_y: ny, ..m.state }, ..m },
                PointFx { x: nx, y: ny },
            )
        },
        Command::GoX(x) => {
            let nx = sat(x as int) as i64;
            update_bounds_spec(
                Machine { state: StateModel { pos_x: nx, ..m.state }, ..m },
                PointFx { x: nx, y: m.state.pos_y },
            )
        },
        Command::GoY(y) => {
            let ny = sat(y as int) as i64;
            update_bounds_spec(
                Machine { state: StateModel { pos_y: ny, ..m.state }, ..m },
                PointFx { x: m.state.pos_x, y: ny },
            )
        },
        Command::PenWidth(w) => Machine {
            state: StateModel { pen_width: sat(w as int) as i64, ..m.state },
            ..m
        },
        Command::PenColor(r, g, b) => Machine {
            state: StateModel { pen_color: (r, g, b), ..m.state },
            ..m
        },
    }
}

/// The machine after the first `n` commands, starting from `m0`.
pub open spec fn run_to(m0: Machine, cmds: Seq<Command>, n: int) -> Machine
    decreases n,
{
    if n <= 0 {
        m0
    } else {
        step_spec(run_to(m0, cmds, n - 1), cmds[n - 1])
    }
}

/// The machine a whole program produces from the initial configuration.
pub open spec fn run_prog(cmds: Seq<Command>) -> Machine {
    run_to(init_machine(), cmds, cmds.len() as int)
}

/// At end-of-program the scene's view box is set to its bounds.
pub open spec fn finish_spec(m: Machine) -> Machine {
    Machine { scene: SceneModel { view_box: m.scene.bounds, ..m.scene }, ..m }
}

/// One step keeps the machine well-formed and advances the identifier
/// counter by at most one.
pub proof fn lemma_step_wf(m: Machine, c: Command)
    requires
        machine_wf(m),
    ensures
        machine_wf(step_spec(m, c)),
        m.id_counter <= step_spec(m, c).id_counter <= m.id_counter + 1,
{
    match c {
        Command::Turn(d) => {
            lemma_mod_division_less_than_divisor(m.state.direction + d, FULL_TURN as int);
        },
        Command::Direction(d) => {
            lemma_mod_division_less_than_divisor(d as int, FULL_TURN as int);
        },
        Command::PushLoc => {
            assert(state_wf(step_spec(m, c).state));
        },
        Command::PushRot => {
            assert(state_wf(step_spec(m, c).state));
        },
        _ => {},
    }
}

/// A run from a well-formed machine stays well-formed, and creates at most
/// one identifier per command.
pub proof fn lemma_run_wf(m0: Machine, cmds: Seq<Command>, n: int)
    requires
        machine_wf(m0),
        0 <= n <= cmds.len(),
    ensures
        machine_wf(run_to(m0, cmds, n)),
        m0.id_counter <= run_to(m0, cmds, n).id_counter <= m0.id_counter + n,
    decreases n,
{
    if n > 0 {
        lemma_run_wf(m0, cmds, n - 1);
        lemma_step_wf(run_to(m0, cmds, n - 1), cmds[n - 1]);
    }
}

/// The interpreter: owns the scene being built, the diagnostic flags, the
/// cursor state and the identifier counter for one run.
pub struct BuiltTurtle {
    pub scene: Scene,
    pub result_flags: BuildResultFlags,
    pub state: TurtleState,
    pub id_counter: u64,
}

impl View for BuiltTurtle {
    type V = Machine;

    open spec fn view(&self) -> Machine {
        Machine {
            state: self.state@,
            scene: self.scene@,
            flags: self.result_flags,
            id_counter: self.id_counter as int,
        }
    }
}

impl BuiltTurtle {
    /// Draw the next path-object identifier; identifiers start at 1 and
    /// increase monotonically across the run.
    fn id(&mut self) -> (r: u64)
        requires
            old(self).id_counter < u64::MAX,
        ensures
            final(self).id_counter == old(self).id_counter + 1,
            r == final(self).id_counter,
            final(self).scene == old(self).scene,
            final(self).result_flags == old(self).result_flags,
            final(self).state == old(self).state,
    {
        self.id_counter = self.id_counter + 1;
        self.id_counter
    }

    /// Extend the cursor bounds over `(x, y)` and fold them into the
    /// scene bounds.
    fn update_bounds(&mut self, x: i64, y: i64)
        ensures
            final(self)@ == update_bounds_spec(old(self)@, PointFx { x, y }),
    {
        self.state.bounds = self.state.bounds.union_point(PointFx { x, y });
        self.scene.bounds = self.scene.bounds.union_rect(&self.state.bounds);
        proof {
            assert(self@ =~= update_bounds_spec(old(self)@, PointFx { x, y }));
        }
    }

    /// Emit the stroked outline of one pen-down segment into the scene.
    fn line_to(&mut self, x1: i64, y1: i64, x2: i64, y2: i64)
        requires
            old(self).id_counter < u64::MAX,
            -COORD_LIMIT <= x1 <= COORD_LIMIT,
            -COORD_LIMIT <= y1 <= COORD_LIMIT,
            -COORD_LIMIT <= x2 <= COORD_LIMIT,
            -COORD_LIMIT <= y2 <= COORD_LIMIT,
            -COORD_LIMIT <= old(self).state.pen_width <= COORD_LIMIT,
        ensures
            final(self)@ == emit_stroke_spec(
                old(self)@,
                PointFx { x: x1, y: y1 },
                PointFx { x: x2, y: y2 },
            ),
    {
        let paint = Paint::from_pencolor(self.state.pen_color);
        let style = self.scene.push_paint(&paint);
        let quad = stroke_quad(
            PointFx { x: x1, y: y1 },
            PointFx { x: x2, y: y2 },
            self.state.pen_width,
        );
        let ghost bounds0 = self.scene@.bounds;
        let mut k: usize = 0;
        while k < quad.len()
            invariant
                k <= quad.len(),
                self.scene.bounds == points_bounds(bounds0, quad@.take(k as int)),
                self.scene@.objects == old(self)@.scene.objects,
                self.scene@.paints == register_paint(old(self)@.scene, paint).0.paints,
                self.scene@.view_box == old(self)@.scene.view_box,
                self.result_flags == old(self).result_flags,
                self.state == old(self).state,
                self.id_counter == old(self).id_counter,
                quad@ == stroke_quad_spec(
                    PointFx { x: x1, y: y1 },
                    PointFx { x: x2, y: y2 },
                    old(self).state.pen_width,
                ),
                style.0 as int == register_paint(old(self)@.scene, paint).1,
            decreases quad.len() - k,
        {
            let p = quad[k];
            self.scene.bounds = self.scene.bounds.union_point(p);
            proof {
                assert(quad@.take(k as int + 1).drop_last() =~= quad@.take(k as int));
                assert(quad@.take(k as int + 1).last() == quad@[k as int]);
            }
            k = k + 1;
        }
        proof {
            assert(quad@.take(quad@.len() as int) =~= quad@);
        }
        let id = self.id();
        let object = PathObject::new(quad, style, id, PathObjectKind::Stroke);
        self.scene.objects.push(object);
        proof {
            assert(self@.scene.objects =~= emit_stroke_spec(
                old(self)@,
                PointFx { x: x1, y: y1 },
                PointFx { x: x2, y: y2 },
            ).scene.objects);
            assert(self@ =~= emit_stroke_spec(
                old(self)@,
                PointFx { x: x1, y: y1 },
                PointFx { x: x2, y: y2 },
            ));
        }
    }

    /// Fold a whole command list into this machine, then set the scene's
    /// view box to the accumulated bounds.
    pub fn process_turtle(&mut self, t: &Turtle)
        requires
            machine_wf(old(self)@),
            old(self).id_counter + t@.len() <= u64::MAX,
        ensures
            final(self)@ == finish_spec(run_to(old(self)@, t@, t@.len() as int)),
            machine_wf(final(self)@),
    {
        let n = t.len();
        let mut i: usize = 0;
        while i < n
            invariant
                i <= n,
                n == t@.len(),
                old(self).id_counter + t@.len() <= u64::MAX,
                machine_wf(old(self)@),
                self@ == run_to(old(self)@, t@, i as int),
                machine_wf(self@),
                self@.id_counter <= old(self)@.id_counter + i,
            decreases n - i,
        {
            proof {
                lemma_run_wf(old(self)@, t@, i as int);
                lemma_step_wf(self@, t@[i as int]);
            }
            let ghost pre = self@;
            let cmd = t[i];
            match cmd {
                Command::Reset => {
                    self.state = TurtleState::new();
                    self.scene = Scene::new();
                    self.result_flags = BuildResultFlags::empty();
                },
                Command::PenUp => {
                    self.state.pen_down = false;
                },
                Command::PenDown => {
                    self.state.pen_down = true;
                },
                Command::Turn(d) => {
                    self.state.direction = norm_deg_i128(
                        (self.state.direction as i128) + (d as i128),
                    );
                },
                Command::Direction(d) => {
                    self.state.direction = norm_deg_i128(d as i128);
                },
                Command::Move(d) => {
                    let dc = sat_i64(d);
                    let c = cos_fx_i64(self.state.direction);
                    let s_ = sin_fx_i64(self.state.direction);
                    let qx = mul_div_scale_i64(dc, c);
                    let qy = mul_div_scale_i64(dc, s_);
                    let tx = sat_i64(self.state.pos_x + qx);
                    let ty = sat_i64(self.state.pos_y + qy);
                    if self.state.pen_down {
                        let px = self.state.pos_x;
                        let py = self.state.pos_y;
                        self.line_to(px, py, tx, ty);
                        self.update_bounds(tx, ty);
                    }
                    self.state.pos_x = tx;
                    self.state.pos_y = ty;
                },
                Command::PushLoc => {
                    let px = self.state.pos_x;
                    let py = self.state.pos_y;
                    self.state.positions.push((px, py));
                },
                Command::PopLoc => {
                    match self.state.positions.pop() {
                        Some(p) => {
                            self.state.pos_x = p.0;
                            self.state.pos_y = p.1;
                        },
                        None => {
                            self.result_flags.poploc_on_empty_stack = true;
                        },
                    }
                },
                Command::PushRot => {
                    let d = self.state.direction;
                    self.state.directions.push(d);
                },
                Command::PopRot => {
                    match self.state.directions.pop() {
                        Some(d) => {
                            self.state.direction = d;
                        },
                        None => {
                            self.result_flags.poprot_on_empty_stack = true;
                        },
                    }
                },
                Command::Go(x, y) => {
                    let nx = sat_i64(x);
                    let ny = sat_i64(y);
                    self.state.pos_x = nx;
                    self.state.pos_y = ny;
                    self.update_bounds(nx, ny);
                },
                Command::GoX(x) => {
                    let nx = sat_i64(x);
                    self.state.pos_x = nx;
                    let py = self.state.pos_y;
                    self.update_bounds(nx, py);
                },
                Command::GoY(y) => {
                    let ny = sat_i64(y);
                    self.state.pos_y = ny;
                    let px = self.state.pos_x;
                    self.update_bounds(px, ny);
                },
                Command::PenWidth(w) => {
                    self.state.pen_width = sat_i64(w);
                },
                Command::PenColor(r, g, b) => {
                    self.state.pen_color = (r, g, b);
                },
            }
            proof {
                assert(self@ =~= step_spec(pre, t@[i as int]));
            }
            i = i + 1;
        }
        self.scene.view_box = self.scene.bounds;
        proof {
            assert(self@ =~= finish_spec(run_to(old(self)@, t@, t@.len() as int)));
        }
    }

    /// Interpret a whole parsed program from the initial configuration.
    pub fn from_ast(t: Turtle) -> (built: BuiltTurtle)
        ensures
            built@ == finish_spec(run_prog(t@)),
            machine_wf(built@),
    {
        let mut built = BuiltTurtle {
            id_counter: 0,
            scene: Scene::new(),
            result_flags: BuildResultFlags::empty(),
            state: TurtleState::new(),
        };
        proof {
            assert(built@ =~= init_machine());
        }
        let n = t.len();
        assert(t@.len() == n <= u64::MAX);
        built.process_turtle(&t);
        built
    }
}


/// `Reset` replaces the whole configuration with a fresh one, keeping only
/// the identifier counter: interpreting it at program start leaves the
/// machine exactly as an uninitialized run, and at any point it clears the
/// bounds to the degenerate rectangle and the diagnostics to empty.
pub proof fn lemma_reset_clears(m: Machine)
    ensures
        step_spec(m, Command::Reset).scene == empty_scene_model(),
        step_spec(m, Command::Reset).scene.bounds == zero_rect(),
        step_spec(m, Command::Reset).flags == empty_flags(),
        step_spec(m, Command::Reset).state == default_state_model(),
        step_spec(m, Command::Reset).id_counter == m.id_counter,
{
}

proof fn lemma_reset_prefix_run(p: Seq<Command>, n: int)
    requires
        0 <= n <= p.len(),
    ensures
        run_to(init_machine(), seq![Command::Reset].add(p), n + 1) == run_to(init_machine(), p, n),
    decreases n,
{
    let q = seq![Command::Reset].add(p);
    if n == 0 {
        assert(q[0] == Command::Reset);
        assert(run_to(init_machine(), q, 0) == init_machine());
        assert(run_to(init_machine(), q, 1) == step_spec(init_machine(), Command::Reset));
        assert(step_spec(init_machine(), Command::Reset) =~~= init_machine());
    } else {
        lemma_reset_prefix_run(p, n - 1);
        assert(q[n] == p[n - 1]);
    }
}

/// A program that begins with `Reset` produces exactly the machine the
/// program without it produces: `Reset` at program start is the identity.
pub proof fn lemma_reset_idempotent(p: Seq<Command>)
    ensures
        run_prog(seq![Command::Reset].add(p)) == run_prog(p),
{
    lemma_reset_prefix_run(p, p.len() as int);
    assert(seq![Command::Reset].add(p).len() == p.len() + 1);
}

/// A single pop of the empty location stack leaves the state, the scene
/// and the identifier counter unchanged, and raises exactly the
/// location-underflow flag.
pub proof fn lemma_poploc_underflow(m: Machine)
    requires
        m.state.positions.len() == 0,
    ensures
        step_spec(m, Command::PopLoc).state == m.state,
        step_spec(m, Command::PopLoc).scene == m.scene,
        step_spec(m, Command::PopLoc).id_counter == m.id_counter,
        step_spec(m, Command::PopLoc).flags == (BuildResultFlags {
            poploc_on_empty_stack: true,
            ..m.flags
        }),
{
}

/// One step of any command but `Reset` only grows the scene's bounding
/// rectangle.
pub proof fn lemma_step_bounds_monotonic(m: Machine, c: Command)
    requires
        c != Command::Reset,
    ensures
        crate::geom::rect_contains(step_spec(m, c).scene.bounds, m.scene.bounds),
{
    match c {
        Command::Move(d) => {
            if m.state.pen_down {
                let to = PointFx {
                    x: sat(m.state.pos_x + mul_div_scale(sat(d as int), cos_fx(m.state.direction as int))) as i64,
                    y: sat(m.state.pos_y + mul_div_scale(sat(d as int), sin_fx(m.state.direction as int))) as i64,
                };
                let from = PointFx { x: m.state.pos_x, y: m.state.pos_y };
                let quad = stroke_quad_spec(from, to, m.state.pen_width);
                crate::geom::lemma_points_bounds_grows(m.scene.bounds, quad);
            }
        },
        _ => {},
    }
}

/// Over any command sequence without `Reset`, the scene's bounding
/// rectangle only ever grows as commands are processed.
pub proof fn lemma_run_bounds_monotonic(m: Machine, cmds: Seq<Command>, n: int)
    requires
        0 <= n <= cmds.len(),
        forall|j: int| 0 <= j < n ==> cmds[j] != Command::Reset,
    ensures
        crate::geom::rect_contains(run_to(m, cmds, n).scene.bounds, m.scene.bounds),
    decreases n,
{
    if n > 0 {
        lemma_run_bounds_monotonic(m, cmds, n - 1);
        lemma_step_bounds_monotonic(run_to(m, cmds, n - 1), cmds[n - 1]);
        crate::geom::lemma_rect_contains_trans(
            run_to(m, cmds, n).scene.bounds,
            run_to(m, cmds, n - 1).scene.bounds,
            m.scene.bounds,
        );
    }
}

/// The same command repeated.
pub open spec fn repeat_cmd(c: Command, n: nat) -> Seq<Command> {
    Seq::new(n, |i: int| c)
}

/// The first `i` commands of a run agree with a run of any extension.
proof fn lemma_run_prefix(m: Machine, a: Seq<Command>, b: Seq<Command>, j: int)
    requires
        0 <= j <= a.len(),
    ensures
        run_to(m, a.add(b), j) == run_to(m, a, j),
    decreases j,
{
    if j > 0 {
        lemma_run_prefix(m, a, b, j - 1);
        assert(a.add(b)[j - 1] == a[j - 1]);
    }
}

/// Running past a prefix continues from the prefix's machine.
proof fn lemma_run_concat(m: Machine, a: Seq<Command>, b: Seq<Command>, k: int)
    requires
        0 <= k <= b.len(),
    ensures
        run_to(m, a.add(b), a.len() + k) == run_to(run_to(m, a, a.len() as int), b, k),
    decreases k,
{
    if k == 0 {
        lemma_run_prefix(m, a, b, a.len() as int);
    } else {
        lemma_run_concat(m, a, b, k - 1);
        assert(a.add(b)[a.len() + k - 1] == b[k - 1]);
    }
}

/// Pushing the location `i` times appends `i` copies of the current
/// position and changes nothing else.
proof fn lemma_pushloc_run(m: Machine, n: nat, i: int)
    requires
        0 <= i <= n,
    ensures
        ({
            let r = run_to(m, repeat_cmd(Command::PushLoc, n), i);
            &&& r.state == (StateModel {
                positions: m.state.positions + Seq::new(i as nat, |t: int| (m.state.pos_x, m.state.pos_y)),
                ..m.state
            })
            &&& r.scene == m.scene
            &&& r.flags == m.flags
            &&& r.id_counter == m.id_counter
        }),
    decreases i,
{
    if i == 0 {
        assert(m.state.positions + Seq::new(0, |t: int| (m.state.pos_x, m.state.pos_y))
            =~= m.state.positions);
    } else {
        lemma_pushloc_run(m, n, i - 1);
        assert(repeat_cmd(Command::PushLoc, n)[i - 1] == Command::PushLoc);
        assert((m.state.positions + Seq::new((i - 1) as nat, |t: int| (m.state.pos_x, m.state.pos_y))).push(
            (m.state.pos_x, m.state.pos_y),
        ) =~= m.state.positions + Seq::new(i as nat, |t: int| (m.state.pos_x, m.state.pos_y)));
        assert(run_to(m, repeat_cmd(Command::PushLoc, n), i).state =~= (StateModel {
            positions: m.state.positions + Seq::new(i as nat, |t: int| (m.state.pos_x, m.state.pos_y)),
            ..m.state
        }));
    }
}

/// Popping `i` times off a stack that ends in `i` or more copies of `p`
/// restores those copies away, moves the cursor to `p` (when any pop
/// happened), and raises no flag.
proof fn lemma_poploc_run(m: Machine, st: Seq<(i64, i64)>, p: (i64, i64), n: nat, i: int)
    requires
        0 <= i <= n,
        m.state.positions == st + Seq::new(n, |t: int| p),
    ensures
        ({
            let r = run_to(m, repeat_cmd(Command::PopLoc, n as nat), i);
            &&& r.state.positions == st + Seq::new((n - i) as nat, |t: int| p)
            &&& r.state.pos_x == if i == 0 { m.state.pos_x } else { p.0 }
            &&& r.state.pos_y == if i == 0 { m.state.pos_y } else { p.1 }
            &&& r.state.direction == m.state.direction
            &&& r.state.pen_down == m.state.pen_down
            &&& r.state.directions == m.state.directions
            &&& r.state.pen_width == m.state.pen_width
            &&& r.state.pen_color == m.state.pen_color
            &&& r.state.bounds == m.state.bounds
            &&& r.scene == m.scene
            &&& r.flags == m.flags
            &&& r.id_counter == m.id_counter
        }),
    decreases i,
{
    if i > 0 {
        lemma_poploc_run(m, st, p, n, i - 1);
        let r0 = run_to(m, repeat_cmd(Command::PopLoc, n as nat), i - 1);
        assert(repeat_cmd(Command::PopLoc, n as nat)[i - 1] == Command::PopLoc);
        let stack0 = st + Seq::new((n - i + 1) as nat, |t: int| p);
        assert(stack0.len() == st.len() + n - i + 1 > 0);
        assert(stack0.last() == p);
        assert(stack0.drop_last() =~= st + Seq::new((n - i) as nat, |t: int| p));
    }
}

/// For a program of `n` location pushes followed by `n` location pops,
/// the final position equals the position before the first push, and no
/// location-underflow flag is raised.
pub proof fn lemma_stack_balance(m: Machine, n: nat)
    requires
        !m.flags.poploc_on_empty_stack,
    ensures
        ({
            let p = repeat_cmd(Command::PushLoc, n).add(repeat_cmd(Command::PopLoc, n));
            let r = run_to(m, p, p.len() as int);
            &&& r.state.pos_x == m.state.pos_x
            &&& r.state.pos_y == m.state.pos_y
            &&& !r.flags.poploc_on_empty_stack
        }),
{
    let a = repeat_cmd(Command::PushLoc, n);
    let b = repeat_cmd(Command::PopLoc, n);
    lemma_run_concat(m, a, b, n as int);
    lemma_pushloc_run(m, n, n as int);
    let mid = run_to(m, a, n as int);
    lemma_poploc_run(mid, m.state.positions, (m.state.pos_x, m.state.pos_y), n, n as int);
}

} // verus!
