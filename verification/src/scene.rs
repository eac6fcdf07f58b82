//! The output scene: path objects, the deduplicated paint registry, the
//! accumulated bounding box, and the non-fatal diagnostic flags.

use vstd::prelude::*;
use crate::geom::{PointFx, RectFx, zero_rect};

verus! {

/// An RGBA color; the interpreter supplies RGB and fixes alpha opaque.
#[derive(Clone, Copy, PartialEq, Eq, Structural, Debug)]
pub struct Paint {
    pub r: u8,
    pub g: u8,
    pub b: u8,
    pub a: u8,
}

/// The paint a pen color registers: the RGB components with opaque alpha.
pub open spec fn paint_from_rgb(r: u8, g: u8, b: u8) -> Paint {
    Paint { r, g, b, a: 255 }
}

impl Paint {
    /// Build an opaque paint from RGB components.
    pub fn from_rgb(r: u8, g: u8, b: u8) -> (p: Paint)
        ensures
            p == paint_from_rgb(r, g, b),
    {
        Paint { r, g, b, a: 255 }
    }

    /// Build an opaque paint from a pen-color triple.
    pub fn from_pencolor(pencolor: (u8, u8, u8)) -> (p: Paint)
        ensures
            p == paint_from_rgb(pencolor.0, pencolor.1, pencolor.2),
    {
        Paint::from_rgb(pencolor.0, pencolor.1, pencolor.2)
    }
}

/// A stable reference to a registered paint: its index in the scene's
/// paint list.
#[derive(Clone, Copy, PartialEq, Eq, Structural, Debug)]
pub struct PaintId(pub usize);

/// What kind of geometry a path object was derived from.
#[derive(Clone, Copy, PartialEq, Eq, Structural, Debug)]
pub enum PathObjectKind {
    /// A filled shape.
    Fill,
    /// A shape derived from stroking a path.
    Stroke,
}

/// An immutable drawing record: a closed outline, the paint it is filled
/// with, a monotonically increasing identifier, and its kind.
#[derive(Clone, Debug)]
pub struct PathObject {
    pub outline: Vec<PointFx>,
    pub paint: PaintId,
    pub id: u64,
    pub kind: PathObjectKind,
}

/// The mathematical value of a path object.
#[verifier::ext_equal]
pub ghost struct ObjModel {
    pub outline: Seq<PointFx>,
    pub paint: int,
    pub id: int,
    pub kind: PathObjectKind,
}

impl View for PathObject {
    type V = ObjModel;

    open spec fn view(&self) -> ObjModel {
        ObjModel {
            outline: self.outline@,
            paint: self.paint.0 as int,
            id: self.id as int,
            kind: self.kind,
        }
    }
}

impl PathObject {
    /// Build a path object record.
    pub fn new(outline: Vec<PointFx>, paint: PaintId, id: u64, kind: PathObjectKind) -> (o:
        PathObject)
        ensures
            o@ == (ObjModel { outline: outline@, paint: paint.0 as int, id: id as int, kind }),
    {
        PathObject { outline, paint, id, kind }
    }
}

/// The mathematical value of a scene.
#[verifier::ext_equal]
pub ghost struct SceneModel {
    pub view_box: RectFx,
    pub bounds: RectFx,
    pub objects: Seq<ObjModel>,
    pub paints: Seq<Paint>,
}

/// The scene every run starts from: degenerate bounds, no objects, no
/// paints.
pub open spec fn empty_scene_model() -> SceneModel {
    SceneModel {
        view_box: zero_rect(),
        bounds: zero_rect(),
        objects: Seq::empty(),
        paints: Seq::empty(),
    }
}

/// The aggregate output of one compilation run.
#[derive(Clone, Debug)]
pub struct Scene {
    pub view_box: RectFx,
    pub bounds: RectFx,
    pub objects: Vec<PathObject>,
    pub paints: Vec<Paint>,
}

impl View for Scene {
    type V = SceneModel;

    open spec fn view(&self) -> SceneModel {
        SceneModel {
            view_box: self.view_box,
            bounds: self.bounds,
            objects: self.objects@.map_values(|o: PathObject| o@),
            paints: self.paints@,
        }
    }
}

/// The index of the first paint equal to `p` at or after `i`, or `-1`.
pub open spec fn find_paint_from(ps: Seq<Paint>, p: Paint, i: int) -> int
    recommends
        0 <= i <= ps.len(),
    decreases ps.len() - i when 0 <= i <= ps.len()
{
    if i >= ps.len() {
        -1
    } else if ps[i] == p {
        i
    } else {
        find_paint_from(ps, p, i + 1)
    }
}

/// The index of the first paint equal to `p`, or `-1` if unregistered.
pub open spec fn find_paint(ps: Seq<Paint>, p: Paint) -> int {
    find_paint_from(ps, p, 0)
}

/// Registering a paint: an already-known color returns its existing index
/// and leaves the scene unchanged; a new color is appended.
pub open spec fn register_paint(m: SceneModel, p: Paint) -> (SceneModel, int) {
    let ix = find_paint(m.paints, p);
    if ix >= 0 {
        (m, ix)
    } else {
        (SceneModel { paints: m.paints.push(p), ..m }, m.paints.len() as int)
    }
}

/// Searching past a miss does not change the result.
proof fn lemma_find_paint_skip(ps: Seq<Paint>, p: Paint, i: int)
    requires
        0 <= i <= ps.len(),
        forall|j: int| 0 <= j < i ==> ps[j] != p,
    ensures
        find_paint(ps, p) == find_paint_from(ps, p, i),
    decreases i,
{
    if i > 0 {
        lemma_find_paint_skip(ps, p, i - 1);
    }
}

/// A paint list that misses `p` finds `p` exactly at the end once it is
/// pushed.
pub proof fn lemma_find_paint_push(ps: Seq<Paint>, p: Paint, q: Paint, i: int)
    requires
        0 <= i <= ps.len(),
        find_paint_from(ps, p, i) == -1,
    ensures
        find_paint_from(ps.push(q), p, i) == if q == p {
            ps.len() as int
        } else {
            -1
        },
    decreases ps.len() - i,
{
    if i < ps.len() {
        lemma_find_paint_push(ps, p, q, i + 1);
    } else {
        assert(ps.push(q)[i] == q);
        if q != p {
            assert(find_paint_from(ps.push(q), p, i + 1) == -1);
        }
    }
}

/// A find result is either `-1` or an index of a matching paint.
pub proof fn lemma_find_paint_range(ps: Seq<Paint>, p: Paint, i: int)
    requires
        0 <= i <= ps.len(),
    ensures
        find_paint_from(ps, p, i) == -1 || (i <= find_paint_from(ps, p, i) < ps.len()
            && ps[find_paint_from(ps, p, i)] == p),
    decreases ps.len() - i,
{
    if i < ps.len() {
        lemma_find_paint_range(ps, p, i + 1);
    }
}

/// Registering the same color twice yields the same paint reference both
/// times, and the second registration leaves the scene unchanged.
pub proof fn lemma_paint_dedup(m: SceneModel, p: Paint)
    ensures
        register_paint(register_paint(m, p).0, p).1 == register_paint(m, p).1,
        register_paint(register_paint(m, p).0, p).0 == register_paint(m, p).0,
{
    let ix = find_paint(m.paints, p);
    lemma_find_paint_range(m.paints, p, 0);
    if ix >= 0 {
    } else {
        lemma_find_paint_push(m.paints, p, p, 0);
    }
}

impl Scene {
    /// A fresh, empty scene.
    pub fn new() -> (s: Scene)
        ensures
            s@ == empty_scene_model(),
    {
        let s = Scene {
            view_box: RectFx::zero(),
            bounds: RectFx::zero(),
            objects: Vec::new(),
            paints: Vec::new(),
        };
        proof {
            assert(s@ =~= empty_scene_model());
        }
        s
    }

    /// Register a paint, deduplicating by exact color value.
    pub fn push_paint(&mut self, paint: &Paint) -> (id: PaintId)
        ensures
            final(self)@ == register_paint(old(self)@, *paint).0,
            id.0 as int == register_paint(old(self)@, *paint).1,
            0 <= id.0 < final(self)@.paints.len(),
    {
        let n = self.paints.len();
        let mut i: usize = 0;
        while i < n
            invariant
                0 <= i <= n,
                n == self.paints.len(),
                forall|j: int| 0 <= j < i ==> self.paints@[j] != *paint,
            decreases n - i,
        {
            if self.paints[i].r == paint.r && self.paints[i].g == paint.g && self.paints[i].b
                == paint.b && self.paints[i].a == paint.a {
                proof {
                    lemma_find_paint_skip(self.paints@, *paint, i as int);
                }
                return PaintId(i);
            }
            i = i + 1;
        }
        proof {
            lemma_find_paint_skip(self.paints@, *paint, n as int);
        }
        self.paints.push(*paint);
        proof {
            assert(self@ =~= register_paint(old(self)@, *paint).0);
        }
        PaintId(n)
    }
}

/// The non-fatal diagnostic conditions OR-accumulated across a run.
#[derive(Clone, Copy, PartialEq, Eq, Structural, Debug)]
pub struct BuildResultFlags {
    /// A command tag the interpreter does not recognize was encountered.
    pub unhandled_command: bool,
    /// A location pop ran against an empty location stack.
    pub poploc_on_empty_stack: bool,
    /// A rotation pop ran against an empty rotation stack.
    pub poprot_on_empty_stack: bool,
}

/// The empty flag set.
pub open spec fn empty_flags() -> BuildResultFlags {
    BuildResultFlags {
        unhandled_command: false,
        poploc_on_empty_stack: false,
        poprot_on_empty_stack: false,
    }
}

/// The canonical rendering of a flag set: the names of the raised flags in
/// a fixed order, comma-separated; empty when none is raised.
pub open spec fn flags_text(f: BuildResultFlags) -> Seq<char> {
    if f.unhandled_command {
        if f.poploc_on_empty_stack {
            if f.poprot_on_empty_stack {
                "unhandled command, poploc on empty stack, poprot on empty stack"@
            } else {
                "unhandled command, poploc on empty stack"@
            }
        } else {
            if f.poprot_on_empty_stack {
                "unhandled command, poprot on empty stack"@
            } else {
                "unhandled command"@
            }
        }
    } else {
        if f.poploc_on_empty_stack {
            if f.poprot_on_empty_stack {
                "poploc on empty stack, poprot on empty stack"@
            } else {
                "poploc on empty stack"@
            }
        } else {
            if f.poprot_on_empty_stack {
                "poprot on empty stack"@
            } else {
                ""@
            }
        }
    }
}

impl BuildResultFlags {
    /// The empty flag set.
    pub fn empty() -> (f: BuildResultFlags)
        ensures
            f == empty_flags(),
    {
        BuildResultFlags {
            unhandled_command: false,
            poploc_on_empty_stack: false,
            poprot_on_empty_stack: false,
        }
    }

    /// Whether no flag is raised.
    pub fn is_empty(&self) -> (r: bool)
        ensures
            r == (*self == empty_flags()),
    {
        !self.unhandled_command && !self.poploc_on_empty_stack && !self.poprot_on_empty_stack
    }

    /// Render the raised flags in canonical order, comma-separated.
    pub fn to_text(&self) -> (r: String)
        ensures
            r@ == flags_text(*self),
    {
        if self.unhandled_command {
            if self.poploc_on_empty_stack {
                if self.poprot_on_empty_stack {
                    "unhandled command, poploc on empty stack, poprot on empty stack".to_owned()
                } else {
                    "unhandled command, poploc on empty stack".to_owned()
                }
            } else {
                if self.poprot_on_empty_stack {
                    "unhandled command, poprot on empty stack".to_owned()
                } else {
                    "unhandled command".to_owned()
                }
            }
        } else {
            if self.poploc_on_empty_stack {
                if self.poprot_on_empty_stack {
                    "poploc on empty stack, poprot on empty stack".to_owned()
                } else {
                    "poploc on empty stack".to_owned()
                }
            } else {
                if self.poprot_on_empty_stack {
                    "poprot on empty stack".to_owned()
                } else {
                    "".to_owned()
                }
            }
        }
    }
}

} // verus!
