//! The placement state machine: spawning, retyping, moving and committing the
//! block in flight, and deleting the hovered block.

use vstd::prelude::*;

use crate::block::{icon_of, Color, Expr, Icon, Object, ObjectData, Orientation, Point, Slot};
use crate::layout::{child_slot_geometry, Transform};
use crate::model::{
    clear_refs, flips, fresh, has_child, holds, lemma_cancel_wf, lemma_confirm_wf, lemma_delete_wf,
    lemma_follow_wf, lemma_hover_wf, lemma_place_wf, lemma_snap_wf, lemma_snapped, lemma_top_for,
    lemma_removed_parts, live_count, removed, unhovered, Model,
};
use crate::mouseover::{mouseover_system, HoverState, Side};

verus! {

/// Size of a block in flight at a zoom of one, in thousandths of a world unit.
pub const PLACING_SIZE: i64 = 300_000;

/// A zoom factor of one, in millionths.
pub const ZOOM_ONE: i64 = 1_000_000;

/// The variant that a place command asks for.
#[derive(Clone, Copy, Debug, PartialEq, Eq, Structural)]
pub enum Shape {
    Variable,
    Function,
    Application,
}

/// Whether a block is in flight.
#[derive(Clone, Copy, Debug, PartialEq, Eq, Structural)]
pub enum AppState {
    Default,
    PlacingObject,
}

/// What one tick hands the editor: the cursor sample (if any), the camera
/// zoom in millionths, and the commands that fired.
#[derive(Clone, Copy, Debug)]
pub struct TickInput {
    pub cursor: Option<(i32, i32)>,
    pub zoom: u32,
    pub place: Option<Shape>,
    pub rotate: bool,
    pub cancel: bool,
    pub delete: bool,
    pub confirm: bool,
}

/// What the renderer draws for one block.
#[derive(Clone, Copy, Debug, PartialEq, Eq, Structural)]
pub struct Visual {
    pub transform: Transform,
    pub icon: Icon,
    pub color: Color,
}

impl Shape {
    /// A fresh node of this shape.
    pub fn to_expr(self) -> (r: Expr)
        ensures
            r == fresh(self),
    {
        match self {
            Shape::Variable => Expr::new_variable(),
            Shape::Function => Expr::new_function(),
            Shape::Application => Expr::new_application(),
        }
    }
}

/// The editor: every block ever spawned (destroyed ones leave an empty entry,
/// so a handle is never reused), the block in flight, the ambient placing
/// orientation and the top hovered block.
pub struct GameState {
    objects: Vec<Option<Object>>,
    placing: Option<usize>,
    placing_orientation: Orientation,
    top_hovering: Option<usize>,
}

impl View for GameState {
    type V = Model;

    closed spec fn view(&self) -> Model {
        Model {
            objs: self.objects@,
            placing: self.placing,
            orientation: self.placing_orientation,
            top: self.top_hovering,
        }
    }
}

impl GameState {
    pub open spec fn wf(&self) -> bool {
        self@.wf()
    }

    /// An empty canvas, nothing in flight, placing horizontally.
    pub fn new() -> (r: GameState)
        ensures
            r@ == crate::invariants::initial_model(),
            r.wf(),
    {
        GameState {
            objects: Vec::new(),
            placing: None,
            placing_orientation: Orientation::Horizontal,
            top_hovering: None,
        }
    }

    /// A copy of live block `i`.
    fn node(&self, i: usize) -> (r: Object)
        requires
            self@.live(i as int),
        ensures
            r == self@.node(i as int),
    {
        match &self.objects[i] {
            Some(o) => o.clone(),
            None => {
                assert(false);
                Object::new(Expr::new_variable())
            },
        }
    }

    /// Spawns a block of the given shape in flight, or retypes the block
    /// already in flight.
    pub fn place_expr(&mut self, k: Shape)
        requires
            old(self).wf(),
        ensures
            final(self)@ == old(self)@.place(k),
            final(self).wf(),
    {
        proof {
            lemma_place_wf(self@, k);
        }
        match self.placing {
            None => {
                if self.objects.len() < usize::MAX {
                    let n = self.objects.len();
                    self.objects.push(Some(Object::new(k.to_expr())));
                    self.placing = Some(n);
                }
            },
            Some(f) => {
                let o = self.node(f);
                self.objects.set(f, Some(Object { expr: k.to_expr(), data: o.data, hover: o.hover }));
            },
        }
    }

    /// Swaps the placing orientation while a block is in flight.
    pub fn rotate(&mut self)
        requires
            old(self).wf(),
        ensures
            final(self)@ == old(self)@.rotate(),
            final(self).wf(),
    {
        proof {
            lemma_cancel_wf(self@);
        }
        if self.placing.is_some() {
            self.placing_orientation = self.placing_orientation.swap();
        }
    }

    /// Destroys the block in flight.
    pub fn cancel(&mut self)
        requires
            old(self).wf(),
        ensures
            final(self)@ == old(self)@.cancel(),
            final(self).wf(),
    {
        proof {
            lemma_cancel_wf(self@);
        }
        if let Some(f) = self.placing {
            self.objects.set(f, None);
            self.placing = None;
        }
    }

    /// Moves the block in flight to the cursor, sized by the zoom (in
    /// millionths) and in the placing orientation.
    pub fn follow(&mut self, c: (i32, i32), zoom: u32)
        requires
            old(self).wf(),
        ensures
            final(self)@ == old(self)@.follow(c, zoom),
            final(self).wf(),
    {
        proof {
            lemma_follow_wf(self@, c, zoom);
        }
        if let Some(f) = self.placing {
            let o = self.node(f);
            let size = zoom as i64 * PLACING_SIZE / ZOOM_ONE;
            let data = ObjectData {
                orientation: self.placing_orientation,
                location: Point { x: c.0 as i64, y: c.1 as i64 },
                size,
                parent: None,
                flip: false,
            };
            self.objects.set(f, Some(Object { data, expr: o.expr, hover: o.hover }));
        }
    }

    /// Hover resolution for the cursor `c` over every block but the one in
    /// flight.
    pub fn mouseover(&mut self, c: (i32, i32))
        requires
            old(self).wf(),
        ensures
            final(self)@ == old(self)@.hover(c),
            final(self).wf(),
    {
        proof {
            lemma_hover_wf(self@, c);
        }
        let ghost m = self@;
        let top = mouseover_system(&mut self.objects, self.placing, c);
        self.top_hovering = top;
        proof {
            lemma_top_for(m, c, top);
            assert(self@.objs =~= m.hover(c).objs);
        }
    }

    /// With no cursor sample, nothing is hovered.
    pub fn unhover(&mut self)
        requires
            old(self).wf(),
        ensures
            final(self)@ == old(self)@.unhover(),
            final(self).wf(),
    {
        proof {
            lemma_hover_wf(self@, (0, 0));
        }
        let ghost m = self@;
        let mut k: usize = 0;
        while k < self.objects.len()
            invariant
                self@.placing == m.placing,
                self@.orientation == m.orientation,
                self@.top == m.top,
                0 <= k <= m.objs.len(),
                self@.objs.len() == m.objs.len(),
                forall|j: int| 0 <= j < k ==> #[trigger] self@.objs[j] == unhovered(m.objs[j]),
                forall|j: int| k <= j < m.objs.len() ==> #[trigger] self@.objs[j] == m.objs[j],
            decreases m.objs.len() - k,
        {
            let next = match &self.objects[k] {
                Some(o) => Some(Object { data: o.data, expr: o.expr.clone(), hover: HoverState::No }),
                None => None,
            };
            self.objects.set(k, next);
            k = k + 1;
        }
        self.top_hovering = None;
        proof {
            assert(self@.objs =~= m.unhover().objs);
        }
    }

    /// The open slot that the top block offers under the cursor, if any.
    pub fn drop_target(&self) -> (r: Option<(usize, Slot, Side)>)
        requires
            self.wf(),
        ensures
            r == self@.drop_target(),
    {
        match self.top_hovering {
            Some(t) => {
                let o = self.node(t);
                match o.hover {
                    HoverState::Yes { side, .. } => {
                        let slot = match o.expr {
                            Expr::Function { .. } => Some(Slot::Body),
                            Expr::Application { .. } => Some(
                                match side {
                                    Side::First => Slot::Func,
                                    Side::Second => Slot::Args,
                                },
                            ),
                            Expr::Variable => None,
                        };
                        match slot {
                            Some(sl) => if o.expr.get_slot(sl).is_none() {
                                Some((t, sl, side))
                            } else {
                                None
                            },
                            None => None,
                        }
                    },
                    HoverState::No => None,
                }
            },
            None => None,
        }
    }

    /// Placement of the block in flight inside slot `side` of block `p`.
    fn snapped_data(&self, p: usize, side: Side, parent: Option<usize>) -> (r: ObjectData)
        requires
            self.wf(),
            self@.live(p as int),
            self@.node(p as int).data.size > 0,
        ensures
            r == self@.snapped_into(p, side, parent),
    {
        let o = self.node(p);
        proof {
            lemma_snapped(o.data, side, flips(o.expr, side), parent);
            assert(self@.objs[p as int] is Some);
        }
        let (size, offset, orientation) = child_slot_geometry(o.data.size, o.data.orientation, side);
        let flip = match o.expr {
            Expr::Function { .. } => match side {
                Side::First => true,
                Side::Second => false,
            },
            _ => false,
        };
        ObjectData {
            orientation,
            location: Point { x: o.data.location.x + offset.x, y: o.data.location.y + offset.y },
            size,
            parent,
            flip,
        }
    }

    /// Preview: the block in flight takes the place it would have in the
    /// drop target.
    pub fn snap(&mut self)
        requires
            old(self).wf(),
        ensures
            final(self)@ == old(self)@.snap(),
            final(self).wf(),
    {
        proof {
            lemma_snap_wf(self@);
        }
        if let Some(f) = self.placing {
            if let Some((p, _s, side)) = self.drop_target() {
                proof {
                    assert(self@.objs[p as int] is Some);
                }
                let data = self.snapped_data(p, side, None);
                let o = self.node(f);
                self.objects.set(f, Some(Object { data, expr: o.expr, hover: o.hover }));
            }
        }
    }

    /// Whether no block but `f` exists.
    fn canvas_is_empty(&self, f: usize) -> (r: bool)
        ensures
            r == self@.canvas_is_empty(f),
    {
        let mut i: usize = 0;
        while i < self.objects.len()
            invariant
                0 <= i <= self.objects@.len(),
                forall|j: int| 0 <= j < i && j != f ==> #[trigger] self.objects@[j] is None,
            decreases self.objects@.len() - i,
        {
            if i != f && self.objects[i].is_some() {
                return false;
            }
            i = i + 1;
        }
        true
    }

    /// Commits the block in flight into the drop target; without one, onto
    /// the canvas when it holds no other block; otherwise does nothing.
    pub fn confirm(&mut self)
        requires
            old(self).wf(),
        ensures
            final(self)@ == old(self)@.confirm(),
            final(self).wf(),
    {
        proof {
            lemma_confirm_wf(self@);
        }
        let ghost m = self@;
        if let Some(f) = self.placing {
            match self.drop_target() {
                Some((p, s, side)) => {
                    proof {
                        assert(self@.objs[p as int] is Some);
                    }
                    let data = self.snapped_data(p, side, Some(p));
                    let child = self.node(f);
                    let owner = self.node(p);
                    let mut expr = owner.expr;
                    let filled = expr.fill_slot(s, f);
                    assert(filled is Ok);
                    self.objects.set(f, Some(Object { data, expr: child.expr, hover: child.hover }));
                    self.objects.set(p, Some(Object { data: owner.data, expr, hover: owner.hover }));
                    self.placing = None;
                    proof {
                        assert(self@.objs =~= m.committed(f, p, s, side));
                    }
                },
                None => {
                    if self.canvas_is_empty(f) {
                        self.placing = None;
                    }
                },
            }
        }
    }

    /// Sets the parent reference of live block `c` to none.
    fn detach(&mut self, c: usize)
        requires
            old(self)@.live(c as int),
        ensures
            final(self)@ == (Model {
                objs: old(self)@.objs.update(
                    c as int,
                    Some(
                        Object {
                            data: ObjectData { parent: None, ..old(self)@.node(c as int).data },
                            ..old(self)@.node(c as int)
                        },
                    ),
                ),
                ..old(self)@
            }),
    {
        let o = self.node(c);
        let data = ObjectData { parent: None, ..o.data };
        self.objects.set(c, Some(Object { data, expr: o.expr, hover: o.hover }));
    }

    /// Destroys the top block when nothing is in flight: the slot that held
    /// it opens again, and its children lose their parent reference.
    pub fn delete_hovered(&mut self)
        requires
            old(self).wf(),
        ensures
            final(self)@ == old(self)@.delete(),
            final(self).wf(),
    {
        proof {
            lemma_delete_wf(self@);
        }
        let ghost m = self@;
        if self.placing.is_none() {
            if let Some(t) = self.top_hovering {
                let o = self.node(t);
                proof {
                    lemma_removed_parts(m, t);
                }
                self.objects.set(t, None);
                if let Some(p) = o.data.parent {
                    let po = self.node(p);
                    let expr = without_refs(po.expr, t);
                    self.objects.set(p, Some(Object { data: po.data, expr, hover: po.hover }));
                }
                proof {
                    assert forall|i: int|
                        0 <= i < m.objs.len() && i != t as int && Some(i as usize) != o.data.parent
                            implies #[trigger] self@.objs[i] == m.objs[i] by {}
                }
                let first = match o.expr {
                    Expr::Function { body, .. } => body,
                    Expr::Application { func, .. } => func,
                    Expr::Variable => None,
                };
                let second = match o.expr {
                    Expr::Application { args, .. } => args,
                    _ => None,
                };
                let ghost te = o.expr;
                proof {
                    if let Some(c) = first {
                        assert(has_child(te, c));
                        assert(c != t && Some(c) != o.data.parent);
                        assert(m.live(c as int));
                        assert(self@.objs[c as int] == m.objs[c as int]);
                    }
                    if let Some(c) = second {
                        assert(has_child(te, c));
                        assert(c != t && Some(c) != o.data.parent);
                        assert(m.live(c as int));
                        assert(self@.objs[c as int] == m.objs[c as int]);
                        assert(first != second);
                    }
                }
                if let Some(c) = first {
                    self.detach(c);
                }
                if let Some(c) = second {
                    self.detach(c);
                }
                self.top_hovering = None;
                proof {
                    let r = removed(m.objs, t);
                    assert forall|i: int| 0 <= i < r.len() implies #[trigger] self@.objs[i] == r[i] by {
                        if i != t as int && Some(i as usize) != o.data.parent && !has_child(te, i as usize) {
                            assert(r[i] == m.objs[i]);
                        }
                    }
                    assert(self@.objs =~= r);
                }
            }
        }
    }

    /// One tick of the editor: place and cancel commands, following the
    /// cursor, hover resolution, preview, delete (only when nothing was in
    /// flight at the start of the tick), confirm (not in a tick with a place
    /// command, whose click spawned the block), and last rotate, which the
    /// block in flight follows from the next tick on.
    pub fn tick(&mut self, input: TickInput)
        requires
            old(self).wf(),
        ensures
            final(self)@ == old(self)@.tick(input),
            final(self).wf(),
    {
        let was_idle = self.placing.is_none();
        if let Some(k) = input.place {
            self.place_expr(k);
        }
        if input.cancel {
            self.cancel();
        }
        match input.cursor {
            Some(c) => {
                self.follow(c, input.zoom);
                self.mouseover(c);
            },
            None => self.unhover(),
        }
        self.snap();
        if input.delete && was_idle {
            self.delete_hovered();
        }
        if input.confirm && input.place.is_none() {
            self.confirm();
        }
        if input.rotate {
            self.rotate();
        }
    }

    pub fn app_state(&self) -> (r: AppState)
        ensures
            r == self@.app_state(),
    {
        if self.placing.is_some() {
            AppState::PlacingObject
        } else {
            AppState::Default
        }
    }

    /// The block in flight.
    pub fn placing(&self) -> (r: Option<usize>)
        ensures
            r == self@.placing,
    {
        self.placing
    }

    /// The orientation a block in flight takes.
    pub fn placing_orientation(&self) -> (r: Orientation)
        ensures
            r == self@.orientation,
    {
        self.placing_orientation
    }

    /// The top hovered block.
    pub fn top_hovering(&self) -> (r: Option<usize>)
        ensures
            r == self@.top,
    {
        self.top_hovering
    }

    /// Number of blocks ever spawned; the next one gets this handle and
    /// stacking depth.
    pub fn placing_index(&self) -> (r: usize)
        ensures
            r == self@.objs.len(),
    {
        self.objects.len()
    }

    /// Block `i`, if it exists.
    pub fn object(&self, i: usize) -> (r: Option<Object>)
        ensures
            r == (if i < self@.objs.len() { self@.objs[i as int] } else { None }),
    {
        if i < self.objects.len() {
            match &self.objects[i] {
                Some(o) => Some(o.clone()),
                None => None,
            }
        } else {
            None
        }
    }

    /// Number of live blocks.
    pub fn count(&self) -> (r: usize)
        ensures
            r == live_count(self@.objs),
    {
        let mut n: usize = 0;
        let mut i: usize = 0;
        while i < self.objects.len()
            invariant
                0 <= i <= self.objects@.len(),
                n == live_count(self.objects@.subrange(0, i as int)),
                n <= i,
            decreases self.objects@.len() - i,
        {
            proof {
                assert(self.objects@.subrange(0, i + 1).drop_last() == self.objects@.subrange(0, i as int));
            }
            if self.objects[i].is_some() {
                n = n + 1;
            }
            i = i + 1;
        }
        proof {
            assert(self.objects@.subrange(0, i as int) == self.objects@);
        }
        n
    }

    /// What the renderer draws for block `i`, if it exists: its transform at
    /// stacking depth `i`, its icon, and a highlight when it is the top block.
    pub fn visual(&self, i: usize) -> (r: Option<Visual>)
        requires
            self.wf(),
        ensures
            r == (if self@.live(i as int) {
                Some(
                    Visual {
                        transform: self@.node(i as int).data.transform_of(i),
                        icon: icon_of(self@.node(i as int).expr),
                        color: if self@.top == Some(i) {
                            Color::White
                        } else {
                            Color::Gray
                        },
                    },
                )
            } else {
                None
            }),
    {
        if i < self.objects.len() {
            match &self.objects[i] {
                Some(o) => {
                    proof {
                        assert(self@.objs[i as int] is Some);
                    }
                    let hovering = match self.top_hovering {
                        Some(t) => t == i,
                        None => false,
                    };
                    Some(
                        Visual {
                            transform: o.data.gen_transform(i),
                            icon: ObjectData::gen_texture(&o.expr),
                            color: ObjectData::gen_color(hovering),
                        },
                    )
                },
                None => None,
            }
        } else {
            None
        }
    }
}


/// `e` with every slot that holds `t` opened.
fn without_refs(e: Expr, t: usize) -> (r: Expr)
    ensures
        r == clear_refs(e, t),
{
    match e {
        Expr::Function { bind, body } => {
            let body = match body {
                Some(x) => if x == t { None } else { Some(x) },
                None => None,
            };
            Expr::Function { bind, body }
        },
        Expr::Application { func, args } => {
            let func = match func {
                Some(x) => if x == t { None } else { Some(x) },
                None => None,
            };
            let args = match args {
                Some(x) => if x == t { None } else { Some(x) },
                None => None,
            };
            Expr::Application { func, args }
        },
        Expr::Variable => Expr::Variable,
    }
}

} // verus!
