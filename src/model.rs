//! The editor as values: a model of its state, each step of a tick as a
//! function on that model, and proofs that every step keeps the blocks a
//! well-formed forest.

use vstd::prelude::*;

use crate::block::{Expr, Object, ObjectData, Orientation, Point, Slot};
use crate::layout::{child_offset, child_size, lemma_child_slot_shrinks, short_side};
use crate::mouseover::{
    all_in_extent, hit_side, lemma_top_of_exists, lemma_top_unique, rehovered, top_of, HoverState,
    Side,
};
use crate::placing::{AppState, Shape, TickInput, PLACING_SIZE, ZOOM_ONE};

verus! {

/// Number of live blocks.
pub open spec fn live_count(objs: Seq<Option<Object>>) -> nat
    decreases objs.len(),
{
    if objs.len() == 0 {
        0
    } else {
        live_count(objs.drop_last()) + if objs.last() is Some {
            1nat
        } else {
            0nat
        }
    }
}

/// A fresh node of the given shape: open slots, no binding structure.
pub open spec fn fresh(k: Shape) -> Expr {
    match k {
        Shape::Variable => Expr::Variable,
        Shape::Function => Expr::empty_function(),
        Shape::Application => Expr::empty_application(),
    }
}

/// `e` holds `c` in one of its slots.
pub open spec fn has_child(e: Expr, c: usize) -> bool {
    e.slot(Slot::Body) == Some(c) || e.slot(Slot::Func) == Some(c) || e.slot(Slot::Args) == Some(c)
}

/// Every slot of `e` is open.
pub open spec fn no_children(e: Expr) -> bool {
    e.slot(Slot::Body) is None && e.slot(Slot::Func) is None && e.slot(Slot::Args) is None
}

/// Which slot a block dropped on the given side of `e` would fill.
pub open spec fn slot_for(e: Expr, side: Side) -> Option<Slot> {
    match e {
        Expr::Function { .. } => Some(Slot::Body),
        Expr::Application { .. } => Some(
            match side {
                Side::First => Slot::Func,
                Side::Second => Slot::Args,
            },
        ),
        Expr::Variable => None,
    }
}

/// A block going into a function's body from the first side is drawn
/// flipped, so that the function's dot shows on the correct side.
pub open spec fn flips(e: Expr, side: Side) -> bool {
    e is Function && side == Side::First
}

/// Size of a block in flight at the given zoom (in millionths).
pub open spec fn placing_size(zoom: u32) -> int {
    zoom as int * PLACING_SIZE as int / ZOOM_ONE as int
}

/// Placement of a block sitting in the given side of a parent placed at `p`.
pub open spec fn snapped(p: ObjectData, side: Side, flip: bool, parent: Option<usize>) -> ObjectData {
    let off = child_offset(p.size as int, p.orientation, side);
    ObjectData {
        orientation: p.orientation.swapped(),
        location: Point { x: (p.location.x + off.0) as i64, y: (p.location.y + off.1) as i64 },
        size: child_size(p.size as int) as i64,
        parent,
        flip,
    }
}

pub open spec fn live(objs: Seq<Option<Object>>, i: int) -> bool {
    0 <= i < objs.len() && objs[i] is Some
}

/// Slot `s` of block `p` holds block `c`.
pub open spec fn holds(objs: Seq<Option<Object>>, p: int, s: Slot, c: int) -> bool {
    &&& live(objs, p)
    &&& objs[p].unwrap().expr.slot(s) is Some
    &&& objs[p].unwrap().expr.slot(s).unwrap() as int == c
}

/// The parent reference of block `c`.
pub open spec fn parent_at(objs: Seq<Option<Object>>, c: int) -> Option<usize> {
    objs[c].unwrap().data.parent
}

/// The blocks form a forest: each filled slot holds a live block smaller
/// than its owner whose parent is that owner; each parent reference is
/// matched by a slot; an application's two slots differ; a hovered block has
/// positive size; all geometry is in range.
pub open spec fn forest(objs: Seq<Option<Object>>) -> bool {
    &&& all_in_extent(objs)
    &&& objs.len() <= usize::MAX
    &&& forall|i: int|
        0 <= i < objs.len() && #[trigger] objs[i] is Some && objs[i].unwrap().hover is Yes
            ==> objs[i].unwrap().data.size > 0
    &&& forall|p: int, s: Slot, c: int|
        #[trigger] holds(objs, p, s, c) ==> {
            &&& live(objs, c)
            &&& parent_at(objs, c) == Some(p as usize)
            &&& objs[c].unwrap().data.size < objs[p].unwrap().data.size
        }
    &&& forall|c: int|
        live(objs, c) && #[trigger] parent_at(objs, c) is Some ==> {
            let p = parent_at(objs, c).unwrap() as int;
            live(objs, p) && has_child(objs[p].unwrap().expr, c as usize)
        }
    &&& forall|p: int|
        0 <= p < objs.len() && #[trigger] objs[p] is Some && objs[p].unwrap().expr is Application
            ==> objs[p].unwrap().expr.slot(Slot::Func) is None || objs[p].unwrap().expr.slot(
            Slot::Func,
        ) != objs[p].unwrap().expr.slot(Slot::Args)
}

/// `e` with every slot that holds `t` opened.
pub open spec fn clear_refs(e: Expr, t: usize) -> Expr {
    match e {
        Expr::Function { bind, body } => Expr::Function {
            bind,
            body: if body == Some(t) { None } else { body },
        },
        Expr::Application { func, args } => Expr::Application {
            func: if func == Some(t) { None } else { func },
            args: if args == Some(t) { None } else { args },
        },
        Expr::Variable => Expr::Variable,
    }
}

pub open spec fn unhovered(o: Option<Object>) -> Option<Object> {
    match o {
        Some(o) => Some(Object { hover: HoverState::No, ..o }),
        None => None,
    }
}

/// Block `o` once `t` is destroyed: no slot refers to `t`, and a parent
/// reference to `t` is dropped.
pub open spec fn detached(o: Object, t: usize) -> Object {
    let parent = if o.data.parent == Some(t) {
        None
    } else {
        o.data.parent
    };
    Object { expr: clear_refs(o.expr, t), data: ObjectData { parent, ..o.data }, ..o }
}

/// The blocks with `t` destroyed.
pub open spec fn removed(objs: Seq<Option<Object>>, t: usize) -> Seq<Option<Object>> {
    Seq::new(
        objs.len(),
        |i: int|
            if i == t as int || objs[i] is None {
                None
            } else {
                Some(detached(objs[i].unwrap(), t))
            },
    )
}

/// The open slot that block `t`, hovered as `o`, offers: the block, the
/// slot and the side under the cursor.
pub open spec fn offer(o: Object, t: usize) -> Option<(usize, Slot, Side)> {
    match o.hover {
        HoverState::Yes { side, .. } => match slot_for(o.expr, side) {
            Some(s) => if o.expr.slot(s) is None {
                Some((t, s, side))
            } else {
                None
            },
            None => None,
        },
        HoverState::No => None,
    }
}

/// The editor's state, seen as values: the arena of blocks (a handle is an
/// index, and also the stacking depth), the block in flight, the ambient
/// placing orientation and the top hovered block.
pub struct Model {
    pub objs: Seq<Option<Object>>,
    pub placing: Option<usize>,
    pub orientation: Orientation,
    pub top: Option<usize>,
}

impl Model {
    pub open spec fn live(self, i: int) -> bool {
        live(self.objs, i)
    }

    pub open spec fn node(self, i: int) -> Object {
        self.objs[i].unwrap()
    }

    /// The blocks form a forest, and the block in flight is live, unattached,
    /// childless, unhovered and in no slot; the top block is live and not in
    /// flight.
    pub open spec fn wf(self) -> bool {
        &&& forest(self.objs)
        &&& self.placing matches Some(f) ==> {
            &&& self.live(f as int)
            &&& self.node(f as int).data.parent is None
            &&& no_children(self.node(f as int).expr)
            &&& self.node(f as int).hover == HoverState::No
            &&& forall|p: int, s: Slot| !#[trigger] holds(self.objs, p, s, f as int)
        }
        &&& self.top matches Some(t) ==> self.live(t as int) && self.placing != Some(t)
    }

    /// No block but the one in flight exists: the only case in which a block
    /// may be committed onto the blank canvas.
    pub open spec fn canvas_is_empty(self, f: usize) -> bool {
        forall|i: int| 0 <= i < self.objs.len() && i != f ==> #[trigger] self.objs[i] is None
    }

    pub open spec fn app_state(self) -> AppState {
        if self.placing is Some {
            AppState::PlacingObject
        } else {
            AppState::Default
        }
    }

    /// Place command: spawns a fresh block in flight when none is, else
    /// retypes the block in flight, keeping its placement.
    pub open spec fn place(self, k: Shape) -> Model {
        match self.placing {
            None => if self.objs.len() < usize::MAX {
                Model {
                    objs: self.objs.push(
                        Some(Object { data: ObjectData::initial(), expr: fresh(k), hover: HoverState::No }),
                    ),
                    placing: Some(self.objs.len() as usize),
                    ..self
                }
            } else {
                self
            },
            Some(f) => Model {
                objs: self.objs.update(f as int, Some(Object { expr: fresh(k), ..self.node(f as int) })),
                ..self
            },
        }
    }

    /// Rotate command: swaps the placing orientation while a block is in flight.
    pub open spec fn rotate(self) -> Model {
        if self.placing is Some {
            Model { orientation: self.orientation.swapped(), ..self }
        } else {
            self
        }
    }

    /// Cancel command: discards the block in flight.
    pub open spec fn cancel(self) -> Model {
        match self.placing {
            Some(f) => Model { objs: self.objs.update(f as int, None), placing: None, ..self },
            None => self,
        }
    }

    /// The block in flight follows the cursor `c`, at the size that the zoom
    /// gives and in the placing orientation, unflipped.
    pub open spec fn follow(self, c: (i32, i32), zoom: u32) -> Model {
        match self.placing {
            Some(f) => {
                let data = ObjectData {
                    orientation: self.orientation,
                    location: Point { x: c.0 as i64, y: c.1 as i64 },
                    size: placing_size(zoom) as i64,
                    parent: None,
                    flip: false,
                };
                Model { objs: self.objs.update(f as int, Some(Object { data, ..self.node(f as int) })), ..self }
            },
            None => self,
        }
    }

    /// The top block for cursor `c`.
    pub open spec fn top_for(self, c: (i32, i32)) -> Option<usize> {
        choose|t: Option<usize>| #[trigger] top_of(self.objs, self.placing, c, t)
    }

    /// Hover resolution for cursor `c`, recomputed for every block.
    pub open spec fn hover(self, c: (i32, i32)) -> Model {
        let t = self.top_for(c);
        Model {
            objs: Seq::new(self.objs.len(), |i: int| rehovered(self.objs, self.placing, c, t, i)),
            top: t,
            ..self
        }
    }

    /// With no cursor sample nothing is hovered.
    pub open spec fn unhover(self) -> Model {
        Model { objs: Seq::new(self.objs.len(), |i: int| unhovered(self.objs[i])), top: None, ..self }
    }

    /// The open slot that the top block offers: the top block, the slot and
    /// the side under the cursor.
    pub open spec fn drop_target(self) -> Option<(usize, Slot, Side)> {
        match self.top {
            Some(t) => if self.live(t as int) {
                offer(self.node(t as int), t)
            } else {
                None
            },
            None => None,
        }
    }

    /// Placement of the block in flight in the drop target `(p, _, side)`.
    pub open spec fn snapped_into(self, p: usize, side: Side, parent: Option<usize>) -> ObjectData {
        snapped(self.node(p as int).data, side, flips(self.node(p as int).expr, side), parent)
    }

    /// Preview: the block in flight takes the place it would have in the
    /// drop target.
    pub open spec fn snap(self) -> Model {
        match (self.placing, self.drop_target()) {
            (Some(f), Some((p, _s, side))) => Model {
                objs: self.objs.update(
                    f as int,
                    Some(Object { data: self.snapped_into(p, side, None), ..self.node(f as int) }),
                ),
                ..self
            },
            _ => self,
        }
    }

    /// The blocks once block `f` is put into slot `s` of block `p`, on `side`.
    pub open spec fn committed(self, f: usize, p: usize, s: Slot, side: Side) -> Seq<Option<Object>> {
        let child = Object { data: self.snapped_into(p, side, Some(p)), ..self.node(f as int) };
        let owner = Object { expr: self.node(p as int).expr.with_slot(s, Some(f)), ..self.node(p as int) };
        self.objs.update(f as int, Some(child)).update(p as int, Some(owner))
    }

    /// Confirm: the block in flight goes into the drop target; without one it
    /// stays on the canvas only when the canvas holds no other block.
    pub open spec fn confirm(self) -> Model {
        match (self.placing, self.drop_target()) {
            (Some(f), Some((p, s, side))) => Model {
                objs: self.committed(f, p, s, side),
                placing: None,
                ..self
            },
            (Some(f), None) => if self.canvas_is_empty(f) {
                Model { placing: None, ..self }
            } else {
                self
            },
            (None, _) => self,
        }
    }

    /// One tick: place and cancel commands, then the block in flight follows
    /// the cursor, then hover resolution and the preview, then delete and
    /// confirm, which thus act on this tick's hover state, and last rotate,
    /// which the block in flight follows from the next tick on. Delete acts
    /// only when no block was in flight at the start of the tick; the click
    /// of a tick with a place command does not confirm.
    pub open spec fn tick(self, input: TickInput) -> Model {
        let m1 = match input.place {
            Some(k) => self.place(k),
            None => self,
        };
        let m3 = if input.cancel { m1.cancel() } else { m1 };
        let m5 = match input.cursor {
            Some(c) => m3.follow(c, input.zoom).hover(c),
            None => m3.unhover(),
        };
        let m6 = m5.snap();
        let m7 = if input.delete && self.placing is None { m6.delete() } else { m6 };
        let m8 = if input.confirm && input.place is None { m7.confirm() } else { m7 };
        if input.rotate { m8.rotate() } else { m8 }
    }

    /// The model after each input of `inputs` in turn.
    pub open spec fn run(self, inputs: Seq<TickInput>) -> Model
        decreases inputs.len(),
    {
        if inputs.len() == 0 {
            self
        } else {
            self.tick(inputs[0]).run(inputs.drop_first())
        }
    }

    /// Delete: with no block in flight, the top block is removed; the slot
    /// that held it is open again and its children lose their parent.
    pub open spec fn delete(self) -> Model {
        match (self.placing, self.top) {
            (None, Some(t)) => Model { objs: removed(self.objs, t), top: None, ..self },
            _ => self,
        }
    }
}

/// Replacing block `k`, which no slot holds and which has no children, by
/// nothing or by another unattached block without children keeps the forest.
pub proof fn lemma_forest_replace_leaf(objs: Seq<Option<Object>>, k: int, o: Option<Object>)
    requires
        forest(objs),
        0 <= k < objs.len(),
        forall|p: int, s: Slot| !#[trigger] holds(objs, p, s, k),
        objs[k] is Some ==> no_children(objs[k].unwrap().expr),
        o is Some ==> {
            &&& no_children(o.unwrap().expr)
            &&& o.unwrap().data.parent is None
            &&& o.unwrap().data.in_extent()
            &&& o.unwrap().hover is Yes ==> o.unwrap().data.size > 0
        },
    ensures
        forest(objs.update(k, o)),
{
    let r = objs.update(k, o);
    assert forall|p: int, s: Slot, c: int| #[trigger] holds(r, p, s, c) implies live(r, c)
        && parent_at(r, c) == Some(p as usize) && r[c].unwrap().data.size
        < r[p].unwrap().data.size by {
        assert(p != k);
        assert(holds(objs, p, s, c));
        assert(c != k);
    }
    assert forall|c: int| live(r, c) && #[trigger] parent_at(r, c) is Some implies {
        let p = parent_at(r, c).unwrap() as int;
        live(r, p) && has_child(r[p].unwrap().expr, c as usize)
    } by {
        assert(objs[c] is Some);
        if c != k {
            assert(parent_at(objs, c) is Some);
            let p = parent_at(objs, c).unwrap() as int;
            assert(live(objs, p) && has_child(objs[p].unwrap().expr, c as usize));
            if p == k {
                assert(has_child(objs[k].unwrap().expr, c as usize));
            }
        }
    }
    assert forall|i: int| 0 <= i < r.len() && #[trigger] r[i] is Some implies r[i].unwrap().data.in_extent() by {
        if i != k {
            assert(objs[i] is Some);
        }
    }
    assert forall|i: int| 0 <= i < r.len() && #[trigger] r[i] is Some && r[i].unwrap().hover is Yes implies r[i].unwrap().data.size > 0 by {
        if i != k {
            assert(objs[i] is Some);
        }
    }
    assert forall|p: int| 0 <= p < r.len() && #[trigger] r[p] is Some && r[p].unwrap().expr is Application implies r[p].unwrap().expr.slot(Slot::Func) is None || r[p].unwrap().expr.slot(
            Slot::Func,
        ) != r[p].unwrap().expr.slot(Slot::Args) by {
        if p != k {
            assert(objs[p] is Some);
        }
    }
}

pub proof fn lemma_place_wf(m: Model, k: Shape)
    requires
        m.wf(),
    ensures
        m.place(k).wf(),
{
    let r = m.place(k);
    match m.placing {
        None => {
            let n = m.objs.len() as int;
            if n < usize::MAX {
                let e = Some(Object { data: ObjectData::initial(), expr: fresh(k), hover: HoverState::No });
                let pushed = m.objs.push(None);
                assert forall|p: int, s: Slot, c: int| #[trigger] holds(pushed, p, s, c) implies holds(m.objs, p, s, c) by {
                    assert(p < n);
                }
                assert forall|c: int| live(pushed, c) && #[trigger] parent_at(pushed, c) is Some implies parent_at(m.objs, c) is Some by {
                    assert(c < n);
                }
                assert forall|p: int, s: Slot| !#[trigger] holds(pushed, p, s, n) by {
                    if holds(pushed, p, s, n) {
                        assert(holds(m.objs, p, s, n));
                    }
                }
                assert(pushed.update(n, e) == r.objs);
                lemma_forest_replace_leaf(pushed, n, e);
                assert forall|p: int, s: Slot| !#[trigger] holds(r.objs, p, s, n) by {
                    if holds(r.objs, p, s, n) {
                        assert(p != n);
                        assert(holds(m.objs, p, s, n));
                    }
                }
            }
        },
        Some(f) => {
            let fi = f as int;
            lemma_forest_replace_leaf(m.objs, fi, Some(Object { expr: fresh(k), ..m.node(fi) }));
            assert forall|p: int, s: Slot| !#[trigger] holds(r.objs, p, s, fi) by {
                if holds(r.objs, p, s, fi) {
                    assert(holds(m.objs, p, s, fi));
                }
            }
        },
    }
}

pub proof fn lemma_cancel_wf(m: Model)
    requires
        m.wf(),
    ensures
        m.cancel().wf(),
        m.rotate().wf(),
{
    if let Some(f) = m.placing {
        lemma_forest_replace_leaf(m.objs, f as int, None);
    }
}

pub proof fn lemma_follow_wf(m: Model, c: (i32, i32), zoom: u32)
    requires
        m.wf(),
    ensures
        m.follow(c, zoom).wf(),
{
    if let Some(f) = m.placing {
        let size = placing_size(zoom);
        assert(0 <= size <= 1_300_000_000) by (nonlinear_arith)
            requires
                size == zoom as int * 300_000 / 1_000_000,
                0 <= zoom <= 4_294_967_295,
        ;
        let r = m.follow(c, zoom);
        lemma_forest_replace_leaf(m.objs, f as int, r.objs[f as int]);
    }
}

/// The top block for a cursor is the one hover resolution picks.
pub proof fn lemma_top_for(m: Model, c: (i32, i32), t: Option<usize>)
    requires
        m.objs.len() <= usize::MAX,
        top_of(m.objs, m.placing, c, t),
    ensures
        m.top_for(c) == t,
{
    lemma_top_of_exists(m.objs, m.placing, c);
    lemma_top_unique(m.objs, m.objs, m.placing, c, m.top_for(c), t);
}

/// A block under the cursor has positive size.
pub proof fn lemma_hit_positive(d: ObjectData, c: (i32, i32))
    requires
        d.in_extent(),
        hit_side(d, c) is Some,
    ensures
        d.size > 0,
{
    if d.size <= 0 {
        assert(short_side(d.size as int) <= 0) by (nonlinear_arith)
            requires
                d.size <= 0,
                short_side(d.size as int) == d.size * 707_107 / 1_000_000,
        ;
    }
}

pub proof fn lemma_hover_wf(m: Model, c: (i32, i32))
    requires
        m.wf(),
    ensures
        m.hover(c).wf(),
        m.unhover().wf(),
{
    lemma_top_of_exists(m.objs, m.placing, c);
    let t = m.top_for(c);
    let r = m.hover(c);
    assert(top_of(m.objs, m.placing, c, t));
    assert forall|i: int| 0 <= i < r.objs.len() implies (#[trigger] r.objs[i] is Some) == (m.objs[i] is Some) && (r.objs[i] is Some ==> r.objs[i].unwrap().data == m.objs[i].unwrap().data && r.objs[i].unwrap().expr == m.objs[i].unwrap().expr && (r.objs[i].unwrap().hover is Yes ==> r.objs[i].unwrap().data.size > 0)) by {
        if m.objs[i] is Some && r.objs[i].unwrap().hover is Yes {
            lemma_hit_positive(m.objs[i].unwrap().data, c);
        }
    }
    lemma_forest_same_shape(m.objs, r.objs);
    let u = m.unhover();
    assert forall|i: int| 0 <= i < u.objs.len() implies (#[trigger] u.objs[i] is Some) == (m.objs[i] is Some) && (u.objs[i] is Some ==> u.objs[i].unwrap().data == m.objs[i].unwrap().data && u.objs[i].unwrap().expr == m.objs[i].unwrap().expr && (u.objs[i].unwrap().hover is Yes ==> u.objs[i].unwrap().data.size > 0)) by {}
    lemma_forest_same_shape(m.objs, u.objs);
    if let Some(f) = m.placing {
        assert forall|p: int, s: Slot| !#[trigger] holds(r.objs, p, s, f as int) by {
            if holds(r.objs, p, s, f as int) {
                assert(holds(m.objs, p, s, f as int));
            }
        }
        assert forall|p: int, s: Slot| !#[trigger] holds(u.objs, p, s, f as int) by {
            if holds(u.objs, p, s, f as int) {
                assert(holds(m.objs, p, s, f as int));
            }
        }
    }
}

/// Changing only hover states, while keeping hovered blocks of positive
/// size, keeps the forest.
pub proof fn lemma_forest_same_shape(a: Seq<Option<Object>>, b: Seq<Option<Object>>)
    requires
        forest(a),
        a.len() == b.len(),
        forall|i: int|
            0 <= i < b.len() ==> (#[trigger] b[i] is Some) == (a[i] is Some) && (b[i] is Some ==> b[
                i
            ].unwrap().data == a[i].unwrap().data && b[i].unwrap().expr == a[i].unwrap().expr && (
            b[i].unwrap().hover is Yes ==> b[i].unwrap().data.size > 0)),
    ensures
        forest(b),
{
    assert forall|p: int, s: Slot, c: int| #[trigger] holds(b, p, s, c) implies live(b, c)
        && parent_at(b, c) == Some(p as usize) && b[c].unwrap().data.size
        < b[p].unwrap().data.size by {
        assert(b[p] is Some);
        assert(holds(a, p, s, c));
        assert(a[c] is Some);
    }
    assert forall|c: int| live(b, c) && #[trigger] parent_at(b, c) is Some implies {
        let p = parent_at(b, c).unwrap() as int;
        live(b, p) && has_child(b[p].unwrap().expr, c as usize)
    } by {
        assert(b[c] is Some);
        assert(parent_at(a, c) is Some);
        let p = parent_at(a, c).unwrap() as int;
        assert(b[p] is Some);
    }
    assert forall|i: int| 0 <= i < b.len() && #[trigger] b[i] is Some implies b[i].unwrap().data.in_extent() by {
        assert(a[i] is Some);
    }
    assert forall|p: int| 0 <= p < b.len() && #[trigger] b[p] is Some && b[p].unwrap().expr is Application implies b[p].unwrap().expr.slot(Slot::Func) is None || b[p].unwrap().expr.slot(
            Slot::Func,
        ) != b[p].unwrap().expr.slot(Slot::Args) by {
        assert(a[p] is Some);
    }
}

/// A block snapped into a slot of a block `p` of positive size lies within
/// range and is smaller than `p`.
pub proof fn lemma_snapped(p: ObjectData, side: Side, flip: bool, parent: Option<usize>)
    requires
        p.in_extent(),
        p.size > 0,
    ensures
        snapped(p, side, flip, parent).in_extent(),
        snapped(p, side, flip, parent).size < p.size,
        snapped(p, side, flip, parent).size >= 0,
{
    lemma_child_slot_shrinks(p.size as int, p.orientation);
}

pub proof fn lemma_snap_wf(m: Model)
    requires
        m.wf(),
    ensures
        m.snap().wf(),
{
    if let (Some(f), Some((p, _s, side))) = (m.placing, m.drop_target()) {
        let pd = m.node(p as int).data;
        assert(m.objs[p as int] is Some);
        lemma_snapped(pd, side, flips(m.node(p as int).expr, side), None);
        let r = m.snap();
        lemma_forest_replace_leaf(m.objs, f as int, r.objs[f as int]);
        assert forall|q: int, s: Slot| !#[trigger] holds(r.objs, q, s, f as int) by {
            if holds(r.objs, q, s, f as int) {
                assert(holds(m.objs, q, s, f as int));
            }
        }
    }
}

pub proof fn lemma_confirm_wf(m: Model)
    requires
        m.wf(),
    ensures
        m.confirm().wf(),
{
    if let (Some(f), Some((p, s, side))) = (m.placing, m.drop_target()) {
        let (fi, pi) = (f as int, p as int);
        let r = m.confirm();
        let o = r.objs;
        let a = m.objs;
        let pe = m.node(pi).expr;
        assert(a[pi] is Some);
        lemma_snapped(m.node(pi).data, side, flips(pe, side), Some(p));
        assert(fi != pi);
        assert(pe.has_slot(s));
        assert forall|q: int, s2: Slot, c: int| #[trigger] holds(o, q, s2, c) implies live(o, c)
            && parent_at(o, c) == Some(q as usize) && o[c].unwrap().data.size
            < o[q].unwrap().data.size by {
            assert(q != fi);
            if q == pi && s2 == s {
                assert(c == fi);
            } else {
                assert(holds(a, q, s2, c));
                assert(c != fi);
                if c == pi {
                    assert(a[c].unwrap().data.size < a[q].unwrap().data.size);
                }
            }
        }
        assert forall|c: int| live(o, c) && #[trigger] parent_at(o, c) is Some implies {
            let q = parent_at(o, c).unwrap() as int;
            live(o, q) && has_child(o[q].unwrap().expr, c as usize)
        } by {
            if c != fi {
                assert(a[c] is Some);
                assert(parent_at(a, c) is Some);
                let q = parent_at(a, c).unwrap() as int;
                assert(live(a, q) && has_child(a[q].unwrap().expr, c as usize));
                assert(q != fi);
                if q == pi {
                    if pe.slot(Slot::Body) == Some(c as usize) {
                        assert(holds(a, pi, Slot::Body, c));
                    } else if pe.slot(Slot::Func) == Some(c as usize) {
                        assert(holds(a, pi, Slot::Func, c));
                    } else {
                        assert(holds(a, pi, Slot::Args, c));
                    }
                }
            }
        }
        assert forall|i: int| 0 <= i < o.len() && #[trigger] o[i] is Some implies o[i].unwrap().data.in_extent() by {
            if i != fi {
                assert(a[i] is Some);
            }
        }
        assert forall|i: int| 0 <= i < o.len() && #[trigger] o[i] is Some && o[i].unwrap().hover is Yes implies o[i].unwrap().data.size > 0 by {
            if i != fi {
                assert(a[i] is Some);
            }
        }
        assert forall|q: int| 0 <= q < o.len() && #[trigger] o[q] is Some && o[q].unwrap().expr is Application implies o[q].unwrap().expr.slot(Slot::Func) is None || o[q].unwrap().expr.slot(
                Slot::Func,
            ) != o[q].unwrap().expr.slot(Slot::Args) by {
            assert(a[q] is Some);
            if q == pi {
                if s == Slot::Func && pe.slot(Slot::Args) is Some {
                    assert(holds(a, pi, Slot::Args, pe.slot(Slot::Args).unwrap() as int));
                }
                if s == Slot::Args && pe.slot(Slot::Func) is Some {
                    assert(holds(a, pi, Slot::Func, pe.slot(Slot::Func).unwrap() as int));
                }
            }
        }
        assert(forest(o));
    }
}

pub proof fn lemma_delete_wf(m: Model)
    requires
        m.wf(),
    ensures
        m.delete().wf(),
{
    if let (None, Some(t)) = (m.placing, m.top) {
        let ti = t as int;
        let a = m.objs;
        let o = m.delete().objs;
        assert forall|q: int, s2: Slot, c: int| #[trigger] holds(o, q, s2, c) implies live(o, c)
            && parent_at(o, c) == Some(q as usize) && o[c].unwrap().data.size
            < o[q].unwrap().data.size by {
            assert(q != ti);
            assert(holds(a, q, s2, c));
            assert(c != ti);
            assert(a[c] is Some);
        }
        assert forall|c: int| live(o, c) && #[trigger] parent_at(o, c) is Some implies {
            let q = parent_at(o, c).unwrap() as int;
            live(o, q) && has_child(o[q].unwrap().expr, c as usize)
        } by {
            assert(c != ti);
            assert(a[c] is Some);
            assert(parent_at(a, c) is Some);
            let q = parent_at(a, c).unwrap() as int;
            assert(live(a, q) && has_child(a[q].unwrap().expr, c as usize));
        }
        assert forall|i: int| 0 <= i < o.len() && #[trigger] o[i] is Some implies o[i].unwrap().data.in_extent() by {
            assert(a[i] is Some);
        }
        assert forall|i: int| 0 <= i < o.len() && #[trigger] o[i] is Some && o[i].unwrap().hover is Yes implies o[i].unwrap().data.size > 0 by {
            assert(a[i] is Some);
        }
        assert forall|q: int| 0 <= q < o.len() && #[trigger] o[q] is Some && o[q].unwrap().expr is Application implies o[q].unwrap().expr.slot(Slot::Func) is None || o[q].unwrap().expr.slot(
                Slot::Func,
            ) != o[q].unwrap().expr.slot(Slot::Args) by {
            assert(a[q] is Some);
        }
        assert(forest(o));
    }
}

pub proof fn lemma_tick_wf(m: Model, input: TickInput)
    requires
        m.wf(),
    ensures
        m.tick(input).wf(),
{
    let m1 = match input.place {
        Some(k) => m.place(k),
        None => m,
    };
    if let Some(k) = input.place {
        lemma_place_wf(m, k);
    }
    lemma_cancel_wf(m1);
    let m3 = if input.cancel { m1.cancel() } else { m1 };
    lemma_hover_wf(m3, (0, 0));
    if let Some(c) = input.cursor {
        lemma_follow_wf(m3, c, input.zoom);
        lemma_hover_wf(m3.follow(c, input.zoom), c);
    }
    let m5 = match input.cursor {
        Some(c) => m3.follow(c, input.zoom).hover(c),
        None => m3.unhover(),
    };
    lemma_snap_wf(m5);
    let m6 = m5.snap();
    lemma_delete_wf(m6);
    let m7 = if input.delete && m.placing is None { m6.delete() } else { m6 };
    lemma_confirm_wf(m7);
    let m8 = if input.confirm && input.place is None { m7.confirm() } else { m7 };
    lemma_cancel_wf(m8);
}

/// What destroying block `t` does to each other block: its parent loses the
/// reference, its children lose their parent, and every other block is
/// unchanged.
pub proof fn lemma_removed_parts(m: Model, t: usize)
    requires
        m.wf(),
        m.live(t as int),
    ensures
        m.node(t as int).data.parent matches Some(p) ==> {
            &&& p != t
            &&& m.live(p as int)
            &&& !has_child(m.node(t as int).expr, p)
            &&& removed(m.objs, t)[p as int] == Some(
                Object { expr: clear_refs(m.node(p as int).expr, t), ..m.node(p as int) },
            )
        },
        forall|c: usize|
            has_child(m.node(t as int).expr, c) ==> {
                &&& c != t
                &&& m.live(c as int)
                &&& removed(m.objs, t)[c as int] == Some(
                    Object {
                        data: ObjectData { parent: None, ..m.node(c as int).data },
                        ..m.node(c as int)
                    },
                )
            },
        m.node(t as int).expr is Application ==> m.node(t as int).expr.slot(Slot::Func) is None
            || m.node(t as int).expr.slot(Slot::Func) != m.node(t as int).expr.slot(Slot::Args),
        forall|i: int|
            0 <= i < m.objs.len() && i != t as int && Some(i as usize) != m.node(t as int).data.parent
                && !has_child(m.node(t as int).expr, i as usize) ==> #[trigger] removed(m.objs, t)[i]
                == m.objs[i],
{
    let ti = t as int;
    let a = m.objs;
    assert(a[ti] is Some);
    let te = m.node(ti).expr;
    assert forall|c: usize| has_child(te, c) implies {
        &&& c != t
        &&& m.live(c as int)
        &&& removed(m.objs, t)[c as int] == Some(
            Object { data: ObjectData { parent: None, ..m.node(c as int).data }, ..m.node(c as int) },
        )
    } by {
        let s = if te.slot(Slot::Body) == Some(c) {
            Slot::Body
        } else if te.slot(Slot::Func) == Some(c) {
            Slot::Func
        } else {
            Slot::Args
        };
        assert(holds(a, ti, s, c as int));
        let ce = m.node(c as int).expr;
        if has_child(ce, t) {
            let s2 = if ce.slot(Slot::Body) == Some(t) {
                Slot::Body
            } else if ce.slot(Slot::Func) == Some(t) {
                Slot::Func
            } else {
                Slot::Args
            };
            assert(holds(a, c as int, s2, ti));
        }
        assert(clear_refs(ce, t) == ce);
    }
    if let Some(p) = m.node(ti).data.parent {
        assert(parent_at(a, ti) is Some);
        assert(m.live(p as int) && has_child(m.node(p as int).expr, t));
        let pe = m.node(p as int).expr;
        let s = if pe.slot(Slot::Body) == Some(t) {
            Slot::Body
        } else if pe.slot(Slot::Func) == Some(t) {
            Slot::Func
        } else {
            Slot::Args
        };
        assert(holds(a, p as int, s, ti));
        if has_child(te, p) {
            let s2 = if te.slot(Slot::Body) == Some(p) {
                Slot::Body
            } else if te.slot(Slot::Func) == Some(p) {
                Slot::Func
            } else {
                Slot::Args
            };
            assert(holds(a, ti, s2, p as int));
        }
        assert(m.node(p as int).data.parent != Some(t)) by {
            if m.node(p as int).data.parent == Some(t) {
                assert(parent_at(a, p as int) is Some);
                assert(has_child(te, p));
            }
        }
    }
    assert forall|i: int|
        0 <= i < a.len() && i != ti && Some(i as usize) != m.node(ti).data.parent
            && !has_child(te, i as usize) implies #[trigger] removed(a, t)[i] == a[i] by {
        if a[i] is Some {
            let o = a[i].unwrap();
            if o.data.parent == Some(t) {
                assert(parent_at(a, i) is Some);
            }
            if has_child(o.expr, t) {
                let s2 = if o.expr.slot(Slot::Body) == Some(t) {
                    Slot::Body
                } else if o.expr.slot(Slot::Func) == Some(t) {
                    Slot::Func
                } else {
                    Slot::Args
                };
                assert(holds(a, i, s2, ti));
            }
            assert(clear_refs(o.expr, t) == o.expr);
            assert(detached(o, t) == o);
        }
    }
    assert(a[ti] is Some);
}



} // verus!
