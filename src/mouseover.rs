//! Which blocks lie under the cursor, and which one of them is on top.

use vstd::prelude::*;

use crate::block::{Object, ObjectData, Orientation};
use crate::layout::{footprint, footprint_of};

verus! {

/// The half of a block's long axis that the cursor is over.
#[derive(Clone, Copy, Debug, PartialEq, Eq, Structural)]
pub enum Side {
    First,
    Second,
}

/// Whether the cursor is over a block: if so, the block's size (smaller blocks
/// rank higher), the side under the cursor, and whether it is the top block.
#[derive(Clone, Copy, Debug, PartialEq, Eq, Structural)]
pub enum HoverState {
    Yes { order: i64, side: Side, top: bool },
    No,
}

impl HoverState {
    pub open spec fn spec_is_top(self) -> bool {
        match self {
            HoverState::Yes { top, .. } => top,
            HoverState::No => false,
        }
    }

    pub fn is_top(&self) -> (r: bool)
        ensures
            r == self.spec_is_top(),
    {
        match self {
            HoverState::Yes { top, .. } => *top,
            HoverState::No => false,
        }
    }
}

pub open spec fn abs(v: int) -> int {
    if v < 0 {
        -v
    } else {
        v
    }
}

/// The side of `d` under the cursor `c`, or `None` when `c` is not strictly
/// inside its footprint.
pub open spec fn hit_side(d: ObjectData, c: (i32, i32)) -> Option<Side> {
    let (w, h) = footprint_of(d.size as int, d.orientation);
    let dx = c.0 as int - d.location.x as int;
    let dy = c.1 as int - d.location.y as int;
    if 2 * abs(dx) < w && 2 * abs(dy) < h {
        let before = match d.orientation {
            Orientation::Horizontal => dx < 0,
            Orientation::Vertical => dy < 0,
        };
        Some(if before { Side::First } else { Side::Second })
    } else {
        None
    }
}

/// Hit test of one block against the cursor.
pub fn hover_side(d: &ObjectData, c: (i32, i32)) -> (r: Option<Side>)
    requires
        d.in_extent(),
    ensures
        r == hit_side(*d, c),
{
    let (w, h) = footprint(d.size, d.orientation);
    let dx = c.0 as i64 - d.location.x;
    let dy = c.1 as i64 - d.location.y;
    let adx = if dx < 0 { -dx } else { dx };
    let ady = if dy < 0 { -dy } else { dy };
    if 2 * adx < w && 2 * ady < h {
        let before = match d.orientation {
            Orientation::Horizontal => dx < 0,
            Orientation::Vertical => dy < 0,
        };
        Some(if before { Side::First } else { Side::Second })
    } else {
        None
    }
}

/// Block `i` exists, is not the excluded one, and is under the cursor.
pub open spec fn hovered(objs: Seq<Option<Object>>, skip: Option<usize>, c: (i32, i32), i: int) -> bool {
    &&& 0 <= i < objs.len()
    &&& objs[i] is Some
    &&& skip != Some(i as usize)
    &&& hit_side(objs[i].unwrap().data, c) is Some
}

/// `t` is the hovered block of least size, the last such in order; `None`
/// when nothing is hovered. Only blocks before `n` are considered.
pub open spec fn top_among(
    objs: Seq<Option<Object>>,
    skip: Option<usize>,
    c: (i32, i32),
    n: int,
    t: Option<usize>,
) -> bool {
    match t {
        None => forall|i: int| 0 <= i < n ==> !#[trigger] hovered(objs, skip, c, i),
        Some(t) => {
            &&& t < n
            &&& hovered(objs, skip, c, t as int)
            &&& forall|i: int|
                0 <= i < n && #[trigger] hovered(objs, skip, c, i) ==> objs[t as int].unwrap().data.size
                    <= objs[i].unwrap().data.size && (i > t ==> objs[t as int].unwrap().data.size
                    < objs[i].unwrap().data.size)
        },
    }
}

pub open spec fn top_of(objs: Seq<Option<Object>>, skip: Option<usize>, c: (i32, i32), t: Option<
    usize,
>) -> bool {
    top_among(objs, skip, c, objs.len() as int, t)
}

/// Hover classification of a block given whether it is the top one.
pub open spec fn hover_state_of(d: ObjectData, c: (i32, i32), top: bool) -> HoverState {
    match hit_side(d, c) {
        Some(side) => HoverState::Yes { order: d.size, side, top },
        None => HoverState::No,
    }
}

/// Entry `i` after hover resolution picked `t` as the top block.
pub open spec fn rehovered(
    objs: Seq<Option<Object>>,
    skip: Option<usize>,
    c: (i32, i32),
    t: Option<usize>,
    i: int,
) -> Option<Object> {
    match objs[i] {
        Some(o) => Some(
            Object {
                hover: if skip == Some(i as usize) {
                    HoverState::No
                } else {
                    hover_state_of(o.data, c, t == Some(i as usize))
                },
                ..o
            },
        ),
        None => None,
    }
}

pub open spec fn all_in_extent(objs: Seq<Option<Object>>) -> bool {
    forall|i: int| 0 <= i < objs.len() && #[trigger] objs[i] is Some ==> objs[i].unwrap().data.in_extent()
}

/// The top block is unique: two resolutions over blocks with the same
/// existence and placement pick the same top block.
pub proof fn lemma_top_unique(
    a: Seq<Option<Object>>,
    b: Seq<Option<Object>>,
    skip: Option<usize>,
    c: (i32, i32),
    t1: Option<usize>,
    t2: Option<usize>,
)
    requires
        a.len() == b.len(),
        forall|i: int|
            0 <= i < a.len() ==> (#[trigger] a[i] is Some) == (b[i] is Some) && (a[i] is Some
                ==> a[i].unwrap().data == b[i].unwrap().data),
        top_of(a, skip, c, t1),
        top_of(b, skip, c, t2),
    ensures
        t1 == t2,
{
    assert forall|i: int| 0 <= i < a.len() implies #[trigger] hovered(a, skip, c, i) == hovered(
        b,
        skip,
        c,
        i,
    ) by {
        assert(a[i] is Some == b[i] is Some);
    }
    match (t1, t2) {
        (Some(x), Some(y)) => {
            assert(hovered(a, skip, c, y as int));
            assert(hovered(b, skip, c, x as int));
        },
        (Some(x), None) => {
            assert(hovered(b, skip, c, x as int));
        },
        (None, Some(y)) => {
            assert(hovered(a, skip, c, y as int));
        },
        (None, None) => {},
    }
}

/// Among the first `n` blocks, some choice of top block exists.
pub proof fn lemma_top_exists(objs: Seq<Option<Object>>, skip: Option<usize>, c: (i32, i32), n: int)
    requires
        0 <= n <= objs.len(),
        objs.len() <= usize::MAX,
    ensures
        exists|t: Option<usize>| #[trigger] top_among(objs, skip, c, n, t),
    decreases n,
{
    if n == 0 {
        assert(top_among(objs, skip, c, 0, None));
    } else {
        lemma_top_exists(objs, skip, c, n - 1);
        let t = choose|t: Option<usize>| #[trigger] top_among(objs, skip, c, n - 1, t);
        let k = n - 1;
        if !hovered(objs, skip, c, k) {
            assert(top_among(objs, skip, c, n, t));
        } else {
            match t {
                None => {
                    assert(top_among(objs, skip, c, n, Some(k as usize)));
                },
                Some(x) => {
                    if objs[k].unwrap().data.size <= objs[x as int].unwrap().data.size {
                        assert(top_among(objs, skip, c, n, Some(k as usize)));
                    } else {
                        assert(top_among(objs, skip, c, n, t));
                    }
                },
            }
        }
    }
}

/// Some choice of top block exists.
pub proof fn lemma_top_of_exists(objs: Seq<Option<Object>>, skip: Option<usize>, c: (i32, i32))
    requires
        objs.len() <= usize::MAX,
    ensures
        exists|t: Option<usize>| #[trigger] top_of(objs, skip, c, t),
{
    lemma_top_exists(objs, skip, c, objs.len() as int);
    let w = choose|t: Option<usize>| #[trigger] top_among(objs, skip, c, objs.len() as int, t);
    assert(top_of(objs, skip, c, w));
}

/// Recomputes the hover state of every block but `skip` from the cursor `c`
/// and returns the top block: of the blocks under the cursor, the smallest,
/// and of equally small ones the last. `skip`, the block in flight, is never
/// hovered.
pub fn mouseover_system(objects: &mut Vec<Option<Object>>, skip: Option<usize>, c: (i32, i32)) -> (top:
    Option<usize>)
    requires
        all_in_extent(old(objects)@),
    ensures
        top_of(old(objects)@, skip, c, top),
        final(objects)@.len() == old(objects)@.len(),
        forall|i: int|
            0 <= i < old(objects)@.len() ==> #[trigger] final(objects)@[i] == rehovered(
                old(objects)@,
                skip,
                c,
                top,
                i,
            ),
{
    let ghost objs = objects@;
    let mut top: Option<usize> = None;
    let mut top_size: i64 = 0;
    let mut i: usize = 0;
    while i < objects.len()
        invariant
            objects@ == objs,
            all_in_extent(objs),
            0 <= i <= objs.len(),
            top_among(objs, skip, c, i as int, top),
            top matches Some(t) ==> top_size == objs[t as int].unwrap().data.size,
        decreases objs.len() - i,
    {
        let skipped = match skip {
            Some(s) => s == i,
            None => false,
        };
        if !skipped {
            match &objects[i] {
                Some(o) => {
                    let hit = hover_side(&o.data, c);
                    if hit.is_some() && (top.is_none() || o.data.size <= top_size) {
                        top = Some(i);
                        top_size = o.data.size;
                    }
                },
                None => {},
            }
        }
        i = i + 1;
    }
    let mut k: usize = 0;
    while k < objects.len()
        invariant
            all_in_extent(objs),
            top_of(objs, skip, c, top),
            0 <= k <= objs.len(),
            objects@.len() == objs.len(),
            forall|j: int| 0 <= j < k ==> #[trigger] objects@[j] == rehovered(objs, skip, c, top, j),
            forall|j: int| k <= j < objs.len() ==> #[trigger] objects@[j] == objs[j],
        decreases objs.len() - k,
    {
        let next = match &objects[k] {
            Some(o) => {
                let skipped = match skip {
                    Some(s) => s == k,
                    None => false,
                };
                let hover = if skipped {
                    HoverState::No
                } else {
                    match hover_side(&o.data, c) {
                        Some(side) => HoverState::Yes {
                            order: o.data.size,
                            side,
                            top: match top {
                                Some(t) => t == k,
                                None => false,
                            },
                        },
                        None => HoverState::No,
                    }
                };
                Some(Object { data: o.data, expr: o.expr.clone(), hover })
            },
            None => None,
        };
        objects.set(k, next);
        k = k + 1;
    }
    top
}

} // verus!
