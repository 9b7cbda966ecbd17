//! What holds of the editor after any sequence of ticks.

use vstd::prelude::*;

use crate::block::{Object, ObjectData, Orientation, Slot};
use crate::mouseover::{lemma_top_of_exists, lemma_top_unique, rehovered, top_of, HoverState};
use crate::model::{forest, fresh, holds, lemma_hover_wf, lemma_place_wf, lemma_tick_wf, Model};
use crate::placing::{Shape, TickInput};

verus! {

/// No block sits in two slots.
pub open spec fn single_owner(objs: Seq<Option<crate::block::Object>>) -> bool {
    forall|p1: int, s1: Slot, p2: int, s2: Slot, c: int|
        #[trigger] holds(objs, p1, s1, c) && #[trigger] holds(objs, p2, s2, c) ==> p1 == p2 && s1
            == s2
}

/// Some slot of block `p` holds block `c`.
pub open spec fn linked(objs: Seq<Option<crate::block::Object>>, p: int, c: int) -> bool {
    holds(objs, p, Slot::Body, c) || holds(objs, p, Slot::Func, c) || holds(objs, p, Slot::Args, c)
}

/// `path` follows filled slots from each block to the next.
pub open spec fn is_path(objs: Seq<Option<crate::block::Object>>, path: Seq<int>) -> bool {
    forall|k: int| 0 <= k < path.len() - 1 ==> #[trigger] linked(objs, path[k], path[k + 1])
}

/// No block is reachable from itself through filled slots.
pub open spec fn acyclic(objs: Seq<Option<crate::block::Object>>) -> bool {
    forall|path: Seq<int>| path.len() >= 2 && #[trigger] is_path(objs, path) ==> path[0] != path.last()
}

/// The editor with no blocks, nothing in flight, placing horizontally.
pub open spec fn initial_model() -> Model {
    Model { objs: Seq::empty(), placing: None, orientation: Orientation::Horizontal, top: None }
}

/// In a forest, a block's size strictly exceeds that of every block reached
/// from it through one or more filled slots.
proof fn lemma_path_shrinks(objs: Seq<Option<crate::block::Object>>, path: Seq<int>)
    requires
        forest(objs),
        path.len() >= 2,
        is_path(objs, path),
    ensures
        objs[path.last()].unwrap().data.size < objs[path[0]].unwrap().data.size,
    decreases path.len(),
{
    let z: int = 0;
    assert(linked(objs, path[z], path[z + 1]));
    if path.len() > 2 {
        let rest = path.drop_first();
        assert forall|k: int| 0 <= k < rest.len() - 1 implies #[trigger] linked(objs, rest[k], rest[k + 1]) by {
            assert(rest[k] == path[k + 1] && rest[k + 1] == path[k + 2]);
            assert(linked(objs, path[k + 1], path[k + 2]));
        }
        lemma_path_shrinks(objs, rest);
        assert(rest.last() == path.last());
    }
}

/// A forest has a single owner for every filled slot and no cycles.
pub proof fn lemma_forest_is_tree(objs: Seq<Option<crate::block::Object>>)
    requires
        forest(objs),
    ensures
        single_owner(objs),
        acyclic(objs),
{
    assert forall|p1: int, s1: Slot, p2: int, s2: Slot, c: int|
        #[trigger] holds(objs, p1, s1, c) && #[trigger] holds(objs, p2, s2, c) implies p1 == p2 && s1
            == s2 by {
        let e = objs[p1].unwrap().expr;
        if p1 == p2 && s1 != s2 {
            assert(e is Application);
        }
    }
    assert forall|path: Seq<int>| path.len() >= 2 && #[trigger] is_path(objs, path) implies path[0]
        != path.last() by {
        lemma_path_shrinks(objs, path);
    }
}

/// Every sequence of ticks from a well-formed editor (the empty one among
/// them) leaves it well formed: each block sits in at most one slot, no
/// block is reachable from itself through slots, and a block in flight is
/// live and in no slot.
pub proof fn lemma_ticks_keep_tree(m: Model, inputs: Seq<TickInput>)
    requires
        m.wf(),
    ensures
        m.run(inputs).wf(),
        single_owner(m.run(inputs).objs),
        acyclic(m.run(inputs).objs),
        m.run(inputs).placing matches Some(f) ==> m.run(inputs).live(f as int) && forall|
            p: int,
            s: Slot,
        | !#[trigger] holds(m.run(inputs).objs, p, s, f as int),
    decreases inputs.len(),
{
    if inputs.len() > 0 {
        lemma_tick_wf(m, inputs[0]);
        lemma_ticks_keep_tree(m.tick(inputs[0]), inputs.drop_first());
    } else {
        lemma_forest_is_tree(m.objs);
    }
}

/// Every sequence of ticks from the empty editor leaves a tree: each block
/// in at most one slot, and no block reachable from itself through slots.
pub proof fn lemma_editing_builds_tree(inputs: Seq<TickInput>)
    ensures
        initial_model().run(inputs).wf(),
        single_owner(initial_model().run(inputs).objs),
        acyclic(initial_model().run(inputs).objs),
{
    lemma_ticks_keep_tree(initial_model(), inputs);
}

/// A place command while a block is in flight retypes that block: no block is
/// added, the same block stays in flight with its placement, and only its
/// variant changes.
pub proof fn lemma_place_retypes(m: Model, k: Shape)
    requires
        m.wf(),
        m.placing is Some,
    ensures
        m.place(k).objs.len() == m.objs.len(),
        m.place(k).placing == m.placing,
        m.place(k).node(m.placing.unwrap() as int).data == m.node(m.placing.unwrap() as int).data,
        m.place(k).node(m.placing.unwrap() as int).expr == fresh(k),
        forall|i: int| 0 <= i < m.objs.len() && i != m.placing.unwrap() ==> #[trigger] m.place(k).objs[i] == m.objs[i],
{
}

/// Hover resolution is idempotent: resolving again for the same cursor, with
/// nothing else changed, yields the same top block and the same states.
pub proof fn lemma_hover_idempotent(m: Model, c: (i32, i32))
    requires
        m.wf(),
    ensures
        m.hover(c).hover(c) == m.hover(c),
{
    let h = m.hover(c);
    let t = m.top_for(c);
    lemma_top_of_exists(m.objs, m.placing, c);
    assert(top_of(m.objs, m.placing, c, t));
    lemma_hover_wf(m, c);
    lemma_top_of_exists(h.objs, h.placing, c);
    let t2 = h.top_for(c);
    assert(top_of(h.objs, h.placing, c, t2));
    lemma_top_unique(m.objs, h.objs, m.placing, c, t, t2);
    let hh = h.hover(c);
    assert(hh.objs =~= h.objs) by {
        assert forall|i: int| 0 <= i < h.objs.len() implies hh.objs[i] == h.objs[i] by {
            assert(hh.objs[i] == rehovered(h.objs, h.placing, c, t2, i));
        }
    }
}

/// A place command with no block in flight adds exactly one block, a fresh
/// one of the asked shape with initial placement, and puts it in flight; it
/// has no parent and no slot holds it, the other blocks are unchanged, and
/// the blocks still form a tree. Only the length of the arena bounds this:
/// a handle must fit in `usize`.
pub proof fn lemma_place_spawns(m: Model, k: Shape)
    requires
        m.wf(),
        m.placing is None,
        m.objs.len() < usize::MAX,
    ensures
        m.place(k).objs == m.objs.push(
            Some(Object { data: ObjectData::initial(), expr: fresh(k), hover: HoverState::No }),
        ),
        m.place(k).placing == Some(m.objs.len() as usize),
        m.place(k).node(m.objs.len() as int).data.parent is None,
        forall|p: int, s: Slot| !#[trigger] holds(m.place(k).objs, p, s, m.objs.len() as int),
        single_owner(m.place(k).objs),
        acyclic(m.place(k).objs),
{
    lemma_place_wf(m, k);
    lemma_forest_is_tree(m.place(k).objs);
}

/// A rotate command changes no block in its own tick: the blocks come out as
/// without it, and only the placing orientation, which the block in flight
/// takes from the next tick on, is swapped while a block is in flight.
pub proof fn lemma_rotate_is_deferred(m: Model, input: TickInput)
    requires
        input.rotate,
    ensures
        m.tick(input).objs == m.tick(TickInput { rotate: false, ..input }).objs,
        m.tick(input).placing == m.tick(TickInput { rotate: false, ..input }).placing,
        m.tick(input).orientation == if m.tick(input).placing is Some {
            m.tick(TickInput { rotate: false, ..input }).orientation.swapped()
        } else {
            m.tick(TickInput { rotate: false, ..input }).orientation
        },
{
}

} // verus!
