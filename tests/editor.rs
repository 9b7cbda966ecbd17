use lambda_blocks::block::{
    Binding, Color, Expr, Icon, Object, ObjectData, Orientation, Point, Slot, SlotError,
};
use lambda_blocks::layout::{child_slot_geometry, footprint};
use lambda_blocks::mouseover::{hover_side, mouseover_system, HoverState, Side};
use lambda_blocks::placing::{AppState, GameState, Shape, TickInput};

/// A zoom that makes a block in flight exactly 100 world units long.
const ZOOM_100: u32 = 333_334;

fn idle(cursor: (i32, i32)) -> TickInput {
    TickInput {
        cursor: Some(cursor),
        zoom: ZOOM_100,
        place: None,
        rotate: false,
        cancel: false,
        delete: false,
        confirm: false,
    }
}

fn place(cursor: (i32, i32), k: Shape) -> TickInput {
    TickInput { place: Some(k), ..idle(cursor) }
}

fn confirm(cursor: (i32, i32)) -> TickInput {
    TickInput { confirm: true, ..idle(cursor) }
}

fn body(e: &Expr) -> Option<usize> {
    match e {
        Expr::Function { body, .. } => *body,
        _ => panic!("not a function"),
    }
}

fn func_args(e: &Expr) -> (Option<usize>, Option<usize>) {
    match e {
        Expr::Application { func, args } => (*func, *args),
        _ => panic!("not an application"),
    }
}

/// A committed function of size 100 at the origin.
fn with_function() -> GameState {
    let mut g = GameState::new();
    g.tick(place((0, 0), Shape::Function));
    g.tick(confirm((0, 0)));
    g
}

/// Function (size 100) holding an application (about 63.6) in its body,
/// holding a variable (about 40.5) in its first slot.
fn nested() -> GameState {
    let mut g = with_function();
    g.tick(place((20_000, 0), Shape::Application));
    g.tick(confirm((20_000, 0)));
    g.tick(place((25_000, -10_000), Shape::Variable));
    g.tick(confirm((25_000, -10_000)));
    g
}

#[test]
fn scenario_a_function_on_blank_canvas() {
    let mut g = GameState::new();
    g.tick(place((0, 0), Shape::Function));
    assert_eq!(g.app_state(), AppState::PlacingObject);
    g.tick(confirm((0, 0)));
    assert_eq!(g.app_state(), AppState::Default);
    assert_eq!(g.count(), 1);
    let o = g.object(0).unwrap();
    assert!(matches!(o.expr, Expr::Function { bind: Binding::Empty, body: None }));
    assert_eq!(o.data.orientation, Orientation::Horizontal);
    assert_eq!(o.data.size, 100_000);
    assert_eq!(o.data.parent, None);
}

#[test]
fn scenario_b_variable_into_function_body() {
    let mut g = with_function();
    g.tick(place((20_000, 0), Shape::Variable));
    // preview: the block in flight already takes the slot's geometry
    let preview = g.object(1).unwrap();
    assert_eq!(preview.data.size, 63_639);
    assert_eq!(preview.data.location, Point { x: 25_000, y: 0 });
    g.tick(confirm((20_000, 0)));
    assert_eq!(g.placing(), None);
    let f = g.object(0).unwrap();
    assert_eq!(body(&f.expr), Some(1));
    let v = g.object(1).unwrap();
    assert!(matches!(v.expr, Expr::Variable));
    assert_eq!(v.data.size, 63_639);
    assert_eq!(v.data.orientation, Orientation::Vertical);
    assert_eq!(v.data.parent, Some(0));
    assert!(!v.data.flip);
}

#[test]
fn body_from_first_side_is_flipped() {
    let mut g = with_function();
    g.tick(place((-20_000, 0), Shape::Variable));
    g.tick(confirm((-20_000, 0)));
    let v = g.object(1).unwrap();
    assert_eq!(v.data.location, Point { x: -25_000, y: 0 });
    assert!(v.data.flip);
    assert_eq!(body(&g.object(0).unwrap().expr), Some(1));
}

#[test]
fn scenario_c_retype_in_flight() {
    let mut g = with_function();
    g.tick(place((90_000, 90_000), Shape::Variable));
    let before = g.object(1).unwrap();
    let n = g.count();
    g.tick(place((90_000, 90_000), Shape::Application));
    assert_eq!(g.count(), n);
    assert_eq!(g.placing(), Some(1));
    let after = g.object(1).unwrap();
    assert!(matches!(after.expr, Expr::Application { func: None, args: None }));
    assert_eq!(after.data, before.data);
}

#[test]
fn repeated_place_commands_retype() {
    let mut g = GameState::new();
    for k in [Shape::Variable, Shape::Function, Shape::Application, Shape::Variable] {
        g.place_expr(k);
        assert_eq!(g.count(), 1);
        assert_eq!(g.placing(), Some(0));
    }
    assert!(matches!(g.object(0).unwrap().expr, Expr::Variable));
}

#[test]
fn scenario_d_smallest_hovered_is_top() {
    let mut g = nested();
    assert_eq!(g.count(), 3);
    assert_eq!(g.object(1).unwrap().data.size, 63_639);
    assert_eq!(g.object(2).unwrap().data.size, 40_499);
    g.tick(idle((25_000, -15_909)));
    assert_eq!(g.top_hovering(), Some(2));
    assert!(g.object(2).unwrap().hover.is_top());
    assert!(matches!(g.object(0).unwrap().hover, HoverState::Yes { order: 100_000, top: false, .. }));
    assert!(!g.object(1).unwrap().hover.is_top());
    assert_eq!(g.visual(2).unwrap().color, Color::White);
    assert_eq!(g.visual(0).unwrap().color, Color::Gray);
}

#[test]
fn scenario_e_delete_hovered_child() {
    let mut g = nested();
    assert_eq!(func_args(&g.object(1).unwrap().expr), (Some(2), None));
    g.tick(TickInput { delete: true, ..idle((25_000, -15_909)) });
    assert!(g.object(2).is_none());
    assert_eq!(func_args(&g.object(1).unwrap().expr), (None, None));
    assert_eq!(body(&g.object(0).unwrap().expr), Some(1));
    assert_eq!(g.count(), 2);
    assert_eq!(g.top_hovering(), None);
}

#[test]
fn delete_orphans_children() {
    let mut g = nested();
    // over the application only, outside the variable
    g.tick(idle((25_000, 20_000)));
    assert_eq!(g.top_hovering(), Some(1));
    g.tick(TickInput { delete: true, ..idle((25_000, 20_000)) });
    assert!(g.object(1).is_none());
    assert_eq!(body(&g.object(0).unwrap().expr), None);
    assert_eq!(g.object(2).unwrap().data.parent, None);
}

#[test]
fn hover_is_idempotent() {
    let mut g = nested();
    g.mouseover((25_000, -15_909));
    let first: Vec<_> = (0..3).map(|i| g.object(i).unwrap().hover).collect();
    let top = g.top_hovering();
    g.mouseover((25_000, -15_909));
    let second: Vec<_> = (0..3).map(|i| g.object(i).unwrap().hover).collect();
    assert_eq!(first, second);
    assert_eq!(top, g.top_hovering());
}

#[test]
fn nothing_hovered_without_cursor() {
    let mut g = nested();
    g.tick(idle((25_000, -15_909)));
    assert_eq!(g.top_hovering(), Some(2));
    g.tick(TickInput { cursor: None, ..idle((0, 0)) });
    assert_eq!(g.top_hovering(), None);
    assert_eq!(g.object(2).unwrap().hover, HoverState::No);
}

#[test]
fn cursor_over_nothing_has_no_top() {
    let mut g = nested();
    g.tick(idle((500_000, 500_000)));
    assert_eq!(g.top_hovering(), None);
}

#[test]
fn confirm_without_target_on_busy_canvas_is_ignored() {
    let mut g = with_function();
    g.tick(place((500_000, 0), Shape::Variable));
    g.tick(confirm((500_000, 0)));
    assert_eq!(g.placing(), Some(1));
    assert_eq!(g.app_state(), AppState::PlacingObject);
}

#[test]
fn occupied_slot_is_no_target() {
    let mut g = with_function();
    g.tick(place((20_000, 0), Shape::Variable));
    g.tick(confirm((20_000, 0)));
    g.tick(place((-40_000, 0), Shape::Variable));
    assert_eq!(g.drop_target(), None);
    g.tick(confirm((-40_000, 0)));
    assert_eq!(g.placing(), Some(2));
    assert_eq!(body(&g.object(0).unwrap().expr), Some(1));
}

#[test]
fn variable_offers_no_slot() {
    let mut g = GameState::new();
    g.tick(place((0, 0), Shape::Variable));
    g.tick(confirm((0, 0)));
    g.tick(place((10_000, 0), Shape::Variable));
    assert_eq!(g.top_hovering(), Some(0));
    assert_eq!(g.drop_target(), None);
}

#[test]
fn application_slots_by_side() {
    let mut g = GameState::new();
    g.tick(place((0, 0), Shape::Application));
    g.tick(confirm((0, 0)));
    g.tick(place((-20_000, 0), Shape::Variable));
    assert_eq!(g.drop_target(), Some((0, Slot::Func, Side::First)));
    g.tick(confirm((-20_000, 0)));
    g.tick(place((20_000, 0), Shape::Function));
    assert_eq!(g.drop_target(), Some((0, Slot::Args, Side::Second)));
    g.tick(confirm((20_000, 0)));
    assert_eq!(func_args(&g.object(0).unwrap().expr), (Some(1), Some(2)));
    assert!(!g.object(1).unwrap().data.flip);
}

#[test]
fn cancel_destroys_block_in_flight() {
    let mut g = with_function();
    g.tick(place((0, 0), Shape::Variable));
    assert_eq!(g.count(), 2);
    g.tick(TickInput { cancel: true, ..idle((0, 0)) });
    assert_eq!(g.count(), 1);
    assert!(g.object(1).is_none());
    assert_eq!(g.app_state(), AppState::Default);
    assert_eq!(g.placing_index(), 2);
}

#[test]
fn rotate_only_while_placing() {
    let mut g = GameState::new();
    g.rotate();
    assert_eq!(g.placing_orientation(), Orientation::Horizontal);
    g.tick(TickInput { rotate: true, ..idle((0, 0)) });
    assert_eq!(g.placing_orientation(), Orientation::Horizontal);
    g.tick(place((0, 0), Shape::Function));
    g.tick(TickInput { rotate: true, ..idle((0, 0)) });
    assert_eq!(g.placing_orientation(), Orientation::Vertical);
    // the block in flight keeps this tick's orientation
    assert_eq!(g.object(0).unwrap().data.orientation, Orientation::Horizontal);
    assert_eq!(g.visual(0).unwrap().transform.rotation, 0);
    // and takes the new one on the next tick
    g.tick(idle((0, 0)));
    assert_eq!(g.object(0).unwrap().data.orientation, Orientation::Vertical);
    assert_eq!(g.visual(0).unwrap().transform.rotation, 90);
}

#[test]
fn rotate_ignored_in_committing_tick() {
    let mut g = GameState::new();
    g.tick(place((0, 0), Shape::Function));
    g.tick(TickInput { rotate: true, ..confirm((0, 0)) });
    assert_eq!(g.placing(), None);
    assert_eq!(g.placing_orientation(), Orientation::Horizontal);
    assert_eq!(g.object(0).unwrap().data.orientation, Orientation::Horizontal);
}

#[test]
fn delete_ignored_in_cancelling_tick() {
    let mut g = nested();
    g.tick(place((25_000, -15_909), Shape::Variable));
    g.tick(TickInput { cancel: true, delete: true, ..idle((25_000, -15_909)) });
    assert_eq!(g.placing(), None);
    assert_eq!(g.count(), 3);
    assert_eq!(g.top_hovering(), Some(2));
    g.tick(TickInput { delete: true, ..idle((25_000, -15_909)) });
    assert_eq!(g.count(), 2);
}

#[test]
fn click_of_place_tick_does_not_commit() {
    let mut g = GameState::new();
    g.tick(TickInput { confirm: true, ..place((0, 0), Shape::Function) });
    assert_eq!(g.placing(), Some(0));
    g.tick(TickInput { confirm: true, ..place((0, 0), Shape::Variable) });
    assert_eq!(g.placing(), Some(0));
    g.tick(confirm((0, 0)));
    assert_eq!(g.placing(), None);
    assert!(matches!(g.object(0).unwrap().expr, Expr::Variable));
}

#[test]
fn delete_ignored_while_placing() {
    let mut g = with_function();
    g.tick(place((0, 0), Shape::Variable));
    g.tick(TickInput { delete: true, ..idle((0, 0)) });
    assert_eq!(g.count(), 2);
}

#[test]
fn zoom_sizes_block_in_flight() {
    let mut g = GameState::new();
    g.tick(TickInput { zoom: 1_000_000, ..place((5, -7), Shape::Variable) });
    let o = g.object(0).unwrap();
    assert_eq!(o.data.size, 300_000);
    assert_eq!(o.data.location, Point { x: 5, y: -7 });
    assert_eq!(g.visual(0).unwrap().transform.scale, 1000);
}

#[test]
fn child_geometry_alternates_and_shrinks() {
    for size in [1i64, 2, 3, 100, 999, 100_000, 300_000, 1_000_000_000] {
        for o in [Orientation::Horizontal, Orientation::Vertical] {
            for side in [Side::First, Side::Second] {
                let (s, _, co) = child_slot_geometry(size, o, side);
                assert_ne!(co, o);
                assert!(0 <= s && s < size);
            }
        }
    }
}

#[test]
fn child_geometry_exact() {
    let (s, off, o) = child_slot_geometry(100_000, Orientation::Horizontal, Side::First);
    assert_eq!((s, off, o), (63_639, Point { x: -25_000, y: 0 }, Orientation::Vertical));
    let (s, off, o) = child_slot_geometry(100_000, Orientation::Vertical, Side::Second);
    assert_eq!((s, off, o), (63_639, Point { x: 0, y: 25_000 }, Orientation::Horizontal));
}

#[test]
fn footprint_axes() {
    assert_eq!(footprint(100_000, Orientation::Horizontal), (100_000, 70_710));
    assert_eq!(footprint(100_000, Orientation::Vertical), (70_710, 100_000));
    assert_eq!(footprint(0, Orientation::Vertical), (0, 0));
    let d = ObjectData { size: 300_000, ..ObjectData::new() };
    assert_eq!(d.size(), (300_000, 212_132));
}

#[test]
fn transform_rotation_and_scale() {
    let d = ObjectData {
        orientation: Orientation::Vertical,
        location: Point { x: 3, y: 4 },
        size: 150_000,
        parent: None,
        flip: true,
    };
    let t = d.gen_transform(7);
    assert_eq!((t.x, t.y, t.z), (3, 4, 7));
    assert_eq!(t.rotation, 270);
    assert_eq!(t.scale, 500);
    let h = ObjectData { orientation: Orientation::Horizontal, flip: false, ..d };
    assert_eq!(h.gen_transform(0).rotation, 0);
    let hf = ObjectData { flip: true, ..h };
    assert_eq!(hf.gen_transform(0).rotation, 180);
}

#[test]
fn hit_test_is_strict_and_sided() {
    let d = ObjectData { size: 100_000, ..ObjectData::new() };
    assert_eq!(hover_side(&d, (-1, 0)), Some(Side::First));
    assert_eq!(hover_side(&d, (0, 0)), Some(Side::Second));
    assert_eq!(hover_side(&d, (49_999, 35_354)), Some(Side::Second));
    assert_eq!(hover_side(&d, (50_000, 0)), None);
    assert_eq!(hover_side(&d, (0, 35_355)), None);
    let v = ObjectData { orientation: Orientation::Vertical, ..d };
    assert_eq!(hover_side(&v, (0, -1)), Some(Side::First));
    assert_eq!(hover_side(&v, (40_000, 0)), None);
    assert_eq!(hover_side(&v, (0, 40_000)), Some(Side::Second));
}

#[test]
fn equal_sizes_last_wins() {
    let d = ObjectData { size: 100_000, ..ObjectData::new() };
    let mut objs = vec![
        Some(Object::new(Expr::new_variable())),
        None,
        Some(Object::new(Expr::new_variable())),
    ];
    for o in objs.iter_mut().flatten() {
        o.data = d;
    }
    assert_eq!(mouseover_system(&mut objs, None, (0, 0)), Some(2));
    assert_eq!(mouseover_system(&mut objs, Some(2), (0, 0)), Some(0));
    assert_eq!(objs[2].as_ref().unwrap().hover, HoverState::No);
}

#[test]
fn fill_slot_errors() {
    let mut v = Expr::new_variable();
    assert_eq!(v.fill_slot(Slot::Body, 1), Err(SlotError::InvalidSlot));
    let mut f = Expr::new_function();
    assert_eq!(f.fill_slot(Slot::Args, 1), Err(SlotError::InvalidSlot));
    assert_eq!(f.fill_slot(Slot::Body, 1), Ok(()));
    assert_eq!(f.fill_slot(Slot::Body, 2), Err(SlotError::SlotOccupied));
    assert_eq!(f.get_slot(Slot::Body), Some(1));
    let mut a = Expr::new_application();
    assert_eq!(a.fill_slot(Slot::Body, 1), Err(SlotError::InvalidSlot));
    assert_eq!(a.fill_slot(Slot::Func, 1), Ok(()));
    assert_eq!(a.fill_slot(Slot::Func, 2), Err(SlotError::SlotOccupied));
    assert_eq!(a.fill_slot(Slot::Args, 2), Ok(()));
    assert_eq!((a.get_slot(Slot::Func), a.get_slot(Slot::Args)), (Some(1), Some(2)));
    a.clear_slot(Slot::Func);
    assert_eq!(a.get_slot(Slot::Func), None);
}

#[test]
fn icons() {
    assert_eq!(ObjectData::gen_texture(&Expr::new_variable()), Icon::Variable);
    assert_eq!(ObjectData::gen_texture(&Expr::new_function()), Icon::UnboundLambda);
    let bound = Expr::Function { bind: Binding::End, body: None };
    assert_eq!(ObjectData::gen_texture(&bound), Icon::BoundLambda);
    let filled = Expr::Function { bind: Binding::Empty, body: Some(3) };
    assert_eq!(ObjectData::gen_texture(&filled), Icon::BoundLambda);
    assert_eq!(ObjectData::gen_texture(&Expr::new_application()), Icon::Application);
    assert_eq!(ObjectData::gen_color(true), Color::White);
    assert_eq!(ObjectData::gen_color(false), Color::Gray);
}

#[test]
fn orientation_swap() {
    assert_eq!(Orientation::Horizontal.swap(), Orientation::Vertical);
    assert_eq!(Orientation::Vertical.swap(), Orientation::Horizontal);
}

/// Checks slot ownership, parent references and the absence of cycles.
fn check_tree(g: &GameState) {
    let n = g.placing_index();
    let mut owner: Vec<Option<usize>> = vec![None; n];
    for p in 0..n {
        if let Some(o) = g.object(p) {
            let slots = match o.expr {
                Expr::Function { body, .. } => vec![body],
                Expr::Application { func, args } => vec![func, args],
                Expr::Variable => vec![],
            };
            for c in slots.into_iter().flatten() {
                assert!(owner[c].is_none(), "block {} in two slots", c);
                owner[c] = Some(p);
                let child = g.object(c).expect("slot holds a destroyed block");
                assert_eq!(child.data.parent, Some(p));
                assert!(child.data.size < o.data.size);
                assert_ne!(g.placing(), Some(c));
            }
        }
    }
    for c in 0..n {
        if let Some(o) = g.object(c) {
            assert_eq!(o.data.parent, owner[c]);
            let mut cur = c;
            let mut steps = 0;
            while let Some(p) = owner[cur] {
                cur = p;
                steps += 1;
                assert!(steps <= n, "cycle through block {}", c);
            }
        }
    }
}

#[test]
fn random_editing_keeps_a_tree() {
    let mut seed: u64 = 0x2545_f491_4f6c_dd1d;
    let mut next = move |m: u64| {
        seed = seed.wrapping_mul(6364136223846793005).wrapping_add(1442695040888963407);
        (seed >> 33) % m
    };
    for _ in 0..20 {
        let mut g = GameState::new();
        for _ in 0..200 {
            let cursor = (next(160_000) as i32 - 80_000, next(160_000) as i32 - 80_000);
            let place = match next(6) {
                0 => Some(Shape::Variable),
                1 => Some(Shape::Function),
                2 => Some(Shape::Application),
                _ => None,
            };
            let input = TickInput {
                cursor: if next(20) == 0 { None } else { Some(cursor) },
                zoom: 200_000 + next(300_000) as u32,
                place,
                rotate: next(5) == 0,
                cancel: next(15) == 0,
                delete: next(12) == 0,
                confirm: next(2) == 0,
            };
            g.tick(input);
            check_tree(&g);
            let in_flight = (0..g.placing_index()).filter(|&i| g.placing() == Some(i)).count();
            assert!(in_flight <= 1);
            assert_eq!(g.app_state() == AppState::PlacingObject, g.placing().is_some());
        }
    }
}

#[test]
fn binding_clone_keeps_shape() {
    let b = Binding::Branch(Box::new(Binding::End), Box::new(Binding::Empty));
    let c = b.clone();
    assert!(matches!(c, Binding::Branch(l, r) if matches!(*l, Binding::End) && matches!(*r, Binding::Empty)));
}

#[test]
fn largest_sizes_stay_in_range() {
    let big = lambda_blocks::layout::EXTENT;
    let (s, off, o) = child_slot_geometry(big, Orientation::Vertical, Side::First);
    assert_eq!(s, big / 1_000_000 * 636_396 + (big % 1_000_000) * 636_396 / 1_000_000);
    assert_eq!(off, Point { x: 0, y: -(big / 4) });
    assert_eq!(o, Orientation::Horizontal);
    assert_eq!(footprint(big, Orientation::Horizontal).0, big);
}

#[test]
fn largest_zoom_and_far_cursor() {
    let mut g = GameState::new();
    g.tick(TickInput { zoom: u32::MAX, ..place((i32::MAX, i32::MIN), Shape::Function) });
    let o = g.object(0).unwrap();
    assert_eq!(o.data.size, 1_288_490_188);
    assert_eq!(o.data.location, Point { x: i32::MAX as i64, y: i32::MIN as i64 });
    g.tick(TickInput { zoom: u32::MAX, ..confirm((i32::MAX, i32::MIN)) });
    assert_eq!(g.placing(), None);
    assert_eq!(g.object(0).unwrap().data.size, 1_288_490_188);
    // over the function's center: the new block snaps into its body
    g.tick(TickInput { zoom: 0, ..place((i32::MAX, i32::MIN), Shape::Variable) });
    assert_eq!(g.object(1).unwrap().data.size, 1_288_490_188 * 636_396 / 1_000_000);
    // away from every block it keeps the size the zoom gives
    g.tick(TickInput { zoom: 0, ..idle((0, 0)) });
    assert_eq!(g.object(1).unwrap().data.size, 0);
}

#[test]
fn empty_editor() {
    let mut g = GameState::new();
    assert_eq!(g.count(), 0);
    assert_eq!(g.placing_index(), 0);
    assert_eq!(g.app_state(), AppState::Default);
    assert!(g.object(0).is_none());
    assert!(g.visual(0).is_none());
    g.tick(TickInput { confirm: true, delete: true, cancel: true, rotate: true, ..idle((0, 0)) });
    assert_eq!(g.count(), 0);
    assert_eq!(g.placing_orientation(), Orientation::Horizontal);
}
