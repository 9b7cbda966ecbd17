//! The expression tree: node variants, bindings and child slots.

use vstd::prelude::*;

use crate::mouseover::HoverState;

verus! {

/// How a function's bound variable threads through its body.
pub enum Binding {
    Empty,
    End,
    Branch(Box<Binding>, Box<Binding>),
}

impl Clone for Binding {
    fn clone(&self) -> (r: Self)
        ensures
            r == *self,
        decreases self,
    {
        match self {
            Binding::Empty => Binding::Empty,
            Binding::End => Binding::End,
            Binding::Branch(l, r) => {
                let l2 = (**l).clone();
                let r2 = (**r).clone();
                Binding::Branch(Box::new(l2), Box::new(r2))
            },
        }
    }
}

/// A node of the expression tree. Child slots hold handles of other nodes.
pub enum Expr {
    Function { bind: Binding, body: Option<usize> },
    Application { func: Option<usize>, args: Option<usize> },
    Variable,
}

impl Clone for Expr {
    fn clone(&self) -> (r: Self)
        ensures
            r == *self,
    {
        match self {
            Expr::Function { bind, body } => Expr::Function { bind: bind.clone(), body: *body },
            Expr::Application { func, args } => Expr::Application { func: *func, args: *args },
            Expr::Variable => Expr::Variable,
        }
    }
}

/// The named child slots of the node variants.
#[derive(Clone, Copy, Debug, PartialEq, Eq, Structural)]
pub enum Slot {
    Body,
    Func,
    Args,
}

/// Why a slot could not be filled.
#[derive(Clone, Copy, Debug, PartialEq, Eq, Structural)]
pub enum SlotError {
    SlotOccupied,
    InvalidSlot,
}

/// Direction of a block's long axis.
#[derive(Clone, Copy, Debug, PartialEq, Eq, Structural)]
pub enum Orientation {
    Vertical,
    Horizontal,
}

impl Orientation {
    pub open spec fn swapped(self) -> Orientation {
        match self {
            Orientation::Horizontal => Orientation::Vertical,
            Orientation::Vertical => Orientation::Horizontal,
        }
    }

    pub fn swap(self) -> (r: Self)
        ensures
            r == self.swapped(),
            r != self,
    {
        match self {
            Orientation::Horizontal => Orientation::Vertical,
            Orientation::Vertical => Orientation::Horizontal,
        }
    }
}

impl Expr {
    /// A fresh function with no binding structure and an open body.
    pub open spec fn empty_function() -> Expr {
        Expr::Function { bind: Binding::Empty, body: None }
    }

    /// A fresh application with both slots open.
    pub open spec fn empty_application() -> Expr {
        Expr::Application { func: None, args: None }
    }

    /// Whether this variant has the named slot.
    pub open spec fn has_slot(self, s: Slot) -> bool {
        match self {
            Expr::Function { .. } => s == Slot::Body,
            Expr::Application { .. } => s == Slot::Func || s == Slot::Args,
            Expr::Variable => false,
        }
    }

    /// The node held in the named slot; `None` when the slot is open or missing.
    pub open spec fn slot(self, s: Slot) -> Option<usize> {
        match self {
            Expr::Function { body, .. } => if s == Slot::Body { body } else { None },
            Expr::Application { func, args } => if s == Slot::Func {
                func
            } else if s == Slot::Args {
                args
            } else {
                None
            },
            Expr::Variable => None,
        }
    }

    /// This node with the named slot (which it has) set to `v`.
    pub open spec fn with_slot(self, s: Slot, v: Option<usize>) -> Expr {
        match self {
            Expr::Function { bind, .. } => Expr::Function { bind, body: v },
            Expr::Application { func, args } => if s == Slot::Func {
                Expr::Application { func: v, args }
            } else {
                Expr::Application { func, args: v }
            },
            Expr::Variable => Expr::Variable,
        }
    }

    pub fn new_function() -> (r: Expr)
        ensures
            r == Expr::empty_function(),
    {
        Expr::Function { bind: Binding::Empty, body: None }
    }

    pub fn new_application() -> (r: Expr)
        ensures
            r == Expr::empty_application(),
    {
        Expr::Application { func: None, args: None }
    }

    pub fn new_variable() -> (r: Expr)
        ensures
            r == Expr::Variable,
    {
        Expr::Variable
    }

    /// Reads the named slot.
    pub fn get_slot(&self, s: Slot) -> (r: Option<usize>)
        ensures
            r == self.slot(s),
    {
        match self {
            Expr::Function { body, .. } => if s == Slot::Body { *body } else { None },
            Expr::Application { func, args } => match s {
                Slot::Func => *func,
                Slot::Args => *args,
                Slot::Body => None,
            },
            Expr::Variable => None,
        }
    }

    /// Puts `child` into the named slot. Fails when the variant has no such
    /// slot, or when the slot already holds a node; the node is then unchanged.
    pub fn fill_slot(&mut self, s: Slot, child: usize) -> (r: Result<(), SlotError>)
        ensures
            !old(self).has_slot(s) ==> r == Err::<(), SlotError>(SlotError::InvalidSlot),
            old(self).has_slot(s) && old(self).slot(s).is_some() ==> r == Err::<(), SlotError>(
                SlotError::SlotOccupied,
            ),
            old(self).has_slot(s) && old(self).slot(s).is_none() ==> r is Ok,
            r is Ok ==> *final(self) == old(self).with_slot(s, Some(child)),
            r is Err ==> *final(self) == *old(self),
    {
        match self {
            Expr::Function { body, .. } => {
                if s != Slot::Body {
                    Err(SlotError::InvalidSlot)
                } else if body.is_some() {
                    Err(SlotError::SlotOccupied)
                } else {
                    *body = Some(child);
                    Ok(())
                }
            },
            Expr::Application { func, args } => match s {
                Slot::Body => Err(SlotError::InvalidSlot),
                Slot::Func => if func.is_some() {
                    Err(SlotError::SlotOccupied)
                } else {
                    *func = Some(child);
                    Ok(())
                },
                Slot::Args => if args.is_some() {
                    Err(SlotError::SlotOccupied)
                } else {
                    *args = Some(child);
                    Ok(())
                },
            },
            Expr::Variable => Err(SlotError::InvalidSlot),
        }
    }

    /// Empties the named slot, if it exists.
    pub fn clear_slot(&mut self, s: Slot)
        ensures
            old(self).has_slot(s) ==> *final(self) == old(self).with_slot(s, None),
            !old(self).has_slot(s) ==> *final(self) == *old(self),
    {
        match self {
            Expr::Function { body, .. } => {
                if s == Slot::Body {
                    *body = None;
                }
            },
            Expr::Application { func, args } => match s {
                Slot::Func => *func = None,
                Slot::Args => *args = None,
                Slot::Body => {},
            },
            Expr::Variable => {},
        }
    }
}

} // verus!

verus! {

/// A point of the canvas, in thousandths of a world unit.
#[derive(Clone, Copy, Debug, PartialEq, Eq, Structural)]
pub struct Point {
    pub x: i64,
    pub y: i64,
}

/// Placement data of a block. `location` is its center and `size` the length
/// of its longer side; `parent` names the node whose slot holds it.
#[derive(Clone, Copy, Debug, PartialEq, Eq, Structural)]
pub struct ObjectData {
    pub orientation: Orientation,
    pub location: Point,
    pub size: i64,
    pub parent: Option<usize>,
    pub flip: bool,
}

impl ObjectData {
    /// Horizontal, at the origin, of size zero, with no parent and unflipped.
    pub open spec fn initial() -> ObjectData {
        ObjectData {
            orientation: Orientation::Horizontal,
            location: Point { x: 0, y: 0 },
            size: 0,
            parent: None,
            flip: false,
        }
    }

    pub fn new() -> (r: ObjectData)
        ensures
            r == ObjectData::initial(),
    {
        ObjectData {
            orientation: Orientation::Horizontal,
            location: Point { x: 0, y: 0 },
            size: 0,
            parent: None,
            flip: false,
        }
    }
}

} // verus!

verus! {

/// A block: its placement, its node of the expression tree, and whether the
/// cursor is over it.
pub struct Object {
    pub data: ObjectData,
    pub expr: Expr,
    pub hover: HoverState,
}

impl Clone for Object {
    fn clone(&self) -> (r: Self)
        ensures
            r == *self,
    {
        Object { data: self.data, expr: self.expr.clone(), hover: self.hover }
    }
}

impl Object {
    /// A block holding `expr` with initial placement data, not hovered.
    pub fn new(expr: Expr) -> (r: Object)
        ensures
            r == (Object { data: ObjectData::initial(), expr, hover: HoverState::No }),
    {
        Object { data: ObjectData::new(), expr, hover: HoverState::No }
    }
}

} // verus!

verus! {

/// Which texture a block shows.
#[derive(Clone, Copy, Debug, PartialEq, Eq, Structural)]
pub enum Icon {
    Variable,
    UnboundLambda,
    BoundLambda,
    Application,
}

/// Tint of a block: highlighted when it is the top hovered block.
#[derive(Clone, Copy, Debug, PartialEq, Eq, Structural)]
pub enum Color {
    Gray,
    White,
}

pub open spec fn icon_of(e: Expr) -> Icon {
    match e {
        Expr::Variable => Icon::Variable,
        Expr::Function { bind, body } => if bind == Binding::Empty && body is None {
            Icon::UnboundLambda
        } else {
            Icon::BoundLambda
        },
        Expr::Application { .. } => Icon::Application,
    }
}

impl ObjectData {
    pub fn gen_color(hovering: bool) -> (r: Color)
        ensures
            r == (if hovering { Color::White } else { Color::Gray }),
    {
        if hovering {
            Color::White
        } else {
            Color::Gray
        }
    }

    /// The icon of a node: a function with no binding structure and an empty
    /// body shows the unbound lambda.
    pub fn gen_texture(expr: &Expr) -> (r: Icon)
        ensures
            r == icon_of(*expr),
    {
        match expr {
            Expr::Variable => Icon::Variable,
            Expr::Function { bind: Binding::Empty, body: None } => Icon::UnboundLambda,
            Expr::Function { .. } => Icon::BoundLambda,
            Expr::Application { .. } => Icon::Application,
        }
    }
}

} // verus!
