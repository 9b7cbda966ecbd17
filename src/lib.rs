//! A structural editor for lambda-calculus expressions built from blocks on a
//! canvas: the expression tree, its layout, hover resolution and placement.

pub mod block;
pub mod layout;
pub mod mouseover;
pub mod model;
pub mod placing;
pub mod invariants;
