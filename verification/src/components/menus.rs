//! The gallery's menu buttons.
use vstd::prelude::*;

verus! {

/// The menu bar; it holds no state.
#[derive(Debug, Clone, Copy, PartialEq, Eq, Default)]
pub struct Menus;

/// What the menu buttons send.
#[derive(Debug, Clone, Copy, PartialEq, Eq, Structural)]
pub enum Message {
    ScaleUp,
    ScaleDown,
    Quit,
}

} // verus!
