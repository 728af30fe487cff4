//! What to do when the render surface changes its size.

use vstd::prelude::*;

verus! {

/// How the terminals follow a change of the surface's size.
#[derive(Clone, Copy, Debug, PartialEq, Eq, Structural)]
pub enum TerminalScalingMode {
    /// The grids keep their dimensions and their cells are scaled.
    Stretch,
    /// The cells keep their size and the grids get the dimensions that fill
    /// the surface.
    ResizeTerminals,
}

/// One thing to do about a change of the surface's size.
#[derive(Clone, Copy, Debug, PartialEq, Eq, Structural)]
pub enum ResizeAction {
    /// Take over the new size of the surface.
    SetScreenSize,
    /// Give the grids the dimensions that fill the surface.
    ResizeTerminals,
    /// Compute the scale from pixels to grid cells anew.
    Recalculate,
}

/// What a change of the surface's size asks for, in order: the new size is
/// taken over, the grids are resized where the mode says so, and the scale
/// is computed anew.
pub open spec fn resize_actions(mode: TerminalScalingMode) -> Seq<ResizeAction> {
    match mode {
        TerminalScalingMode::Stretch => seq![ResizeAction::SetScreenSize, ResizeAction::Recalculate],
        TerminalScalingMode::ResizeTerminals => seq![
            ResizeAction::SetScreenSize,
            ResizeAction::ResizeTerminals,
            ResizeAction::Recalculate,
        ],
    }
}

/// What to do, in order, about one notification that the surface changed
/// its size.
pub fn window_resize(mode: TerminalScalingMode) -> (actions: Vec<ResizeAction>)
    ensures
        actions@ == resize_actions(mode),
{
    let mut actions: Vec<ResizeAction> = Vec::new();
    actions.push(ResizeAction::SetScreenSize);
    match mode {
        TerminalScalingMode::ResizeTerminals => {
            actions.push(ResizeAction::ResizeTerminals);
        },
        TerminalScalingMode::Stretch => {},
    }
    actions.push(ResizeAction::Recalculate);
    actions
}

} // verus!
