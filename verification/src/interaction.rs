use vstd::prelude::*;

verus! {

/// Describes what type of input interaction has occurred for a UI node.
///
/// The focus pass recomputes this once per frame for every tracked node.
#[derive(Clone, Copy, Debug, PartialEq, Eq, Structural)]
pub enum Interaction {
    /// The node has been clicked.
    Clicked,
    /// The node has been hovered over.
    Hovered,
    /// Nothing has happened to the node this frame.
    Idle,
}

impl Default for Interaction {
    fn default() -> (r: Self)
        ensures
            r == Interaction::Idle,
    {
        Interaction::Idle
    }
}

/// Describes whether a node should block interactions with nodes behind it.
#[derive(Clone, Copy, Debug, PartialEq, Eq, Structural)]
pub enum FocusPolicy {
    /// Blocks interaction: nodes behind this one stay idle.
    Block,
    /// Lets interaction pass through to the next node in depth order.
    Pass,
}

impl Default for FocusPolicy {
    fn default() -> (r: Self)
        ensures
            r == FocusPolicy::Block,
    {
        FocusPolicy::Block
    }
}

} // verus!
