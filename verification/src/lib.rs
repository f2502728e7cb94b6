//! Per-frame resolution of pointer focus for rectangular UI nodes.
//!
//! Once per frame the pass decides, for every tracked node, whether it is
//! clicked, hovered, or idle: it resets all nodes, resolves a single cursor
//! sample, hit-tests each node's visible rectangle, orders the hits by depth,
//! and walks them front to back until a blocking node consumes the
//! interaction.

mod focus;
mod geometry;
mod input;
mod interaction;

pub use focus::appears;
pub use focus::collect_hit_candidates;
pub use focus::depth_before;
pub use focus::expected_interaction;
pub use focus::focus_pass;
pub use focus::in_front;
pub use focus::interaction_on_hit;
pub use focus::is_pass;
pub use focus::lemma_focus_pass_idempotent;
pub use focus::lemma_no_cursor_no_interaction;
pub use focus::lemma_pass_result_same_geometry;
pub use focus::pass_result;
pub use focus::same_geometry;
pub use focus::set_all_interactions_to_none;
pub use focus::ui_focus_system;
pub use focus::unobstructed;
pub use focus::with_interaction;
pub use geometry::ClipRect;
pub use geometry::CursorPosition;
pub use geometry::UiNode;
pub use geometry::VisibleRect;
pub use geometry::node_contains;
pub use geometry::node_contains_cursor;
pub use geometry::rect_contains_cursor;
pub use geometry::visible_rect;
pub use input::CursorSource;
pub use input::MouseButtonState;
pub use input::TouchEvent;
pub use input::TouchPhase;
pub use input::click_edge;
pub use input::spec_click_edge;
pub use input::spec_touch_just_released;
pub use input::touch_just_released;
pub use interaction::FocusPolicy;
pub use interaction::Interaction;
