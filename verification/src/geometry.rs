use vstd::prelude::*;

use crate::interaction::FocusPolicy;
use crate::interaction::Interaction;

verus! {

/// The single effective pointer position for a frame, in world units.
#[derive(Clone, Copy, Debug, PartialEq, Eq, Structural)]
pub struct CursorPosition {
    pub x: i32,
    pub y: i32,
}

/// An axis-aligned clip rectangle, in world units.
///
/// A node's bounding box is intersected with this rectangle (when present)
/// before hit-testing; an empty or inverted intersection simply excludes the
/// node from hits.
#[derive(Clone, Copy, Debug, PartialEq, Eq, Structural)]
pub struct ClipRect {
    pub min_x: i32,
    pub min_y: i32,
    pub max_x: i32,
    pub max_y: i32,
}

/// Everything the focus pass reads and writes for one tracked UI node.
///
/// The node's bounding box is centered at `(x, y)` with half-extents of half
/// its size, and `z` is the depth key: larger `z` is nearer to the camera.
#[derive(Clone, Copy, Debug)]
pub struct UiNode {
    /// Planar world position of the node's center.
    pub x: i32,
    pub y: i32,
    /// Depth: larger values are processed first by the focus walker.
    pub z: i32,
    /// Size of the node's bounding box.
    pub width: i32,
    pub height: i32,
    /// Optional clip rectangle; absent means the full plane.
    pub clip: Option<ClipRect>,
    /// Optional focus policy; absent means `FocusPolicy::Block`.
    pub focus_policy: Option<FocusPolicy>,
    /// The per-frame output of the focus pass.
    pub interaction: Interaction,
}

/// A node's visible rectangle, measured in half-units (coordinates doubled),
/// so that the half-extents of an odd-sized node stay exact.
#[derive(Clone, Copy, Debug, PartialEq, Eq, Structural)]
pub struct VisibleRect {
    pub min_x: i64,
    pub min_y: i64,
    pub max_x: i64,
    pub max_y: i64,
}

/// Minimum x of the node's bounding box, in half-units: `2 * (x - width / 2)`.
pub open spec fn bound_min_x(n: UiNode) -> int {
    2 * n.x - n.width
}

pub open spec fn bound_max_x(n: UiNode) -> int {
    2 * n.x + n.width
}

pub open spec fn bound_min_y(n: UiNode) -> int {
    2 * n.y - n.height
}

pub open spec fn bound_max_y(n: UiNode) -> int {
    2 * n.y + n.height
}

/// Minimum x of the visible rectangle: the bounding box clamped by the clip
/// rectangle when one is present, in half-units.
pub open spec fn visible_min_x(n: UiNode) -> int {
    match n.clip {
        Option::Some(c) => vstd::math::max(bound_min_x(n), 2 * c.min_x),
        Option::None => bound_min_x(n),
    }
}

pub open spec fn visible_max_x(n: UiNode) -> int {
    match n.clip {
        Option::Some(c) => vstd::math::min(bound_max_x(n), 2 * c.max_x),
        Option::None => bound_max_x(n),
    }
}

pub open spec fn visible_min_y(n: UiNode) -> int {
    match n.clip {
        Option::Some(c) => vstd::math::max(bound_min_y(n), 2 * c.min_y),
        Option::None => bound_min_y(n),
    }
}

pub open spec fn visible_max_y(n: UiNode) -> int {
    match n.clip {
        Option::Some(c) => vstd::math::min(bound_max_y(n), 2 * c.max_y),
        Option::None => bound_max_y(n),
    }
}

/// Point-in-rectangle on half-open intervals on both axes:
/// `min.x <= cursor.x < max.x` and `min.y <= cursor.y < max.y`.
pub open spec fn node_contains(n: UiNode, c: CursorPosition) -> bool {
    &&& visible_min_x(n) <= 2 * c.x < visible_max_x(n)
    &&& visible_min_y(n) <= 2 * c.y < visible_max_y(n)
}

fn max_i64(a: i64, b: i64) -> (r: i64)
    ensures
        r == vstd::math::max(a as int, b as int),
{
    if a >= b {
        a
    } else {
        b
    }
}

fn min_i64(a: i64, b: i64) -> (r: i64)
    ensures
        r == vstd::math::min(a as int, b as int),
{
    if a <= b {
        a
    } else {
        b
    }
}

/// Computes the node's visible rectangle: its bounding box intersected with
/// its clip rectangle, if present. The result is in half-units; it may be
/// empty or inverted, which merely excludes the node from hits.
pub fn visible_rect(n: &UiNode) -> (r: VisibleRect)
    ensures
        r.min_x == visible_min_x(*n),
        r.max_x == visible_max_x(*n),
        r.min_y == visible_min_y(*n),
        r.max_y == visible_max_y(*n),
{
    let mut min_x: i64 = 2 * (n.x as i64) - (n.width as i64);
    let mut max_x: i64 = 2 * (n.x as i64) + (n.width as i64);
    let mut min_y: i64 = 2 * (n.y as i64) - (n.height as i64);
    let mut max_y: i64 = 2 * (n.y as i64) + (n.height as i64);
    if let Option::Some(clip) = n.clip {
        min_x = max_i64(min_x, 2 * (clip.min_x as i64));
        max_x = min_i64(max_x, 2 * (clip.max_x as i64));
        min_y = max_i64(min_y, 2 * (clip.min_y as i64));
        max_y = min_i64(max_y, 2 * (clip.max_y as i64));
    }
    VisibleRect { min_x, min_y, max_x, max_y }
}

/// Tests whether the cursor lies inside a visible rectangle, on half-open
/// intervals on both axes.
pub fn rect_contains_cursor(r: &VisibleRect, c: CursorPosition) -> (hit: bool)
    ensures
        hit == {
            &&& r.min_x <= 2 * c.x < r.max_x
            &&& r.min_y <= 2 * c.y < r.max_y
        },
{
    let cx: i64 = 2 * (c.x as i64);
    let cy: i64 = 2 * (c.y as i64);
    r.min_x <= cx && cx < r.max_x && r.min_y <= cy && cy < r.max_y
}

/// Tests whether the cursor lies inside the node's visible rectangle.
pub fn node_contains_cursor(n: &UiNode, c: CursorPosition) -> (hit: bool)
    ensures
        hit == node_contains(*n, c),
{
    let r = visible_rect(n);
    rect_contains_cursor(&r, c)
}

} // verus!
