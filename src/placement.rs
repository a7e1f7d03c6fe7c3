use vstd::prelude::*;

use crate::config::Position;

verus! {

/// Frames on which the overlay tries to find and place its own window.
pub const MAX_PLACEMENT_ATTEMPTS: u32 = 5;

/// Whether the overlay's window has been placed on the screen yet.
#[derive(PartialEq, Eq, Structural, Clone, Copy, Debug)]
pub enum Placement {
    /// Not placed, after this many attempts.
    Unplaced { attempts: u32 },
    Placed,
}

impl Placement {
    pub fn new() -> (r: Placement)
        ensures
            r == (Placement::Unplaced { attempts: 0 }),
    {
        Placement::Unplaced { attempts: 0 }
    }

    /// Whether this frame should try to place the window: not placed yet and
    /// fewer than five attempts made.
    pub fn should_attempt(&self) -> (r: bool)
        ensures
            r == (match *self {
                Placement::Unplaced { attempts } => attempts < MAX_PLACEMENT_ATTEMPTS,
                Placement::Placed => false,
            }),
    {
        match *self {
            Placement::Unplaced { attempts } => attempts < MAX_PLACEMENT_ATTEMPTS,
            Placement::Placed => false,
        }
    }

    /// Records an attempt that found and placed the window, or did not. An
    /// attempt out of turn changes nothing.
    pub fn record_attempt(&mut self, placed: bool)
        ensures
            *final(self) == (match *old(self) {
                Placement::Unplaced { attempts } => if attempts >= MAX_PLACEMENT_ATTEMPTS {
                    *old(self)
                } else if placed {
                    Placement::Placed
                } else {
                    Placement::Unplaced { attempts: (attempts + 1) as u32 }
                },
                Placement::Placed => Placement::Placed,
            }),
    {
        match *self {
            Placement::Unplaced { attempts } => {
                if attempts < MAX_PLACEMENT_ATTEMPTS {
                    if placed {
                        *self = Placement::Placed;
                    } else {
                        *self = Placement::Unplaced { attempts: attempts + 1 };
                    }
                }
            },
            Placement::Placed => {},
        }
    }
}

/// Width of the workspace switcher for `count` workspaces: 142 pixels a
/// button, 10 between buttons, 12 of padding.
pub fn switcher_width(count: u32) -> (r: u64)
    ensures
        r == 142 * count + (if count > 0 {
            10 * (count - 1)
        } else {
            0
        }) + 12,
{
    let gaps: u64 = if count > 0 {
        count as u64 - 1
    } else {
        0
    };
    count as u64 * 142 + gaps * 10 + 12
}

/// Height of the workspace switcher.
pub const SWITCHER_HEIGHT: u64 = 92;

/// Space kept free between the window and each edge of the screen.
#[derive(PartialEq, Eq, Structural, Clone, Copy, Debug)]
pub struct Padding {
    pub top: i32,
    pub bottom: i32,
    pub left: i32,
    pub right: i32,
}

/// Screen width and height the overlay is laid out on.
pub const SCREEN_WIDTH: i64 = 1920;

pub const SCREEN_HEIGHT: i64 = 1080;

/// Where the top left corner of a `width` by `height` window goes for an anchor.
pub open spec fn origin_of(p: Position, width: int, height: int, pad: Padding) -> (int, int) {
    let cx = SCREEN_WIDTH / 2 - width / 2;
    let cy = SCREEN_HEIGHT / 2 - height / 2;
    let right = SCREEN_WIDTH - width - pad.right;
    let bottom = SCREEN_HEIGHT - height - pad.bottom;
    match p {
        Position::Center => (cx, cy),
        Position::Top => (cx, pad.top as int),
        Position::TopLeft => (pad.left as int, pad.top as int),
        Position::TopRight => (right, pad.top as int),
        Position::Bottom => (cx, bottom),
        Position::BottomLeft => (pad.left as int, bottom),
        Position::BottomRight => (right, bottom),
    }
}

/// Where the top left corner of a `width` by `height` window goes: centred on
/// the screen along an axis the anchor does not name, else against that edge
/// less its padding.
pub fn window_origin(p: Position, width: u32, height: u32, pad: Padding) -> (r: (i64, i64))
    ensures
        (r.0 as int, r.1 as int) == origin_of(p, width as int, height as int, pad),
{
    let w = width as i64;
    let h = height as i64;
    let cx = SCREEN_WIDTH / 2 - w / 2;
    let cy = SCREEN_HEIGHT / 2 - h / 2;
    let right = SCREEN_WIDTH - w - pad.right as i64;
    let bottom = SCREEN_HEIGHT - h - pad.bottom as i64;
    match p {
        Position::Center => (cx, cy),
        Position::Top => (cx, pad.top as i64),
        Position::TopLeft => (pad.left as i64, pad.top as i64),
        Position::TopRight => (right, pad.top as i64),
        Position::Bottom => (cx, bottom),
        Position::BottomLeft => (pad.left as i64, bottom),
        Position::BottomRight => (right, bottom),
    }
}

} // verus!
