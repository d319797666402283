//! The position of the mouse pointer.

use vstd::prelude::*;

verus! {

/// Where the pointer is, in pixels from the upper left corner of the screen.
#[derive(Clone, Copy, Debug, PartialEq, Eq, Structural)]
pub struct MousePosition {
    pub x: usize,
    pub y: usize,
}

/// `value + delta`, counted round the range of `usize`.
pub open spec fn wrapped_add(value: usize, delta: usize) -> usize {
    if value + delta > usize::MAX {
        (value + delta - usize::MAX - 1) as usize
    } else {
        (value + delta) as usize
    }
}

/// `value - delta`, counted round the range of `usize`.
pub open spec fn wrapped_sub(value: usize, delta: usize) -> usize {
    if value < delta {
        (value - delta + usize::MAX + 1) as usize
    } else {
        (value - delta) as usize
    }
}

/// `value` moved by `delta` along an axis that grows with positive deltas,
/// round the range of `usize`.
pub open spec fn shifted(value: usize, delta: i16) -> usize {
    if delta > 0 {
        wrapped_add(value, delta as usize)
    } else {
        wrapped_sub(value, (-delta) as usize)
    }
}

/// `value` moved against `delta`: the vertical axis of the screen grows
/// downwards, that of the mouse upwards.
pub open spec fn shifted_back(value: usize, delta: i16) -> usize {
    if delta > 0 {
        wrapped_sub(value, delta as usize)
    } else {
        wrapped_add(value, (-delta) as usize)
    }
}

/// `value`, or `limit - 1` where `value` lies beyond it.
pub open spec fn limited(value: usize, limit: usize) -> usize {
    if value > limit - 1 {
        (limit - 1) as usize
    } else {
        value
    }
}

/// `value + delta`, counted round the range of `usize`.
fn add_wrapping(value: usize, delta: usize) -> (r: usize)
    ensures
        r == wrapped_add(value, delta),
{
    if delta > usize::MAX - value {
        delta - (usize::MAX - value) - 1
    } else {
        value + delta
    }
}

/// `value - delta`, counted round the range of `usize`.
fn sub_wrapping(value: usize, delta: usize) -> (r: usize)
    ensures
        r == wrapped_sub(value, delta),
{
    if value < delta {
        usize::MAX - (delta - value) + 1
    } else {
        value - delta
    }
}

/// The size of a move to the left or downwards.
fn magnitude(delta: i16) -> (r: usize)
    requires
        delta <= 0,
    ensures
        r == -delta,
{
    let wide: i32 = delta as i32;
    (0 - wide) as usize
}

impl MousePosition {
    /// The pointer in the upper left corner.
    pub fn new() -> (p: MousePosition)
        ensures
            p == (MousePosition { x: 0, y: 0 }),
    {
        MousePosition { x: 0, y: 0 }
    }

    /// Keeps the pointer on a screen of `width` by `height` pixels: a
    /// coordinate beyond the last pixel becomes the last pixel.
    pub fn limit_pos(&mut self, width: usize, height: usize)
        requires
            width > 0,
            height > 0,
        ensures
            final(self).x == limited(old(self).x, width),
            final(self).y == limited(old(self).y, height),
    {
        if self.x > width - 1 {
            self.x = width - 1;
        }
        if self.y > height - 1 {
            self.y = height - 1;
        }
    }

    /// Moves the pointer by what the mouse reports: `dx` to the right and
    /// `dy` upwards, then back onto the screen. The coordinates are counted
    /// round the range of `usize`, so a move beyond the left or the upper
    /// edge comes out at the opposite edge.
    pub fn set_pos(&mut self, dx: i16, dy: i16, width: usize, height: usize)
        requires
            width > 0,
            height > 0,
        ensures
            final(self).x == limited(shifted(old(self).x, dx), width),
            final(self).y == limited(shifted_back(old(self).y, dy), height),
    {
        if dx > 0 {
            self.x = add_wrapping(self.x, dx as usize);
        } else {
            self.x = sub_wrapping(self.x, magnitude(dx));
        }
        if dy > 0 {
            self.y = sub_wrapping(self.y, dy as usize);
        } else {
            self.y = add_wrapping(self.y, magnitude(dy));
        }
        self.limit_pos(width, height);
    }
}

} // verus!
