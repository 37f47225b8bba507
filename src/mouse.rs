use vstd::prelude::*;

verus! {

/// Pointer state: the last known position and the displacement of the latest move.
///
/// The frame driver owns one value of this type and hands it to the interaction
/// handler each frame.
#[derive(Debug, Clone, Copy, PartialEq, Eq)]
pub struct Mouse {
    pub x: i16,
    pub y: i16,
    pub delta_x: i16,
    pub delta_y: i16,
}

/// Whether moving from `from` to `to` gives a displacement that fits in `i16`.
pub open spec fn step_fits(from: i16, to: i16) -> bool {
    i16::MIN <= to - from <= i16::MAX
}

impl Mouse {
    /// A pointer at the origin that has not moved.
    pub fn new() -> (r: Self)
        ensures
            r.x == 0 && r.y == 0,
            r.delta_x == 0 && r.delta_y == 0,
    {
        Mouse { x: 0, y: 0, delta_x: 0, delta_y: 0 }
    }

    /// Records a move to `(new_x, new_y)`; the delta becomes the displacement
    /// from the previous position.
    pub fn update_position(&mut self, new_x: i16, new_y: i16)
        requires
            step_fits(old(self).x, new_x),
            step_fits(old(self).y, new_y),
        ensures
            final(self).x == new_x,
            final(self).y == new_y,
            final(self).delta_x == new_x - old(self).x,
            final(self).delta_y == new_y - old(self).y,
    {
        self.delta_x = new_x - self.x;
        self.delta_y = new_y - self.y;
        self.x = new_x;
        self.y = new_y;
    }

    /// Whether a move to `(new_x, new_y)` has a displacement that fits in
    /// `i16` on both axes, so that it can be recorded.
    pub fn can_move_to(&self, new_x: i16, new_y: i16) -> (r: bool)
        ensures
            r == (step_fits(self.x, new_x) && step_fits(self.y, new_y)),
    {
        let dx = new_x as i32 - self.x as i32;
        let dy = new_y as i32 - self.y as i32;
        i16::MIN as i32 <= dx && dx <= i16::MAX as i32 && i16::MIN as i32 <= dy && dy
            <= i16::MAX as i32
    }

    /// The current position.
    pub fn get_position(&self) -> (r: (i16, i16))
        ensures
            r == (self.x, self.y),
    {
        (self.x, self.y)
    }

    /// The displacement of the latest move.
    pub fn get_delta(&self) -> (r: (i16, i16))
        ensures
            r == (self.delta_x, self.delta_y),
    {
        (self.delta_x, self.delta_y)
    }
}

} // verus!
