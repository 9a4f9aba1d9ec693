//! World-to-display coordinate mapping.

use crate::geometry::Position;
use crate::rational::{spec_div, spec_sub, Scalar};
use vstd::prelude::*;

verus! {

/// Maps world coordinates (meters, y up) to a display coordinate system
/// (pixels, y down, origin at the top-left corner): `origin` is the world
/// position of the display's top-left corner and `ratio` the meters-per-pixel
/// scale.
pub struct ViewPort {
    pub origin: Position,
    pub ratio: Scalar,
}

/// The display position of a world position: `x' = (x - origin.x) / ratio`
/// and `y' = (origin.y - y) / ratio` (the world's y axis points up, the
/// display's down). `None` only on arithmetic overflow.
pub open spec fn spec_translate_pos(vp: ViewPort, p: Position) -> Option<Position> {
    match spec_sub(p.x, vp.origin.x) {
        None => None,
        Some(dx) => {
            match spec_div(dx, vp.ratio) {
                None => None,
                Some(x) => {
                    match spec_sub(vp.origin.y, p.y) {
                        None => None,
                        Some(dy) => {
                            match spec_div(dy, vp.ratio) {
                                None => None,
                                Some(y) => Some(Position { x, y }),
                            }
                        },
                    }
                },
            }
        },
    }
}

impl ViewPort {
    /// Well-formedness: a nonzero scale, so the divisions are defined.
    pub open spec fn wf(self) -> bool {
        self.origin.wf() && self.ratio.wf() && self.ratio.n != 0
    }

    pub fn new(origin: Position, ratio: Scalar) -> (r: ViewPort)
        requires
            origin.wf(),
            ratio.wf(),
            ratio.n != 0,
        ensures
            r.origin == origin,
            r.ratio == ratio,
            r.wf(),
    {
        ViewPort { origin, ratio }
    }

    /// Maps a world position to display coordinates.
    pub fn translate_pos(&self, real_pos: &Position) -> (r: Option<Position>)
        requires
            self.wf(),
            real_pos.wf(),
        ensures
            r == spec_translate_pos(*self, *real_pos),
            r matches Some(q) ==> q.wf(),
    {
        let dx = match real_pos.x.checked_sub(self.origin.x) {
            Some(v) => v,
            None => {
                return None;
            },
        };
        let x = match dx.checked_div(self.ratio) {
            Some(v) => v,
            None => {
                return None;
            },
        };
        let dy = match self.origin.y.checked_sub(real_pos.y) {
            Some(v) => v,
            None => {
                return None;
            },
        };
        let y = match dy.checked_div(self.ratio) {
            Some(v) => v,
            None => {
                return None;
            },
        };
        Some(Position { x, y })
    }

    /// Converts a length: `size / ratio`, with no translation component.
    pub fn translate_size(&self, size: Scalar) -> (r: Option<Scalar>)
        requires
            self.wf(),
            size.wf(),
        ensures
            r == spec_div(size, self.ratio),
            r matches Some(s) ==> s.wf(),
    {
        size.checked_div(self.ratio)
    }
}

} // verus!
