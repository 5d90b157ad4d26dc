//! Capability traits for external aggregate types that contain a
//! coordinate value.

use crate::{in_i64, Pos};
use vstd::prelude::*;

verus! {

/// A type that can be considered to have a position in the 2D
/// coordinate space.
pub trait GetPos: Sized {
    /// The position of `self`, as a specification-level value.
    spec fn spec_position(&self) -> Pos;

    /// Returns a copy of the position of `self`.
    fn get_position(&self) -> (r: Pos)
        ensures
            r == self.spec_position(),
    ;
}

/// A type whose position in the 2D coordinate space can be replaced.
pub trait Positioned: GetPos {
    /// Replaces the position of `self` and returns the updated value.
    fn set_position(self, pos: Pos) -> (r: Self)
        ensures
            r.spec_position() == pos,
    ;

    /// Translates `self` by the given displacement, expressed purely in
    /// terms of `get_position` and `set_position`.
    fn translate(self, trans: Pos) -> (r: Self)
        requires
            in_i64(self.spec_position().x + trans.x),
            in_i64(self.spec_position().y + trans.y),
        ensures
            r.spec_position().x == self.spec_position().x + trans.x,
            r.spec_position().y == self.spec_position().y + trans.y,
    {
        let mut moved = trans;
        moved.plus_assign(self.get_position());
        self.set_position(moved)
    }
}

impl GetPos for Pos {
    open spec fn spec_position(&self) -> Pos {
        *self
    }

    fn get_position(&self) -> (r: Pos) {
        *self
    }
}

impl Positioned for Pos {
    fn set_position(self, pos: Pos) -> (r: Self) {
        pos
    }
}

} // verus!
