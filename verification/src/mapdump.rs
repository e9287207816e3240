use vstd::prelude::*;

verus! {

/// The highest wall code of a map file; codes above it are doors and floor.
pub const LAST_WALL: u16 = 56;

/// The character that stands for a wall code in a printed map: a blank for
/// a passable cell, then `0` to `9`, `a` to `z` and `A` to `T` for the
/// walls `1` to `56` in turn.
pub open spec fn glyph(w: u16) -> char {
    if w == 0 || w > LAST_WALL {
        ' '
    } else if w - 1 < 10 {
        ((48 + (w - 1)) as u8) as char
    } else if w - 1 < 36 {
        ((97 + (w - 1) - 10) as u8) as char
    } else {
        ((65 + (w - 1) - 36) as u8) as char
    }
}

/// The character that a map dump prints for the wall code `w`.
pub fn wall(w: u16) -> (c: char)
    ensures
        c == glyph(w),
{
    if w == 0 || w > LAST_WALL {
        ' '
    } else {
        let x: u8 = (w - 1) as u8;
        if x < 10 {
            (48u8 + x) as char
        } else if x < 36 {
            (97u8 + x - 10) as char
        } else {
            (65u8 + x - 36) as char
        }
    }
}

} // verus!
