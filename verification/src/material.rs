//! Wall colours: each material has a lit colour and a shadowed one, chosen
//! by the side of the wall that a ray hit.

use vstd::prelude::*;
use crate::walk::Axis;

verus! {

/// The two colours of a material, as RGBA bytes.
#[derive(Clone, Copy, Debug, PartialEq, Eq)]
pub struct Shades {
    /// Colour of a face crossed along the x axis.
    pub lit: [u8; 4],
    /// Colour of a face crossed along the y axis.
    pub shadowed: [u8; 4],
}

/// Colours by material id: `shades[id - 1]` belongs to material `id`.
#[derive(Clone, Debug)]
pub struct MaterialTable {
    pub shades: Vec<Shades>,
}

/// `color` at half brightness, with its opacity kept.
pub open spec fn dimmed(color: [u8; 4]) -> [u8; 4] {
    [color[0] / 2, color[1] / 2, color[2] / 2, color[3]]
}

/// The colour of the built-in wall material.
pub open spec fn wall_color() -> [u8; 4] {
    [0x5eu8, 0x48u8, 0xe8u8, 0xffu8]
}

/// The colour shown for a material id that the table does not know.
pub open spec fn unknown_color() -> [u8; 4] {
    [0xffu8, 0x00u8, 0xffu8, 0xffu8]
}

/// Halves the brightness of `color` and keeps its opacity.
pub fn dim(color: [u8; 4]) -> (out: [u8; 4])
    ensures
        out == dimmed(color),
{
    [color[0] / 2, color[1] / 2, color[2] / 2, color[3]]
}

impl Shades {
    /// A lit colour with its dimmed counterpart.
    pub fn of(lit: [u8; 4]) -> (s: Shades)
        ensures
            s == (Shades { lit, shadowed: dimmed(lit) }),
    {
        Shades { lit, shadowed: dim(lit) }
    }

    /// The colour of a face on the given side.
    pub open spec fn facing(self, side: Axis) -> [u8; 4] {
        match side {
            Axis::X => self.lit,
            Axis::Y => self.shadowed,
        }
    }
}

impl MaterialTable {
    /// The shades of material `id`; those of the unknown colour for id zero
    /// and for ids past the end of the table.
    pub open spec fn shades_of(&self, id: u8) -> Shades {
        if 1 <= id <= self.shades@.len() {
            self.shades@[id - 1]
        } else {
            Shades { lit: unknown_color(), shadowed: unknown_color() }
        }
    }

    /// A table with the built-in wall material as id 1.
    pub fn new() -> (t: MaterialTable)
        ensures
            t.shades@ == seq![Shades { lit: wall_color(), shadowed: dimmed(wall_color()) }],
    {
        let lit: [u8; 4] = [0x5e, 0x48, 0xe8, 0xff];
        MaterialTable { shades: vec![Shades::of(lit)] }
    }

    /// Appends a material with the given lit colour; it gets the next id.
    pub fn add(&mut self, lit: [u8; 4])
        ensures
            final(self).shades@ == old(self).shades@.push(Shades { lit, shadowed: dimmed(lit) }),
    {
        self.shades.push(Shades::of(lit));
    }

    /// Looks up the shades of material `id`.
    pub fn lookup(&self, id: u8) -> (s: Shades)
        ensures
            s == self.shades_of(id),
    {
        if id >= 1 && (id as usize) <= self.shades.len() {
            self.shades[(id - 1) as usize]
        } else {
            let c: [u8; 4] = [0xff, 0x00, 0xff, 0xff];
            Shades { lit: c, shadowed: c }
        }
    }

    /// The colour to paint a wall of material `id` that was hit on `side`.
    pub fn color(&self, id: u8, side: Axis) -> (c: [u8; 4])
        ensures
            c == self.shades_of(id).facing(side),
    {
        let s = self.lookup(id);
        match side {
            Axis::X => s.lit,
            Axis::Y => s.shadowed,
        }
    }
}

} // verus!
