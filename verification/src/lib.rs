//! A grid raycaster: the tile grid, the walk of a ray from grid line to grid
//! line, collision-aware movement, and the painting of wall strips into an
//! RGBA frame. Everything here is integer logic with a proved contract.

pub mod raycaster;
pub mod walk;
pub mod motion;
pub mod material;
pub mod frame;
pub mod map_text;

pub use crate::frame::{clear, draw_vertical_line, wall_strip, Column, Strip};
pub use crate::map_text::{parse_map, MapError};
pub use crate::material::{MaterialTable, Shades};
pub use crate::motion::Slide;
pub use crate::raycaster::{Raycaster, Screen};
pub use crate::walk::{Advance, Axis, Heading, Lost, RayHit, Ruler, Walk};
