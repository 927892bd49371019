//! Decisions of a terminal "watch": how many rows a command's output takes at the
//! terminal's width, how to move the cursor back over it before the next redraw, when
//! the loop stops, and how the command line is read.

use vstd::prelude::*;

pub mod render;
pub mod rows;
pub mod settings;

verus! {

} // verus!
