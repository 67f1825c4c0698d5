//! Line-by-line reading of byte streams whose lines end in `\n`, `\r` or
//! `\r\n`, with the terminator stripped and the bytes otherwise untouched.
use vstd::prelude::*;

pub mod lines;
pub mod scan;
pub mod source;

pub use scan::{read_line_u8, BufReadExt, LinesIter};
pub use source::{ByteSource, FillError, MemSource};

verus! {

} // verus!
