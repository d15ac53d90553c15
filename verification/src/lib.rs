use vstd::prelude::*;

pub mod text;
pub mod glob;
pub mod parse;
pub mod ansi;
pub mod format;
pub mod level;
pub mod message;
pub mod byte_format;
pub mod progress;
pub mod bars;
pub mod bar_width;
pub mod bar_lines;
pub mod bar_count;
pub mod count_laws;
pub mod frame;
pub mod cycle;
pub mod utf8;
pub mod driver;
pub mod sorted;
pub mod cargo;
pub mod paths;
pub mod process;
pub mod pio;
pub mod prompt;
pub mod snapshot;
pub mod misc;
pub mod printer;

verus! {

} // verus!
