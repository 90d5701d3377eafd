//! Chat command core: reassembles fragmented chat lines, picks out the lines
//! addressed to the `cef` keyword, debounces their dispatch and keeps colour
//! runs alive across the lines of multi-line output.

pub mod chat;
pub mod color;
pub mod dispatch;
pub mod invocation;
pub mod reassembly;
pub mod router;

pub use color::{chat_print_lines, format_multiline, get_last_color, remove_color};
