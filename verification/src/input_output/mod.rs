//! The two halves of a terminal session: framing what comes in, dispatching what goes out.

pub mod macro_table;
pub mod read_serial;
pub mod write_serial;
