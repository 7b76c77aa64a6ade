//! Line framing and command dispatch for a serial terminal.

pub mod factory;
pub mod input_output;
pub mod numeral;
pub mod parse_config;
pub mod read_serial;
pub mod text;
pub mod write_serial;
