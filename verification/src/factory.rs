//! Makes the framer and the dispatcher for a configuration file.

use vstd::prelude::*;
use crate::input_output::read_serial::{ReadSerial, READ_TIMEOUT_MILLIS};
use crate::input_output::write_serial::{WriteSerial, MAX_HISTORY_LEN};

verus! {

pub struct Factory {}

impl Factory {
    /// The framer for a configuration file, with the default timeout.
    pub fn create_read_serial<'a>(config_file_path: &'a str) -> (framer: ReadSerial<'a>)
        ensures
            framer.config_file_name == config_file_path,
            framer.timeout_ms == Some(READ_TIMEOUT_MILLIS),
    {
        ReadSerial::new(config_file_path)
    }

    /// The dispatcher for a configuration file, with a framer for the same file.
    pub fn create_write_serial<'a>(config_file_path: &'a str) -> (dispatcher: WriteSerial<'a>)
        ensures
            dispatcher.config_file_name == config_file_path,
            dispatcher.read_serial.config_file_name == config_file_path,
            dispatcher.read_serial.timeout_ms == Some(READ_TIMEOUT_MILLIS),
            dispatcher.history_path@ == "history.txt"@,
            dispatcher.max_history_len == MAX_HISTORY_LEN,
    {
        let read_serial = Factory::create_read_serial(config_file_path);
        WriteSerial::new(config_file_path, read_serial)
    }
}

} // verus!
