//! The port's settings, as the configuration file words them and as the port takes them.

use vstd::prelude::*;
use serialport::{DataBits, FlowControl, Parity, StopBits};
use crate::text::{lowercase, owned, to_lower};

verus! {

/// The name of the configuration file that is looked for beside the program
/// where none is given.
pub const DEFAULT_CONFIG_FILE: &'static str = "SerialConfig.toml";

/// `serialport::DataBits`, the number of data bits in a character, with its variants.
#[verifier::external_type_specification]
pub struct ExDataBits(DataBits);

/// `serialport::FlowControl`, the way the flow of data is controlled, with its variants.
#[verifier::external_type_specification]
pub struct ExFlowControl(FlowControl);

/// `serialport::Parity`, the parity bit of a character, with its variants.
#[verifier::external_type_specification]
pub struct ExParity(Parity);

/// `serialport::StopBits`, the number of stop bits behind a character, with its variants.
#[verifier::external_type_specification]
pub struct ExStopBits(StopBits);

/// The `serial` section of the configuration file, as it is written there.
#[derive(Debug, PartialEq, Eq)]
pub struct Serial {
    pub serial_port: String,
    pub baud_rate: u32,
    pub data_bits: u32,
    pub flow_control: String,
    pub parity: String,
    pub stop_bits: u32,
    pub timeout_in_milliseconds: u64,
}

/// The settings with which the port is opened.
#[derive(Debug, PartialEq, Eq)]
pub struct GetConfigResults {
    /// The address of the serial port.
    pub serial_port: String,
    pub baud_rate: u32,
    pub data_bits: DataBits,
    pub flow_control: FlowControl,
    pub parity: Parity,
    pub stop_bits: StopBits,
    /// The time that one read of the port may take.
    pub timeout_in_milliseconds: u64,
}

/// The data bits for a number: five to eight as they are, eight for any other.
pub open spec fn data_bits_for(number: u32) -> DataBits {
    if number == 5 {
        DataBits::Five
    } else if number == 6 {
        DataBits::Six
    } else if number == 7 {
        DataBits::Seven
    } else {
        DataBits::Eight
    }
}

/// The stop bits for a number: two for 2, one for any other.
pub open spec fn stop_bits_for(number: u32) -> StopBits {
    if number == 2 {
        StopBits::Two
    } else {
        StopBits::One
    }
}

/// The flow control for a word in lower case: none for any word but the two that name one.
pub open spec fn flow_control_for(lower: Seq<char>) -> FlowControl {
    if lower == "software"@ {
        FlowControl::Software
    } else if lower == "hardware"@ {
        FlowControl::Hardware
    } else {
        FlowControl::None
    }
}

/// The parity for a word in lower case: none for any word but the two that name one.
pub open spec fn parity_for(lower: Seq<char>) -> Parity {
    if lower == "odd"@ {
        Parity::Odd
    } else if lower == "even"@ {
        Parity::Even
    } else {
        Parity::None
    }
}

/// The settings that a `serial` section asks for.
pub open spec fn config_of(serial: Serial) -> GetConfigResults {
    GetConfigResults {
        serial_port: serial.serial_port,
        baud_rate: serial.baud_rate,
        data_bits: data_bits_for(serial.data_bits),
        flow_control: flow_control_for(lowercase(serial.flow_control@)),
        parity: parity_for(lowercase(serial.parity@)),
        stop_bits: stop_bits_for(serial.stop_bits),
        timeout_in_milliseconds: serial.timeout_in_milliseconds,
    }
}

pub struct ParseConfig {}

impl ParseConfig {
    /// Whether the configuration is to be looked for beside the program,
    /// which it is where no file is named.
    pub fn uses_default_file(config_file_name: &str) -> (default: bool)
        ensures
            default == (config_file_name@.len() == 0),
    {
        config_file_name.is_empty()
    }

    /// The settings that a `serial` section asks for. Words are read without
    /// regard to case, and a value that names no setting gives the usual one.
    pub fn get_config(serial: &Serial) -> (config: GetConfigResults)
        ensures
            config == config_of(*serial),
    {
        GetConfigResults {
            serial_port: serial.serial_port.clone(),
            baud_rate: serial.baud_rate,
            data_bits: ParseConfig::get_data_bits(serial),
            flow_control: ParseConfig::get_flow_control(serial),
            parity: ParseConfig::get_parity(serial),
            stop_bits: ParseConfig::get_stop_bits(serial),
            timeout_in_milliseconds: serial.timeout_in_milliseconds,
        }
    }

    pub fn get_data_bits(serial: &Serial) -> (bits: DataBits)
        ensures
            bits == data_bits_for(serial.data_bits),
    {
        match serial.data_bits {
            5 => DataBits::Five,
            6 => DataBits::Six,
            7 => DataBits::Seven,
            _ => DataBits::Eight,
        }
    }

    pub fn get_flow_control(serial: &Serial) -> (flow: FlowControl)
        ensures
            flow == flow_control_for(lowercase(serial.flow_control@)),
    {
        let lower = to_lower(serial.flow_control.as_str());
        ParseConfig::flow_control_named(lower.as_str())
    }

    /// The flow control that a word in lower case names.
    pub fn flow_control_named(lower: &str) -> (flow: FlowControl)
        ensures
            flow == flow_control_for(lower@),
    {
        let word = owned(lower);
        if word == owned("software") {
            FlowControl::Software
        } else if word == owned("hardware") {
            FlowControl::Hardware
        } else {
            FlowControl::None
        }
    }

    pub fn get_parity(serial: &Serial) -> (parity: Parity)
        ensures
            parity == parity_for(lowercase(serial.parity@)),
    {
        let lower = to_lower(serial.parity.as_str());
        ParseConfig::parity_named(lower.as_str())
    }

    /// The parity that a word in lower case names.
    pub fn parity_named(lower: &str) -> (parity: Parity)
        ensures
            parity == parity_for(lower@),
    {
        let word = owned(lower);
        if word == owned("odd") {
            Parity::Odd
        } else if word == owned("even") {
            Parity::Even
        } else {
            Parity::None
        }
    }

    pub fn get_stop_bits(serial: &Serial) -> (bits: StopBits)
        ensures
            bits == stop_bits_for(serial.stop_bits),
    {
        match serial.stop_bits {
            2 => StopBits::Two,
            _ => StopBits::One,
        }
    }
}

} // verus!
