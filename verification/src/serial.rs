//! The settings of a serial port that ugdb can show in its terminal, and
//! how they are read from the command line.
use vstd::prelude::*;
use crate::mi::value::str_eq;

verus! {

/// The number of data bits of a character.
#[derive(Clone, Copy, PartialEq, Eq, Debug, Structural)]
pub enum CharSize {
    Bits5,
    Bits6,
    Bits7,
    Bits8,
}

/// The parity bit.
#[derive(Clone, Copy, PartialEq, Eq, Debug, Structural)]
pub enum Parity {
    ParityNone,
    ParityOdd,
    ParityEven,
}

/// The number of stop bits.
#[derive(Clone, Copy, PartialEq, Eq, Debug, Structural)]
pub enum StopBits {
    Stop1,
    Stop2,
}

/// How the flow of data is controlled.
#[derive(Clone, Copy, PartialEq, Eq, Debug, Structural)]
pub enum FlowControl {
    FlowNone,
    FlowSoftware,
    FlowHardware,
}

/// The settings of a serial port: the device (if one is to be opened) and
/// how characters are framed.
pub struct SerialOptions {
    pub device: Option<String>,
    pub baud_rate: usize,
    pub data_bits: CharSize,
    pub parity_bit: Parity,
    pub stop_bits: StopBits,
    pub flow_control: FlowControl,
}

/// The number of data bits named by `inp`, or the message that lists the
/// valid values.
pub fn parse_data_bits(inp: &str) -> (r: Result<CharSize, String>)
    ensures
        inp@ == "5"@ <==> r == Ok::<CharSize, String>(CharSize::Bits5),
        inp@ == "6"@ <==> r == Ok::<CharSize, String>(CharSize::Bits6),
        inp@ == "7"@ <==> r == Ok::<CharSize, String>(CharSize::Bits7),
        inp@ == "8"@ <==> r == Ok::<CharSize, String>(CharSize::Bits8),
        r matches Err(m) ==> m@ == "Valid values for data bits are: 5, 6, 7, and 8."@,
{
    proof {
        reveal_strlit("5");
        reveal_strlit("6");
        reveal_strlit("7");
        reveal_strlit("8");
        assert("5"@[0] != "6"@[0]);
        assert("5"@[0] != "7"@[0]);
        assert("5"@[0] != "8"@[0]);
        assert("6"@[0] != "7"@[0]);
        assert("6"@[0] != "8"@[0]);
        assert("7"@[0] != "8"@[0]);
    }
    if str_eq(inp, "5") {
        Ok(CharSize::Bits5)
    } else if str_eq(inp, "6") {
        Ok(CharSize::Bits6)
    } else if str_eq(inp, "7") {
        Ok(CharSize::Bits7)
    } else if str_eq(inp, "8") {
        Ok(CharSize::Bits8)
    } else {
        Err("Valid values for data bits are: 5, 6, 7, and 8.".to_owned())
    }
}

/// The parity named by `inp`, or the message that lists the valid values.
pub fn parse_parity_bit(inp: &str) -> (r: Result<Parity, String>)
    ensures
        inp@ == "none"@ <==> r == Ok::<Parity, String>(Parity::ParityNone),
        inp@ == "even"@ <==> r == Ok::<Parity, String>(Parity::ParityEven),
        inp@ == "odd"@ <==> r == Ok::<Parity, String>(Parity::ParityOdd),
        r matches Err(m) ==> m@ == "Valid values for parity bit are: \"none\", \"even\", and \"odd\"."@,
{
    proof {
        reveal_strlit("none");
        reveal_strlit("even");
        reveal_strlit("odd");
        assert("none"@[0] != "even"@[0]);
        assert("none"@[0] != "odd"@[0]);
        assert("even"@[0] != "odd"@[0]);
    }
    if str_eq(inp, "none") {
        Ok(Parity::ParityNone)
    } else if str_eq(inp, "even") {
        Ok(Parity::ParityEven)
    } else if str_eq(inp, "odd") {
        Ok(Parity::ParityOdd)
    } else {
        Err("Valid values for parity bit are: \"none\", \"even\", and \"odd\".".to_owned())
    }
}

/// The number of stop bits named by `inp`, or the message that lists the
/// valid values.
pub fn parse_stop_bits(inp: &str) -> (r: Result<StopBits, String>)
    ensures
        inp@ == "1"@ <==> r == Ok::<StopBits, String>(StopBits::Stop1),
        inp@ == "2"@ <==> r == Ok::<StopBits, String>(StopBits::Stop2),
        r matches Err(m) ==> m@ == "Valid values for stop bits are: 1 and 2."@,
{
    proof {
        reveal_strlit("1");
        reveal_strlit("2");
        assert("1"@[0] != "2"@[0]);
    }
    if str_eq(inp, "1") {
        Ok(StopBits::Stop1)
    } else if str_eq(inp, "2") {
        Ok(StopBits::Stop2)
    } else {
        Err("Valid values for stop bits are: 1 and 2.".to_owned())
    }
}

/// The flow control named by `inp`, or the message that lists the valid
/// values.
pub fn parse_flow_control(inp: &str) -> (r: Result<FlowControl, String>)
    ensures
        inp@ == "none"@ <==> r == Ok::<FlowControl, String>(FlowControl::FlowNone),
        inp@ == "software"@ <==> r == Ok::<FlowControl, String>(FlowControl::FlowSoftware),
        inp@ == "hardware"@ <==> r == Ok::<FlowControl, String>(FlowControl::FlowHardware),
        r matches Err(m) ==> m@
            == "Valid values for flow control are: \"none\", \"software\" (for XON/XOFF), and \"hardware\" (for RTS/CTS)"@,
{
    proof {
        reveal_strlit("none");
        reveal_strlit("software");
        reveal_strlit("hardware");
        assert("none"@[0] != "software"@[0]);
        assert("none"@[0] != "hardware"@[0]);
        assert("software"@[0] != "hardware"@[0]);
    }
    if str_eq(inp, "none") {
        Ok(FlowControl::FlowNone)
    } else if str_eq(inp, "software") {
        Ok(FlowControl::FlowSoftware)
    } else if str_eq(inp, "hardware") {
        Ok(FlowControl::FlowHardware)
    } else {
        Err(
            "Valid values for flow control are: \"none\", \"software\" (for XON/XOFF), and \"hardware\" (for RTS/CTS)".to_owned(),
        )
    }
}

} // verus!
