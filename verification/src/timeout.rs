//! The inactivity timeout command: one report with a shortened header.

use vstd::prelude::*;
use crate::message::{Message, MessageBuilder, MessageBuilderError};
use crate::report::{Header, HEADER_MARK, REPORT_ID, REPORT_LEN};

verus! {

/// Operation code of the timeout command.
pub const OPERATION_ID: u8 = 0x06;

/// The payload byte that switches the timeout off.
pub const DISABLED: u8 = 0xFF;

/// The payload byte of a timeout: the minutes, or the byte that switches
/// the timeout off.
pub open spec fn spec_timeout_byte(timeout: Option<u8>) -> u8 {
    match timeout {
        Some(minutes) => minutes,
        None => DISABLED,
    }
}

/// The report of a timeout message: report id, operation code and `0xFB`,
/// then the payload byte, then zeros.
pub open spec fn timeout_report(timeout: Option<u8>) -> Seq<u8> {
    Seq::new(
        REPORT_LEN as nat,
        |o: int|
            if o == 0 {
                REPORT_ID
            } else if o == 1 {
                OPERATION_ID
            } else if o == 2 {
                HEADER_MARK
            } else if o == 3 {
                spec_timeout_byte(timeout)
            } else {
                0
            },
    )
}

/// Encodes the inactivity timeout in minutes; `None` disables it.
pub fn timeout_message(timeout: Option<u8>) -> (r: Result<Message, MessageBuilderError>)
    ensures
        r matches Ok(m) && m@ == seq![timeout_report(timeout)],
{
    let byte = match timeout {
        Some(minutes) => minutes,
        None => DISABLED,  // Timeout disabled is signalled by sending 0xFF
    };
    let b = MessageBuilder::new(OPERATION_ID, 1).with_header(Header::Truncated)?.push(byte)?;
    let m = b.build()?;
    assert(m@ =~~= seq![timeout_report(timeout)]);
    Ok(m)
}

} // verus!
