//! The plain monitor: it gathers what the channel delivers until a poll
//! brings a terminator, and shows the line. It never gives up on a line.

use vstd::prelude::*;
use crate::input_output::read_serial::has_terminator;
use crate::text::{decode_bytes, decoded, escape_line, escaped};

verus! {

/// The line with which the plain monitor shows a received line.
pub open spec fn shown_line(timestamp: Seq<char>, line: Seq<char>) -> Seq<char> {
    "["@ + timestamp + "] Rx: '"@ + escaped(line) + "'"@
}

/// Whether a carriage return or a line feed is among the bytes.
pub fn contains_terminator(bytes: &[u8]) -> (found: bool)
    ensures
        found == has_terminator(bytes@),
{
    let mut i: usize = 0;
    while i < bytes.len()
        invariant
            i <= bytes.len(),
            !has_terminator(bytes@.take(i as int)),
        decreases bytes.len() - i,
    {
        if bytes[i] == 0x0D || bytes[i] == 0x0A {
            return true;
        }
        i += 1;
        assert forall|k: int| 0 <= k < i implies !crate::input_output::read_serial::is_terminator(
            #[trigger] bytes@.take(i as int)[k],
        ) by {
            if k < i - 1 {
                assert(bytes@.take(i - 1)[k] == bytes@[k]);
            }
        }
    }
    assert(bytes@.take(i as int) =~= bytes@);
    false
}

/// The plain monitor.
#[derive(Debug, Clone, Copy, PartialEq, Eq)]
pub struct ReadSerial;

impl ReadSerial {
    pub fn new() -> (monitor: ReadSerial) {
        ReadSerial {  }
    }

    /// One turn of the monitor, on what one poll delivered at the moment
    /// `timestamp`. The bytes join the text that is pending. Where a
    /// terminator is among them, the pending text is shown and cleared.
    pub fn execute(&self, pending: &mut String, bytes: &[u8], timestamp: &str) -> (shown: Option<
        String,
    >)
        ensures
            has_terminator(bytes@) ==> shown is Some && shown->0@ == shown_line(
                timestamp@,
                old(pending)@ + decoded(bytes@),
            ) && final(pending)@ == Seq::<char>::empty(),
            !has_terminator(bytes@) ==> shown is None && final(pending)@ == old(pending)@
                + decoded(bytes@),
    {
        let text = decode_bytes(bytes);
        pending.append(text.as_str());
        if contains_terminator(bytes) {
            let escaped_line = escape_line(pending.as_str());
            let mut shown = String::new();
            shown.append("[");
            shown.append(timestamp);
            shown.append("] Rx: '");
            shown.append(escaped_line.as_str());
            shown.append("'");
            assert(shown@ =~= shown_line(timestamp@, old(pending)@ + decoded(bytes@)));
            *pending = String::new();
            Some(shown)
        } else {
            None
        }
    }
}

} // verus!
