//! The plain dispatcher: every line of input goes out as it was entered.

use vstd::prelude::*;
use crate::input_output::read_serial::ReadSerial;
use crate::input_output::write_serial::{exchange, push_exchange, steps_of, Action};
use crate::text::{chars_of, owned, push_char, texts};

verus! {

/// The banner is shown again after this many inputs.
pub const BANNER_PERIOD: u8 = 10;

/// The plain dispatcher, with the configuration it was made for.
#[derive(Debug, Clone, Copy, PartialEq, Eq)]
pub struct WriteSerial<'a> {
    /// The configuration file that names the port to talk to.
    pub config_file_name: &'a str,
    /// The framer that reads every reply.
    pub read_serial: ReadSerial<'a>,
}

impl<'a> WriteSerial<'a> {
    pub fn new(config_file_name: &'a str, read_serial: ReadSerial<'a>) -> (dispatcher: WriteSerial<
        'a,
    >)
        ensures
            dispatcher.config_file_name == config_file_name,
            dispatcher.read_serial == read_serial,
    {
        WriteSerial { config_file_name, read_serial }
    }

    /// The banner's lines before an input, and the count after it. The banner
    /// is due where the count stands at nought, and the count starts again
    /// once it has reached the period.
    pub fn banner(&self, count: u8) -> (turn: (Vec<String>, u8))
        ensures
            turn.1 == if count + 1 < BANNER_PERIOD {
                count + 1
            } else {
                0
            },
            count < BANNER_PERIOD ==> turn.1 == (count + 1) % (BANNER_PERIOD as int),
            texts(turn.0@) == if count == 0 {
                seq!["Press Ctrl + C to end the session"@]
            } else {
                Seq::empty()
            },
    {
        let mut lines: Vec<String> = Vec::new();
        if count == 0 {
            lines.push(owned("Press Ctrl + C to end the session"));
            assert(texts(lines@) =~= seq!["Press Ctrl + C to end the session"@]);
        } else {
            assert(texts(lines@) =~= Seq::<Seq<char>>::empty());
        }
        let next: u8 = if count < BANNER_PERIOD - 1 { count + 1 } else { 0 };
        (lines, next)
    }

    /// The steps for one line as it was read from the input, its last
    /// character being the line's end: one exchange with the device, on the
    /// line without that character.
    pub fn execute(&self, raw: &str) -> (actions: Vec<Action>)
        ensures
            steps_of(actions@) == exchange(
                if raw@.len() > 0 {
                    raw@.drop_last()
                } else {
                    raw@
                },
            ),
    {
        let chars = chars_of(raw);
        let mut line = String::new();
        let keep: usize = if chars.len() > 0 { chars.len() - 1 } else { 0 };
        let mut i: usize = 0;
        while i < keep
            invariant
                i <= keep <= chars.len(),
                line@ == chars@.take(i as int),
            decreases keep - i,
        {
            push_char(&mut line, chars[i]);
            i += 1;
            assert(chars@.take(i as int) =~= chars@.take(i - 1).push(chars@[i - 1]));
        }
        proof {
            if chars@.len() > 0 {
                assert(chars@.take(i as int) =~= chars@.drop_last());
            } else {
                assert(chars@.take(i as int) =~= chars@);
            }
        }
        let mut actions: Vec<Action> = Vec::new();
        push_exchange(&mut actions, line.as_str());
        assert(steps_of(actions@) =~= exchange(line@));
        actions
    }
}

} // verus!
