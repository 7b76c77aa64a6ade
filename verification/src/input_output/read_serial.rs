//! The line framer: it turns what successive polls of a channel deliver into
//! one line of text, or into the reason why there is none.
//!
//! The framer never touches a channel or a clock. Its caller polls the channel,
//! reads the time that has passed since the attempt began, and hands both to
//! [`ReadSerial::poll`], until that says the attempt is over. A recorded run of polls
//! is framed as a whole by [`IReadSerial::read_serial_line`].

use vstd::prelude::*;
use crate::numeral::{padded, push_padded};
use crate::text::{decode_bytes, decoded, escape_line, escaped};

verus! {

/// The time allowed for one line, in seconds.
pub const READ_TIMEOUT_SECONDS: u64 = 5;

/// The time allowed for one line, in milliseconds.
pub const READ_TIMEOUT_MILLIS: u64 = READ_TIMEOUT_SECONDS * 1000;

/// The size of the scratch buffer that one poll of the channel fills.
pub const SCRATCH_LEN: usize = 256;

/// Why an attempt to read a line gave none.
#[derive(Debug, Clone, Copy, PartialEq, Eq, Structural)]
pub enum ReadError {
    /// The deadline passed before the attempt could end with a line.
    Timeout,
    /// The attempt ended without a single byte.
    NoResponse,
}

/// What one poll of the channel observed.
#[derive(Debug, PartialEq, Eq)]
pub struct Tick {
    /// The bytes that the poll delivered; none where the channel was silent or the read failed.
    pub bytes: Vec<u8>,
    /// The time since the attempt began, in milliseconds, read after the poll.
    pub elapsed_ms: u64,
}

/// A poll as the contracts see it.
pub struct TickView {
    pub bytes: Seq<u8>,
    pub elapsed_ms: u64,
}

impl View for Tick {
    type V = TickView;

    open spec fn view(&self) -> TickView {
        TickView { bytes: self.bytes@, elapsed_ms: self.elapsed_ms }
    }
}

/// A recorded run of polls as the contracts see it.
pub open spec fn script(ticks: Seq<Tick>) -> Seq<TickView> {
    ticks.map_values(|t: Tick| t@)
}

/// A byte that ends a line: carriage return or line feed.
pub open spec fn is_terminator(b: u8) -> bool {
    b == 0x0D || b == 0x0A
}

/// Whether a terminator is among the bytes.
pub open spec fn has_terminator(bytes: Seq<u8>) -> bool {
    exists|i: int| 0 <= i < bytes.len() && is_terminator(#[trigger] bytes[i])
}

/// Whether the deadline has passed. Without a timeout it never does.
pub open spec fn expired(timeout_ms: Option<u64>, elapsed_ms: u64) -> bool {
    timeout_ms matches Some(limit) && elapsed_ms >= limit
}

/// The verdict after a poll, on the line gathered so far with that poll's
/// bytes in it: `None` where the attempt goes on. The deadline is looked at
/// first, so a terminator that arrives with it is lost to the timeout.
pub open spec fn tick_verdict(timeout_ms: Option<u64>, line: Seq<u8>, elapsed_ms: u64) -> Option<
    Result<Seq<u8>, ReadError>,
> {
    if expired(timeout_ms, elapsed_ms) {
        Some(Err(ReadError::Timeout))
    } else if has_terminator(line) {
        Some(Ok(line))
    } else {
        None
    }
}

/// The verdict where the polls end before any of them gave one. With a
/// timeout the silence that follows runs into the deadline; without one the
/// attempt reports what it has.
pub open spec fn closing_verdict(timeout_ms: Option<u64>, line: Seq<u8>) -> Result<
    Seq<u8>,
    ReadError,
> {
    if timeout_ms is Some {
        Err(ReadError::Timeout)
    } else if line.len() == 0 {
        Err(ReadError::NoResponse)
    } else {
        Ok(line)
    }
}

/// The outcome of an attempt that has gathered `line` and then sees `ticks`.
pub open spec fn framed(timeout_ms: Option<u64>, line: Seq<u8>, ticks: Seq<TickView>) -> Result<
    Seq<u8>,
    ReadError,
>
    decreases ticks.len(),
{
    if ticks.len() == 0 {
        closing_verdict(timeout_ms, line)
    } else {
        let longer = line + ticks[0].bytes;
        match tick_verdict(timeout_ms, longer, ticks[0].elapsed_ms) {
            Some(verdict) => verdict,
            None => framed(timeout_ms, longer, ticks.drop_first()),
        }
    }
}

/// Whether poll `i` falls inside the window: neither it nor a poll before it
/// found the deadline passed.
pub open spec fn in_window(timeout_ms: Option<u64>, ticks: Seq<TickView>, i: int) -> bool {
    forall|j: int| 0 <= j <= i ==> !expired(timeout_ms, (#[trigger] ticks[j]).elapsed_ms)
}

/// The bytes of the first `n` polls, in the order in which they came.
pub open spec fn gathered(ticks: Seq<TickView>, n: int) -> Seq<u8>
    decreases n,
{
    if n <= 0 {
        Seq::empty()
    } else {
        gathered(ticks, n - 1) + ticks[n - 1].bytes
    }
}

/// A terminator is in two runs of bytes put together where it is in one of them.
pub proof fn lemma_terminator_in_either(a: Seq<u8>, b: Seq<u8>)
    ensures
        has_terminator(a + b) <==> has_terminator(a) || has_terminator(b),
{
    if has_terminator(a) {
        let i = choose|i: int| 0 <= i < a.len() && is_terminator(a[i]);
        assert(is_terminator((a + b)[i]));
    }
    if has_terminator(b) {
        let i = choose|i: int| 0 <= i < b.len() && is_terminator(b[i]);
        assert(is_terminator((a + b)[a.len() + i]));
    }
    if has_terminator(a + b) {
        let i = choose|i: int| 0 <= i < (a + b).len() && is_terminator((a + b)[i]);
        if i < a.len() {
            assert(is_terminator(a[i]));
        } else {
            assert(is_terminator(b[i - a.len()]));
        }
    }
}

proof fn lemma_gathered_from_second(ticks: Seq<TickView>, n: int)
    requires
        1 <= n <= ticks.len(),
    ensures
        gathered(ticks, n) == ticks[0].bytes + gathered(ticks.drop_first(), n - 1),
    decreases n,
{
    if n == 1 {
        assert(gathered(ticks, 0) =~= Seq::<u8>::empty());
        assert(gathered(ticks.drop_first(), 0) =~= Seq::<u8>::empty());
        assert(gathered(ticks, 1) =~= ticks[0].bytes + gathered(ticks.drop_first(), 0));
    } else {
        lemma_gathered_from_second(ticks, n - 1);
        assert(ticks.drop_first()[n - 2] == ticks[n - 1]);
        assert(gathered(ticks, n) =~= ticks[0].bytes + gathered(ticks.drop_first(), n - 1));
    }
}

proof fn lemma_window_of_rest(timeout_ms: Option<u64>, ticks: Seq<TickView>, i: int)
    requires
        0 <= i < ticks.len() - 1,
        !expired(timeout_ms, ticks[0].elapsed_ms),
    ensures
        in_window(timeout_ms, ticks.drop_first(), i) <==> in_window(timeout_ms, ticks, i + 1),
{
    let rest = ticks.drop_first();
    if in_window(timeout_ms, rest, i) {
        assert forall|j: int| 0 <= j <= i + 1 implies !expired(
            timeout_ms,
            (#[trigger] ticks[j]).elapsed_ms,
        ) by {
            if j > 0 {
                assert(rest[j - 1] == ticks[j]);
            }
        }
    }
    if in_window(timeout_ms, ticks, i + 1) {
        assert forall|j: int| 0 <= j <= i implies !expired(
            timeout_ms,
            (#[trigger] rest[j]).elapsed_ms,
        ) by {
            assert(rest[j] == ticks[j + 1]);
        }
    }
}

proof fn lemma_times_out_from(limit: u64, line: Seq<u8>, ticks: Seq<TickView>)
    requires
        !has_terminator(line),
        forall|i: int|
            0 <= i < ticks.len() && in_window(Some(limit), ticks, i) ==> !has_terminator(
                (#[trigger] ticks[i]).bytes,
            ),
    ensures
        framed(Some(limit), line, ticks) == Err::<Seq<u8>, ReadError>(ReadError::Timeout),
    decreases ticks.len(),
{
    if ticks.len() > 0 && !expired(Some(limit), ticks[0].elapsed_ms) {
        let rest = ticks.drop_first();
        assert(in_window(Some(limit), ticks, 0));
        lemma_terminator_in_either(line, ticks[0].bytes);
        assert forall|i: int|
            0 <= i < rest.len() && in_window(Some(limit), rest, i) implies !has_terminator(
            (#[trigger] rest[i]).bytes,
        ) by {
            lemma_window_of_rest(Some(limit), ticks, i);
            assert(rest[i] == ticks[i + 1]);
        }
        lemma_times_out_from(limit, line + ticks[0].bytes, rest);
    }
}

/// With a timeout, a stream that shows no terminator inside the window ends in
/// `Timeout`, whatever else it delivers and whatever comes after the deadline.
pub proof fn lemma_no_terminator_times_out(limit: u64, ticks: Seq<TickView>)
    requires
        forall|i: int|
            0 <= i < ticks.len() && in_window(Some(limit), ticks, i) ==> !has_terminator(
                (#[trigger] ticks[i]).bytes,
            ),
    ensures
        framed(Some(limit), Seq::empty(), ticks) == Err::<Seq<u8>, ReadError>(ReadError::Timeout),
{
    lemma_times_out_from(limit, Seq::empty(), ticks);
}

proof fn lemma_silence_without_timeout(ticks: Seq<TickView>)
    requires
        forall|i: int| 0 <= i < ticks.len() ==> (#[trigger] ticks[i]).bytes.len() == 0,
    ensures
        framed(None, Seq::empty(), ticks) == Err::<Seq<u8>, ReadError>(ReadError::NoResponse),
    decreases ticks.len(),
{
    if ticks.len() > 0 {
        let rest = ticks.drop_first();
        assert(Seq::<u8>::empty() + ticks[0].bytes =~= Seq::<u8>::empty());
        assert forall|i: int| 0 <= i < rest.len() implies (#[trigger] rest[i]).bytes.len()
            == 0 by {
            assert(rest[i] == ticks[i + 1]);
        }
        lemma_silence_without_timeout(rest);
    }
}

/// A stream that delivers no byte at all ends in `Timeout` where the framer
/// has a timeout, and in `NoResponse` where it has none.
pub proof fn lemma_silence(timeout_ms: Option<u64>, ticks: Seq<TickView>)
    requires
        forall|i: int| 0 <= i < ticks.len() ==> (#[trigger] ticks[i]).bytes.len() == 0,
    ensures
        timeout_ms is Some ==> framed(timeout_ms, Seq::empty(), ticks) == Err::<
            Seq<u8>,
            ReadError,
        >(ReadError::Timeout),
        timeout_ms is None ==> framed(timeout_ms, Seq::empty(), ticks) == Err::<
            Seq<u8>,
            ReadError,
        >(ReadError::NoResponse),
{
    match timeout_ms {
        Some(limit) => {
            lemma_no_terminator_times_out(limit, ticks);
        },
        None => {
            lemma_silence_without_timeout(ticks);
        },
    }
}

proof fn lemma_line_from(timeout_ms: Option<u64>, line: Seq<u8>, ticks: Seq<TickView>, k: int)
    requires
        !has_terminator(line),
        0 <= k < ticks.len(),
        has_terminator(ticks[k].bytes),
        forall|j: int| 0 <= j < k ==> !has_terminator((#[trigger] ticks[j]).bytes),
        in_window(timeout_ms, ticks, k),
    ensures
        framed(timeout_ms, line, ticks) == Ok::<Seq<u8>, ReadError>(line + gathered(ticks, k + 1)),
    decreases k,
{
    let rest = ticks.drop_first();
    assert(!expired(timeout_ms, ticks[0].elapsed_ms));
    lemma_terminator_in_either(line, ticks[0].bytes);
    lemma_gathered_from_second(ticks, k + 1);
    if k == 0 {
        assert(gathered(rest, 0) =~= Seq::<u8>::empty());
        assert(line + ticks[0].bytes =~= line + gathered(ticks, 1));
    } else {
        assert(rest[k - 1] == ticks[k]);
        assert forall|j: int| 0 <= j < k - 1 implies !has_terminator(
            (#[trigger] rest[j]).bytes,
        ) by {
            assert(rest[j] == ticks[j + 1]);
        }
        lemma_window_of_rest(timeout_ms, ticks, k - 1);
        lemma_line_from(timeout_ms, line + ticks[0].bytes, rest, k - 1);
        assert((line + ticks[0].bytes) + gathered(rest, k) =~= line + gathered(ticks, k + 1));
    }
}

/// Where poll `k` is the first to deliver a terminator, and comes before the
/// deadline, the line is all that was delivered up to and including that poll:
/// every byte of it, in order, those behind the terminator too.
pub proof fn lemma_line_is_all_up_to_terminator(
    timeout_ms: Option<u64>,
    ticks: Seq<TickView>,
    k: int,
)
    requires
        0 <= k < ticks.len(),
        has_terminator(ticks[k].bytes),
        forall|j: int| 0 <= j < k ==> !has_terminator((#[trigger] ticks[j]).bytes),
        in_window(timeout_ms, ticks, k),
    ensures
        framed(timeout_ms, Seq::empty(), ticks) == Ok::<Seq<u8>, ReadError>(gathered(ticks, k + 1)),
{
    lemma_line_from(timeout_ms, Seq::empty(), ticks, k);
    assert(Seq::<u8>::empty() + gathered(ticks, k + 1) =~= gathered(ticks, k + 1));
}

/// A line that is handed out is never empty, and with a timeout it holds a terminator.
pub proof fn lemma_line_shape(timeout_ms: Option<u64>, line: Seq<u8>, ticks: Seq<TickView>)
    ensures
        framed(timeout_ms, line, ticks) matches Ok(text) ==> text.len() > 0 && (timeout_ms is Some
            ==> has_terminator(text)),
    decreases ticks.len(),
{
    if ticks.len() > 0 {
        lemma_line_shape(timeout_ms, line + ticks[0].bytes, ticks.drop_first());
    }
}

/// An outcome in bytes as the text that is handed out.
pub open spec fn as_text(outcome: Result<Seq<u8>, ReadError>) -> Result<Seq<char>, ReadError> {
    match outcome {
        Ok(line) => Ok(decoded(line)),
        Err(e) => Err(e),
    }
}

/// The text of an outcome that was handed out.
pub open spec fn text_of(outcome: Result<String, ReadError>) -> Result<Seq<char>, ReadError> {
    match outcome {
        Ok(line) => Ok(line@),
        Err(e) => Err(e),
    }
}

/// A verdict in bytes as the text that is handed out.
pub open spec fn verdict_as_text(verdict: Option<Result<Seq<u8>, ReadError>>) -> Option<
    Result<Seq<char>, ReadError>,
> {
    match verdict {
        Some(outcome) => Some(as_text(outcome)),
        None => None,
    }
}

/// A moment of the local clock, as the monitor reads it.
#[derive(Debug, PartialEq, Eq)]
pub struct Stamp {
    /// The date and the time of day, written out.
    pub text: String,
    /// The same moment in milliseconds since the epoch.
    pub millis: i64,
}

/// The line with which the monitor shows a received line: the moment it came,
/// the milliseconds since the line before it, filled with zeros to four
/// places, and the line itself, escaped.
pub open spec fn monitor_line(timestamp: Seq<char>, delta_ms: int, line: Seq<char>) -> Seq<char> {
    "["@ + timestamp + " "@ + padded(delta_ms, 4) + "ms] Rx: '"@ + escaped(line) + "'"@
}

/// One attempt to read a line, while it lasts: the bytes gathered so far.
pub struct Attempt {
    line: Vec<u8>,
    terminator_seen: bool,
}

impl View for Attempt {
    type V = Seq<u8>;

    closed spec fn view(&self) -> Seq<u8> {
        self.line@
    }
}

impl Attempt {
    #[verifier::type_invariant]
    spec fn flag_is_true_to_line(&self) -> bool {
        self.terminator_seen == has_terminator(self.line@)
    }

    /// The bytes gathered so far.
    pub fn as_bytes(&self) -> (bytes: &[u8])
        ensures
            bytes@ == self@,
    {
        self.line.as_slice()
    }
}

/// Where an attempt stands after a poll.
pub enum Poll {
    /// No verdict yet: the attempt goes on, with what it has gathered.
    Pending(Attempt),
    /// The attempt is over.
    Ready(Result<String, ReadError>),
}

/// Something that frames lines.
pub trait IReadSerial {
    /// Frames one line out of a recorded run of polls.
    fn read_serial_line(&self, ticks: &Vec<Tick>) -> Result<String, ReadError>;
}

/// The line framer, with the configuration it was made for.
#[derive(Debug, Clone, Copy, PartialEq, Eq)]
pub struct ReadSerial<'a> {
    /// The configuration file that names the port to read.
    pub config_file_name: &'a str,
    /// The time allowed for one line, in milliseconds; `None` for an attempt
    /// that only a terminator or the end of the polls brings to a close.
    pub timeout_ms: Option<u64>,
}

impl<'a> ReadSerial<'a> {
    /// A framer with the default timeout.
    pub fn new(config_file_name: &'a str) -> (framer: ReadSerial<'a>)
        ensures
            framer.config_file_name == config_file_name,
            framer.timeout_ms == Some(READ_TIMEOUT_MILLIS),
    {
        ReadSerial { config_file_name, timeout_ms: Some(READ_TIMEOUT_MILLIS) }
    }

    /// The same framer with another timeout, or with none.
    pub fn with_timeout(self, timeout_ms: Option<u64>) -> (framer: ReadSerial<'a>)
        ensures
            framer.config_file_name == self.config_file_name,
            framer.timeout_ms == timeout_ms,
    {
        ReadSerial { config_file_name: self.config_file_name, timeout_ms }
    }

    /// One turn of the monitor, on the outcome of an attempt that ended at
    /// `now`. A line is shown, and the clock `last_ms` moves on to that moment;
    /// a failed attempt shows nothing and leaves the clock alone.
    pub fn execute(
        &self,
        last_ms: &mut i64,
        outcome: &Result<String, ReadError>,
        now: &Stamp,
    ) -> (shown: Option<String>)
        ensures
            match outcome {
                Ok(line) => shown is Some && shown->0@ == monitor_line(
                    now.text@,
                    now.millis - *old(last_ms),
                    line@,
                ) && *final(last_ms) == now.millis,
                Err(_) => shown is None && *final(last_ms) == *old(last_ms),
            },
    {
        match outcome {
            Err(_) => None,
            Ok(line) => {
                let delta: i128 = now.millis as i128 - *last_ms as i128;
                *last_ms = now.millis;
                let escaped_line = escape_line(line.as_str());
                let mut shown = String::new();
                shown.append("[");
                shown.append(now.text.as_str());
                shown.append(" ");
                push_padded(&mut shown, delta, 4);
                shown.append("ms] Rx: '");
                shown.append(escaped_line.as_str());
                shown.append("'");
                assert(shown@ =~= monitor_line(now.text@, delta as int, line@));
                Some(shown)
            },
        }
    }

    /// Begins an attempt: nothing is gathered yet.
    pub fn begin(&self) -> (attempt: Attempt)
        ensures
            attempt@ == Seq::<u8>::empty(),
    {
        let attempt = Attempt { line: Vec::new(), terminator_seen: false };
        assert(!has_terminator(attempt.line@));
        attempt
    }

    /// Takes in what one poll delivered and says whether the attempt is over.
    /// All the bytes are gathered, also those behind a terminator.
    pub fn poll(&self, attempt: Attempt, bytes: &[u8], elapsed_ms: u64) -> (step: Poll)
        ensures
            match step {
                Poll::Pending(next) => next@ == attempt@ + bytes@ && tick_verdict(
                    self.timeout_ms,
                    attempt@ + bytes@,
                    elapsed_ms,
                ) is None,
                Poll::Ready(outcome) => Some(text_of(outcome)) == verdict_as_text(
                    tick_verdict(self.timeout_ms, attempt@ + bytes@, elapsed_ms),
                ),
            },
    {
        proof {
            use_type_invariant(&attempt);
        }
        let ghost start = attempt.line@;
        let mut line = attempt.line;
        let mut terminator_seen = attempt.terminator_seen;
        let mut i: usize = 0;
        while i < bytes.len()
            invariant
                i <= bytes.len(),
                line@ == start + bytes@.take(i as int),
                terminator_seen == has_terminator(line@),
            decreases bytes.len() - i,
        {
            let b = bytes[i];
            let ghost before = line@;
            line.push(b);
            if b == 0x0D || b == 0x0A {
                terminator_seen = true;
                assert(is_terminator(line@[before.len() as int]));
            }
            i += 1;
            proof {
                assert(bytes@.take(i as int) =~= bytes@.take(i - 1).push(b));
                assert(line@ =~= start + bytes@.take(i as int));
                if has_terminator(before) {
                    let k = choose|k: int| 0 <= k < before.len() && is_terminator(before[k]);
                    assert(is_terminator(line@[k]));
                }
                if has_terminator(line@) && !is_terminator(b) {
                    let k = choose|k: int| 0 <= k < line@.len() && is_terminator(line@[k]);
                    assert(is_terminator(before[k]));
                }
            }
        }
        assert(bytes@.take(i as int) =~= bytes@);
        let late = match self.timeout_ms {
            Some(limit) => elapsed_ms >= limit,
            None => false,
        };
        if late {
            Poll::Ready(Err(ReadError::Timeout))
        } else if terminator_seen {
            Poll::Ready(Ok(decode_bytes(line.as_slice())))
        } else {
            Poll::Pending(Attempt { line, terminator_seen })
        }
    }

    /// Ends an attempt whose polls have stopped without a verdict.
    pub fn close(&self, attempt: Attempt) -> (outcome: Result<String, ReadError>)
        ensures
            text_of(outcome) == as_text(closing_verdict(self.timeout_ms, attempt@)),
    {
        if self.timeout_ms.is_some() {
            Err(ReadError::Timeout)
        } else if attempt.line.len() == 0 {
            Err(ReadError::NoResponse)
        } else {
            Ok(decode_bytes(attempt.line.as_slice()))
        }
    }
}

impl<'a> IReadSerial for ReadSerial<'a> {
    /// Frames one line out of a recorded run of polls: the polls are taken in
    /// order until one gives a verdict, and the attempt is closed where none does.
    fn read_serial_line(&self, ticks: &Vec<Tick>) -> (outcome: Result<String, ReadError>)
        ensures
            text_of(outcome) == as_text(framed(self.timeout_ms, Seq::empty(), script(ticks@))),
    {
        let mut attempt = self.begin();
        let ghost all = script(ticks@);
        let mut i: usize = 0;
        assert(all.skip(0) =~= all);
        while i < ticks.len()
            invariant
                i <= ticks.len(),
                all == script(ticks@),
                framed(self.timeout_ms, Seq::empty(), all) == framed(
                    self.timeout_ms,
                    attempt@,
                    all.skip(i as int),
                ),
            decreases ticks.len() - i,
        {
            let ghost rest = all.skip(i as int);
            assert(rest[0] == ticks@[i as int]@);
            assert(rest.drop_first() =~= all.skip(i + 1));
            match self.poll(attempt, ticks[i].bytes.as_slice(), ticks[i].elapsed_ms) {
                Poll::Ready(outcome) => {
                    return outcome;
                },
                Poll::Pending(next) => {
                    attempt = next;
                },
            }
            i += 1;
        }
        assert(all.skip(i as int).len() == 0);
        self.close(attempt)
    }
}

} // verus!
