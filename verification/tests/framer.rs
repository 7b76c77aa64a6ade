use std::time::{Duration, Instant};

use serial_terminal::factory::Factory;
use serial_terminal::input_output::read_serial::{
    IReadSerial, Poll, ReadError, ReadSerial, Stamp, Tick, READ_TIMEOUT_MILLIS,
    READ_TIMEOUT_SECONDS, SCRATCH_LEN,
};
use serial_terminal::read_serial::{contains_terminator, ReadSerial as PlainMonitor};

fn tick(bytes: &[u8], elapsed_ms: u64) -> Tick {
    Tick { bytes: bytes.to_vec(), elapsed_ms }
}

fn silence(until_ms: u64, step_ms: u64) -> Vec<Tick> {
    let mut ticks = Vec::new();
    let mut at = 0;
    while at <= until_ms {
        ticks.push(tick(b"", at));
        at += step_ms;
    }
    ticks
}

#[test]
fn should_give_timeout_error_when_no_response() {
    let read_serial = ReadSerial::new("foobar");
    let serial_port_spy = silence(READ_TIMEOUT_MILLIS, 1);

    let result = read_serial.read_serial_line(&serial_port_spy);
    assert_eq!(Err(ReadError::Timeout), result);
}

#[test]
fn constants_are_the_documented_ones() {
    assert_eq!(5, READ_TIMEOUT_SECONDS);
    assert_eq!(READ_TIMEOUT_SECONDS * 1000, READ_TIMEOUT_MILLIS);
    assert_eq!(256, SCRATCH_LEN);
}

#[test]
fn new_framer_has_the_default_timeout() {
    let framer = ReadSerial::new("port.toml");
    assert_eq!("port.toml", framer.config_file_name);
    assert_eq!(Some(5000), framer.timeout_ms);
    assert_eq!(framer, Factory::create_read_serial("port.toml"));
    let plain = framer.with_timeout(None);
    assert_eq!("port.toml", plain.config_file_name);
    assert_eq!(None, plain.timeout_ms);
    assert_eq!(Some(250), framer.with_timeout(Some(250)).timeout_ms);
}

#[test]
fn stream_without_terminator_times_out() {
    let framer = ReadSerial::new("foobar");
    let ticks = vec![tick(b"abc", 10), tick(b"", 2000), tick(b"def", 4999), tick(b"", 5000)];
    assert_eq!(Err(ReadError::Timeout), framer.read_serial_line(&ticks));
    // A script that ends before the deadline runs into it in silence.
    let ticks = vec![tick(b"abc", 10), tick(b"def", 20)];
    assert_eq!(Err(ReadError::Timeout), framer.read_serial_line(&ticks));
    // What comes after the deadline does not count.
    let ticks = vec![tick(b"abc", 10), tick(b"", 6000), tick(b"\n", 6001)];
    assert_eq!(Err(ReadError::Timeout), framer.read_serial_line(&ticks));
}

#[test]
fn silent_stream_times_out_or_gives_no_response() {
    let ticks = silence(6000, 500);
    let framer = ReadSerial::new("foobar");
    assert_eq!(Err(ReadError::Timeout), framer.read_serial_line(&ticks));
    let plain = framer.with_timeout(None);
    assert_eq!(Err(ReadError::NoResponse), plain.read_serial_line(&ticks));
    assert_eq!(Err(ReadError::NoResponse), plain.read_serial_line(&Vec::new()));
    assert_eq!(Err(ReadError::Timeout), framer.read_serial_line(&Vec::new()));
}

#[test]
fn line_is_everything_up_to_the_first_terminated_poll() {
    let ticks = vec![
        tick(b"AB", 1),
        tick(b"", 2),
        tick(b"C\rD", 3),
        tick(b"E\n", 4),
    ];
    let framer = ReadSerial::new("foobar");
    assert_eq!(Ok(String::from("ABC\rD")), framer.read_serial_line(&ticks));
    let plain = framer.with_timeout(None);
    assert_eq!(Ok(String::from("ABC\rD")), plain.read_serial_line(&ticks));
}

#[test]
fn ok_then_silence_gives_the_line_before_the_deadline() {
    let framer = ReadSerial::new("foobar");
    let mut ticks = vec![tick(b"OK\r", 3)];
    ticks.extend(silence(6000, 100));
    assert_eq!(Ok(String::from("OK\r")), framer.read_serial_line(&ticks));

    let attempt = framer.begin();
    match framer.poll(attempt, b"OK\r", 3) {
        Poll::Ready(outcome) => assert_eq!(Ok(String::from("OK\r")), outcome),
        Poll::Pending(_) => panic!("the line was complete"),
    }
}

#[test]
fn never_a_byte_times_out_at_the_deadline() {
    let framer = ReadSerial::new("foobar");
    let mut attempt = framer.begin();
    let mut elapsed = 0;
    while elapsed < 5000 {
        attempt = match framer.poll(attempt, b"", elapsed) {
            Poll::Pending(next) => next,
            Poll::Ready(outcome) => panic!("over at {} ms with {:?}", elapsed, outcome),
        };
        elapsed += 1;
    }
    match framer.poll(attempt, b"", 5000) {
        Poll::Ready(outcome) => assert_eq!(Err(ReadError::Timeout), outcome),
        Poll::Pending(_) => panic!("the deadline had passed"),
    }
}

#[test]
fn never_a_byte_times_out_on_a_real_clock() {
    let framer = ReadSerial::new("foobar");
    let scratch = [0u8; SCRATCH_LEN];
    let start = Instant::now();
    let mut attempt = framer.begin();
    let outcome = loop {
        let bytes_read = 0;
        let elapsed = start.elapsed().as_millis() as u64;
        match framer.poll(attempt, &scratch[..bytes_read], elapsed) {
            Poll::Ready(outcome) => break outcome,
            Poll::Pending(next) => attempt = next,
        }
    };
    let took = start.elapsed();
    assert_eq!(Err(ReadError::Timeout), outcome);
    assert!(took >= Duration::from_secs(5));
    assert!(took < Duration::from_millis(5200));
}

#[test]
fn terminator_at_the_deadline_is_lost_to_the_timeout() {
    let framer = ReadSerial::new("foobar");
    let ticks = vec![tick(b"late\n", 5000)];
    assert_eq!(Err(ReadError::Timeout), framer.read_serial_line(&ticks));
    let ticks = vec![tick(b"late\n", 4999)];
    assert_eq!(Ok(String::from("late\n")), framer.read_serial_line(&ticks));
    let ticks = vec![tick(b"la", 4000), tick(b"te\n", 7000)];
    assert_eq!(Err(ReadError::Timeout), framer.read_serial_line(&ticks));
}

#[test]
fn without_timeout_only_a_terminator_or_the_end_closes() {
    let plain = ReadSerial::new("foobar").with_timeout(None);
    let ticks = vec![tick(b"abc", 10), tick(b"", u64::MAX), tick(b"def", u64::MAX)];
    assert_eq!(Ok(String::from("abcdef")), plain.read_serial_line(&ticks));
    let ticks = vec![tick(b"", 10), tick(b"x\r", 1_000_000), tick(b"y", 1_000_001)];
    assert_eq!(Ok(String::from("x\r")), plain.read_serial_line(&ticks));
}

#[test]
fn poll_gathers_and_close_reports() {
    let framer = ReadSerial::new("foobar");
    let attempt = framer.begin();
    assert_eq!(0, attempt.as_bytes().len());
    let attempt = match framer.poll(attempt, b"ab", 1) {
        Poll::Pending(next) => next,
        Poll::Ready(_) => panic!("no terminator yet"),
    };
    let attempt = match framer.poll(attempt, b"cd", 2) {
        Poll::Pending(next) => next,
        Poll::Ready(_) => panic!("no terminator yet"),
    };
    assert_eq!(b"abcd", attempt.as_bytes());
    assert_eq!(Err(ReadError::Timeout), framer.close(attempt));

    let plain = framer.with_timeout(None);
    let attempt = match plain.poll(plain.begin(), b"ab", 1) {
        Poll::Pending(next) => next,
        Poll::Ready(_) => panic!("no terminator yet"),
    };
    assert_eq!(Ok(String::from("ab")), plain.close(attempt));
    assert_eq!(Err(ReadError::NoResponse), plain.close(plain.begin()));
}

#[test]
fn bytes_become_characters_one_for_one() {
    let framer = ReadSerial::new("foobar");
    let ticks = vec![tick(&[0x00, 0x7F, 0x80, 0xE9, 0xFF, 0x0A], 1)];
    let line = framer.read_serial_line(&ticks).unwrap();
    let chars: Vec<char> = line.chars().collect();
    assert_eq!(vec!['\u{0}', '\u{7f}', '\u{80}', '\u{e9}', '\u{ff}', '\n'], chars);
}

#[test]
fn a_line_keeps_its_terminators_and_what_follows_in_the_same_poll() {
    let framer = ReadSerial::new("foobar");
    let ticks = vec![tick(b"a\r\nb\nc", 1), tick(b"never", 2)];
    assert_eq!(Ok(String::from("a\r\nb\nc")), framer.read_serial_line(&ticks));
}

#[test]
fn monitor_shows_lines_with_the_time_between_them() {
    let framer = ReadSerial::new("foobar");
    let mut last_ms: i64 = 1_000;
    let now = Stamp { text: String::from("2024-01-02 03:04:05"), millis: 1_012 };
    let shown = framer.execute(&mut last_ms, &Ok(String::from("OK\r\n")), &now);
    assert_eq!(Some(String::from("[2024-01-02 03:04:05 0012ms] Rx: 'OK\\r\\n'")), shown);
    assert_eq!(1_012, last_ms);

    let now = Stamp { text: String::from("2024-01-02 03:04:06"), millis: 13_357 };
    let shown = framer.execute(&mut last_ms, &Ok(String::from("a\nb")), &now);
    assert_eq!(Some(String::from("[2024-01-02 03:04:06 12345ms] Rx: 'a\\nb'")), shown);
    assert_eq!(13_357, last_ms);

    let now = Stamp { text: String::from("t"), millis: 13_352 };
    let shown = framer.execute(&mut last_ms, &Ok(String::from("x")), &now);
    assert_eq!(Some(String::from("[t -005ms] Rx: 'x'")), shown);
    assert_eq!(13_352, last_ms);
}

#[test]
fn monitor_ignores_failed_attempts() {
    let framer = ReadSerial::new("foobar");
    let mut last_ms: i64 = 77;
    let now = Stamp { text: String::from("t"), millis: 99 };
    assert_eq!(None, framer.execute(&mut last_ms, &Err(ReadError::Timeout), &now));
    assert_eq!(None, framer.execute(&mut last_ms, &Err(ReadError::NoResponse), &now));
    assert_eq!(77, last_ms);
}

#[test]
fn monitor_delta_cannot_overflow() {
    let framer = ReadSerial::new("foobar");
    let mut last_ms: i64 = i64::MIN;
    let now = Stamp { text: String::from("t"), millis: i64::MAX };
    let shown = framer.execute(&mut last_ms, &Ok(String::from("x")), &now);
    assert_eq!(Some(String::from("[t 18446744073709551615ms] Rx: 'x'")), shown);
    let mut last_ms: i64 = i64::MAX;
    let now = Stamp { text: String::from("t"), millis: i64::MIN };
    let shown = framer.execute(&mut last_ms, &Ok(String::from("x")), &now);
    assert_eq!(Some(String::from("[t -18446744073709551615ms] Rx: 'x'")), shown);
}

#[test]
fn plain_monitor_gathers_until_a_terminator() {
    let monitor = PlainMonitor::new();
    let mut pending = String::new();
    assert_eq!(None, monitor.execute(&mut pending, b"", "t0"));
    assert_eq!(None, monitor.execute(&mut pending, b"AB", "t1"));
    assert_eq!("AB", pending);
    assert_eq!(None, monitor.execute(&mut pending, b"C", "t2"));
    assert_eq!("ABC", pending);
    let shown = monitor.execute(&mut pending, b"D\r\nE", "2024-01-02 03:04:05");
    assert_eq!(Some(String::from("[2024-01-02 03:04:05] Rx: 'ABCD\\r\\nE'")), shown);
    assert_eq!("", pending);
    assert_eq!(None, monitor.execute(&mut pending, &[0xE9], "t3"));
    assert_eq!("\u{e9}", pending);
}

#[test]
fn terminators_are_found_among_bytes() {
    assert!(!contains_terminator(b""));
    assert!(!contains_terminator(b"abc"));
    assert!(contains_terminator(b"abc\r"));
    assert!(contains_terminator(b"\nabc"));
    assert!(contains_terminator(b"a\nb"));
    assert!(!contains_terminator(&[0x0B, 0x0C, 0x0E, 0x09]));
}
