//! Decimal numerals: writing a number out, and reading one back.

use vstd::prelude::*;
use crate::text::push_char;

verus! {

/// The digit character for a value below ten.
pub open spec fn digit_char(d: nat) -> char {
    (48 + d) as char
}

/// The decimal numeral of `n`, most significant digit first, without leading zeros.
pub open spec fn digits(n: nat) -> Seq<char>
    decreases n,
{
    if n < 10 {
        seq![digit_char(n)]
    } else {
        digits(n / 10).push(digit_char(n % 10))
    }
}

/// A run of `n` zero digits.
pub open spec fn zeros(n: nat) -> Seq<char> {
    Seq::new(n, |i: int| '0')
}

/// `d` with zeros put in front until it is `width` long; `d` itself where it is that long already.
pub open spec fn zero_filled(d: Seq<char>, width: nat) -> Seq<char> {
    if d.len() >= width {
        d
    } else {
        zeros((width - d.len()) as nat) + d
    }
}

/// The numeral of `v` filled with zeros to `width` characters, the minus sign
/// of a negative number counted in the width and standing before the zeros.
pub open spec fn padded(v: int, width: nat) -> Seq<char> {
    if v < 0 {
        seq!['-'] + zero_filled(digits((-v) as nat), if width > 0 { (width - 1) as nat } else { 0 })
    } else {
        zero_filled(digits(v as nat), width)
    }
}

pub open spec fn is_digit(c: char) -> bool {
    '0' <= c && c <= '9'
}

pub open spec fn all_digits(s: Seq<char>) -> bool {
    forall|i: int| 0 <= i < s.len() ==> is_digit(#[trigger] s[i])
}

/// The value of a digit character.
pub open spec fn digit_value(c: char) -> nat {
    (c as nat - 48) as nat
}

/// The number that a run of digits writes in base ten.
pub open spec fn numeral_value(s: Seq<char>) -> nat
    decreases s.len(),
{
    if s.len() == 0 {
        0
    } else {
        numeral_value(s.drop_last()) * 10 + digit_value(s.last())
    }
}

/// A numeral without the plus sign that may stand before it.
pub open spec fn unsigned_part(s: Seq<char>) -> Seq<char> {
    if s.len() > 0 && s[0] == '+' {
        s.drop_first()
    } else {
        s
    }
}

/// What a text is as an unsigned 64-bit number: an optional plus sign, then one
/// or more decimal digits and nothing else, the value within range. Any other
/// text is no number.
pub open spec fn parsed_u64(s: Seq<char>) -> Option<u64> {
    let body = unsigned_part(s);
    if body.len() > 0 && all_digits(body) && numeral_value(body) <= u64::MAX {
        Some(numeral_value(body) as u64)
    } else {
        None
    }
}

/// Appends the decimal numeral of `n`.
pub fn push_decimal(out: &mut String, n: u128)
    ensures
        final(out)@ == old(out)@ + digits(n as nat),
    decreases n,
{
    if n >= 10 {
        push_decimal(out, n / 10);
    }
    let d: u8 = (n % 10) as u8;
    push_char(out, (48 + d) as char);
    assert(final(out)@ =~= old(out)@ + digits(n as nat));
}

/// The decimal numeral of `n`.
pub fn decimal(n: u64) -> (out: String)
    ensures
        out@ == digits(n as nat),
{
    let mut out = String::new();
    push_decimal(&mut out, n as u128);
    assert(out@ =~= digits(n as nat));
    out
}

/// The size of a number without its sign.
pub fn magnitude(v: i128) -> (m: u128)
    ensures
        m == if v < 0 { -v } else { v as int },
{
    if v < 0 {
        (-(v + 1)) as u128 + 1
    } else {
        v as u128
    }
}

/// Appends `v` filled with zeros to `width` characters, sign included.
pub fn push_padded(out: &mut String, v: i128, width: usize)
    ensures
        final(out)@ == old(out)@ + padded(v as int, width as nat),
{
    let size = magnitude(v);
    let mut numeral = String::new();
    push_decimal(&mut numeral, size);
    assert(numeral@ =~= digits(size as nat));
    let len = numeral.as_str().unicode_len();
    let mut room: usize = width;
    if v < 0 {
        push_char(out, '-');
        room = if width > 0 { width - 1 } else { 0 };
    }
    let ghost before = out@;
    let mut filled: usize = len;
    while filled < room
        invariant
            len <= filled,
            filled <= room || filled == len,
            out@ == before + zeros((filled - len) as nat),
        decreases room - filled,
    {
        push_char(out, '0');
        filled += 1;
        assert(zeros((filled - len) as nat) =~= zeros((filled - 1 - len) as nat).push('0'));
    }
    out.append(numeral.as_str());
    proof {
        let fill = zero_filled(numeral@, room as nat);
        if len >= room {
            assert(filled == len);
            assert(zeros(0) =~= Seq::<char>::empty());
            assert(fill == numeral@);
        } else {
            assert(filled == room);
        }
        assert(out@ =~= before + fill);
        if v < 0 {
            assert(before =~= old(out)@ + seq!['-']);
            assert(out@ =~= old(out)@ + (seq!['-'] + fill));
            assert(padded(v as int, width as nat) == seq!['-'] + fill);
        } else {
            assert(before == old(out)@);
            assert(padded(v as int, width as nat) == fill);
        }
    }
}

/// A numeral that was written out reads back as the number it was written for.
pub proof fn lemma_digits_read_back(n: nat)
    ensures
        digits(n).len() > 0,
        all_digits(digits(n)),
        numeral_value(digits(n)) == n,
        n <= u64::MAX ==> parsed_u64(digits(n)) == Some(n as u64),
    decreases n,
{
    if n < 10 {
        let d = digits(n);
        assert(d.len() == 1 && d[0] == digit_char(n));
        assert(d.drop_last() =~= Seq::<char>::empty());
        assert(numeral_value(d.drop_last()) == 0);
        assert(digit_value(d.last()) == n);
    } else {
        lemma_digits_read_back(n / 10);
        let head = digits(n / 10);
        let d = digits(n);
        assert(d.drop_last() =~= head);
        assert(d.last() == digit_char(n % 10));
        assert(digit_value(d.last()) == n % 10);
        assert forall|i: int| 0 <= i < d.len() implies is_digit(#[trigger] d[i]) by {
            if i < head.len() {
                assert(d[i] == head[i]);
            }
        }
    }
    assert(is_digit(digits(n)[0]));
    assert(unsigned_part(digits(n)) == digits(n));
}

/// The numeral of a prefix is never worth more than the whole numeral.
pub proof fn lemma_numeral_grows(s: Seq<char>, k: int)
    requires
        0 <= k <= s.len(),
    ensures
        numeral_value(s.take(k)) <= numeral_value(s),
    decreases s.len() - k,
{
    if k < s.len() {
        lemma_numeral_grows(s, k + 1);
        assert(s.take(k + 1).drop_last() =~= s.take(k));
    } else {
        assert(s.take(k) =~= s);
    }
}

/// Reads an unsigned number: `Some` for an optional plus sign followed by
/// decimal digits that fit in 64 bits, `None` for every other text.
pub fn parse_u64(token: &str) -> (value: Option<u64>)
    ensures
        value == parsed_u64(token@),
{
    let chars = crate::text::chars_of(token);
    let n = chars.len();
    let start: usize = if n > 0 && chars[0] == '+' { 1 } else { 0 };
    let ghost body = unsigned_part(token@);
    assert(body =~= token@.skip(start as int));
    if start == n {
        return None;
    }
    let mut value: u64 = 0;
    let mut i: usize = start;
    while i < n
        invariant
            start <= i <= n,
            n == chars@.len(),
            chars@ == token@,
            body == unsigned_part(token@),
            body == token@.skip(start as int),
            all_digits(body.take(i - start)),
            value == numeral_value(body.take(i - start)),
        decreases n - i,
    {
        let c = chars[i];
        let ghost next = body.take(i + 1 - start);
        assert(next.drop_last() =~= body.take(i - start));
        assert(body[i - start] == c);
        assert(next.last() == c);
        if c < '0' || c > '9' {
            assert(!is_digit(body[i - start]));
            return None;
        }
        let d: u64 = (c as u32 - 48) as u64;
        assert(d == digit_value(c));
        assert(numeral_value(next) == value * 10 + d);
        if value > (u64::MAX - d) / 10 {
            proof {
                lemma_numeral_grows(body, i + 1 - start);
            }
            return None;
        }
        value = value * 10 + d;
        i += 1;
        assert forall|j: int| 0 <= j < next.len() implies is_digit(#[trigger] next[j]) by {
            if j < next.len() - 1 {
                assert(next[j] == body.take(i - 1 - start)[j]);
            }
        }
    }
    assert(body.take(n - start) =~= body);
    Some(value)
}

} // verus!
