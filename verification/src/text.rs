//! Text primitives shared by the framer and the dispatcher: decoding bytes,
//! escaping for display, splitting into fragments.

use vstd::prelude::*;

verus! {

/// The character that stands for a byte: the one with the byte's value as its code point.
pub open spec fn byte_char(b: u8) -> char {
    b as char
}

/// The text that a run of bytes stands for, one character for each byte.
pub open spec fn decoded(bytes: Seq<u8>) -> Seq<char> {
    Seq::new(bytes.len(), |i: int| byte_char(bytes[i]))
}

/// `s` with every occurrence of the character `from` replaced by the text `to`.
pub open spec fn replaced(s: Seq<char>, from: char, to: Seq<char>) -> Seq<char>
    decreases s.len(),
{
    if s.len() == 0 {
        s
    } else if s.last() == from {
        replaced(s.drop_last(), from, to) + to
    } else {
        replaced(s.drop_last(), from, to).push(s.last())
    }
}

/// The two characters that display a line feed.
pub open spec fn shown_line_feed() -> Seq<char> {
    seq!['\\', 'n']
}

/// The two characters that display a carriage return.
pub open spec fn shown_carriage_return() -> Seq<char> {
    seq!['\\', 'r']
}

/// A line as the monitor displays it: line feeds first, then carriage returns,
/// each replaced by a backslash and a letter.
pub open spec fn escaped(s: Seq<char>) -> Seq<char> {
    replaced(replaced(s, '\n', shown_line_feed()), '\r', shown_carriage_return())
}

/// The piece of `s` behind its last separator: all of `s` where it has none.
pub open spec fn open_piece(s: Seq<char>, sep: char) -> Seq<char>
    decreases s.len(),
{
    if s.len() == 0 || s.last() == sep {
        Seq::empty()
    } else {
        open_piece(s.drop_last(), sep).push(s.last())
    }
}

/// The pieces of `s` that a separator closes, in order, the empty ones left out.
pub open spec fn closed_pieces(s: Seq<char>, sep: char) -> Seq<Seq<char>>
    decreases s.len(),
{
    if s.len() == 0 {
        Seq::empty()
    } else if s.last() == sep && open_piece(s.drop_last(), sep).len() > 0 {
        closed_pieces(s.drop_last(), sep).push(open_piece(s.drop_last(), sep))
    } else {
        closed_pieces(s.drop_last(), sep)
    }
}

/// The pieces into which the separator cuts `s`, in order, the empty ones left out.
pub open spec fn fragments(s: Seq<char>, sep: char) -> Seq<Seq<char>> {
    if open_piece(s, sep).len() > 0 {
        closed_pieces(s, sep).push(open_piece(s, sep))
    } else {
        closed_pieces(s, sep)
    }
}

/// What a list of strings holds, as texts.
pub open spec fn texts(list: Seq<String>) -> Seq<Seq<char>> {
    list.map_values(|s: String| s@)
}

/// White space: the characters with the Unicode property `White_Space`.
pub open spec fn is_whitespace(c: char) -> bool {
    let u = c as u32;
    ||| 0x09 <= u <= 0x0D
    ||| u == 0x20
    ||| u == 0x85
    ||| u == 0xA0
    ||| u == 0x1680
    ||| 0x2000 <= u <= 0x200A
    ||| u == 0x2028
    ||| u == 0x2029
    ||| u == 0x202F
    ||| u == 0x205F
    ||| u == 0x3000
}

/// `s` without the white space at its end.
pub open spec fn trimmed_end(s: Seq<char>) -> Seq<char>
    decreases s.len(),
{
    if s.len() > 0 && is_whitespace(s.last()) {
        trimmed_end(s.drop_last())
    } else {
        s
    }
}

/// The longest run at the end of `s` that holds no white space.
pub open spec fn closing_run(s: Seq<char>) -> Seq<char>
    decreases s.len(),
{
    if s.len() > 0 && !is_whitespace(s.last()) {
        closing_run(s.drop_last()).push(s.last())
    } else {
        Seq::empty()
    }
}

/// The last of the tokens that white space separates in `s`; empty where `s` holds no token.
pub open spec fn last_token(s: Seq<char>) -> Seq<char> {
    closing_run(trimmed_end(s))
}

/// The upper-case form of a text, as `str::to_uppercase` gives it.
pub uninterp spec fn uppercase(s: Seq<char>) -> Seq<char>;

/// The lower-case form of a text, as `str::to_lowercase` gives it.
pub uninterp spec fn lowercase(s: Seq<char>) -> Seq<char>;

/// `String::push` of std: the character is added at the end, and nothing else changes.
#[verifier::external_body]
pub(crate) fn push_char(s: &mut String, c: char)
    ensures
        final(s)@ == old(s)@.push(c),
{
    s.push(c)
}

/// An owned copy of a text.
pub fn owned(s: &str) -> (copy: String)
    ensures
        copy@ == s@,
{
    let mut copy = String::new();
    copy.append(s);
    assert(copy@ =~= s@);
    copy
}

/// A text between a prefix and a closing quote.
pub fn quoted(prefix: &str, text: &str) -> (line: String)
    ensures
        line@ == prefix@ + text@ + "'"@,
{
    let mut line = String::new();
    line.append(prefix);
    line.append(text);
    line.append("'");
    assert(line@ =~= prefix@ + text@ + "'"@);
    line
}

/// The characters of a text, in order.
pub fn chars_of(s: &str) -> (chars: Vec<char>)
    ensures
        chars@ == s@,
{
    let mut chars: Vec<char> = Vec::new();
    for c in it: s.chars()
        invariant
            it.seq() == s@,
            chars@ == s@.take(it.index() as int),
    {
        chars.push(c);
        assert(s@.take(it.index() + 1) =~= s@.take(it.index() as int).push(c));
    }
    assert(s@.take(s@.len() as int) =~= s@);
    chars
}

/// Decodes bytes one for one into characters, with no multi-byte decoding.
pub fn decode_bytes(bytes: &[u8]) -> (text: String)
    ensures
        text@ == decoded(bytes@),
{
    let mut text = String::new();
    let mut i: usize = 0;
    while i < bytes.len()
        invariant
            i <= bytes.len(),
            text@ == decoded(bytes@.take(i as int)),
        decreases bytes.len() - i,
    {
        push_char(&mut text, bytes[i] as char);
        i += 1;
        assert(decoded(bytes@.take(i as int)) =~= decoded(bytes@.take(i - 1)).push(
            byte_char(bytes[i - 1]),
        ));
    }
    assert(bytes@.take(i as int) =~= bytes@);
    text
}

/// Replaces every occurrence of one character by a text.
pub fn replace_char(s: &str, from: char, to: &str) -> (out: String)
    ensures
        out@ == replaced(s@, from, to@),
{
    let mut out = String::new();
    for c in it: s.chars()
        invariant
            it.seq() == s@,
            out@ == replaced(s@.take(it.index() as int), from, to@),
    {
        proof {
            let k = it.index() as int;
            assert(s@.take(k + 1).drop_last() =~= s@.take(k));
        }
        if c == from {
            out.append(to);
        } else {
            push_char(&mut out, c);
        }
    }
    assert(s@.take(s@.len() as int) =~= s@);
    out
}

/// Escapes a line for the monitor's display: a line feed becomes `\n` written out,
/// a carriage return `\r` written out.
pub fn escape_line(line: &str) -> (out: String)
    ensures
        out@ == escaped(line@),
{
    proof {
        reveal_strlit("\\n");
        reveal_strlit("\\r");
        assert("\\n"@ =~= shown_line_feed());
        assert("\\r"@ =~= shown_carriage_return());
    }
    let first = replace_char(line, '\n', "\\n");
    replace_char(first.as_str(), '\r', "\\r")
}

/// `str::to_uppercase` of std: the upper-case form of the whole text by the
/// Unicode case mappings, which depends on the text alone.
#[verifier::external_body]
pub(crate) fn to_upper(s: &str) -> (upper: String)
    ensures
        upper@ == uppercase(s@),
{
    s.to_uppercase()
}

/// `str::to_lowercase` of std: the lower-case form of the whole text by the
/// Unicode case mappings, which depends on the text alone.
#[verifier::external_body]
pub(crate) fn to_lower(s: &str) -> (lower: String)
    ensures
        lower@ == lowercase(s@),
{
    s.to_lowercase()
}

/// Cuts a text at every separator and hands out the pieces that are not empty.
pub fn split_fragments(s: &str, sep: char) -> (list: Vec<String>)
    ensures
        texts(list@) == fragments(s@, sep),
{
    let mut list: Vec<String> = Vec::new();
    let mut piece = String::new();
    for c in it: s.chars()
        invariant
            it.seq() == s@,
            texts(list@) == closed_pieces(s@.take(it.index() as int), sep),
            piece@ == open_piece(s@.take(it.index() as int), sep),
    {
        proof {
            let k = it.index() as int;
            assert(s@.take(k + 1).drop_last() =~= s@.take(k));
        }
        if c == sep {
            if !piece.as_str().is_empty() {
                let ghost before = list@;
                list.push(piece);
                assert(texts(list@) =~= texts(before).push(piece@));
            }
            piece = String::new();
        } else {
            push_char(&mut piece, c);
        }
    }
    assert(s@.take(s@.len() as int) =~= s@);
    if !piece.as_str().is_empty() {
        let ghost before = list@;
        list.push(piece);
        assert(texts(list@) =~= texts(before).push(piece@));
    }
    list
}

/// Whether a character is white space.
pub fn char_is_whitespace(c: char) -> (b: bool)
    ensures
        b == is_whitespace(c),
{
    let u: u32 = c as u32;
    (0x09 <= u && u <= 0x0D) || u == 0x20 || u == 0x85 || u == 0xA0 || u == 0x1680 || (0x2000
        <= u && u <= 0x200A) || u == 0x2028 || u == 0x2029 || u == 0x202F || u == 0x205F || u
        == 0x3000
}

/// The last of the tokens that white space separates; empty where there is none.
pub fn final_token(s: &str) -> (token: String)
    ensures
        token@ == last_token(s@),
{
    let chars = chars_of(s);
    let mut end: usize = chars.len();
    assert(chars@.take(end as int) =~= chars@);
    while end > 0 && char_is_whitespace(chars[end - 1])
        invariant
            end <= chars.len(),
            trimmed_end(chars@) == trimmed_end(chars@.take(end as int)),
        decreases end,
    {
        assert(chars@.take(end as int).drop_last() =~= chars@.take(end - 1));
        end -= 1;
    }
    let ghost body = chars@.take(end as int);
    assert(trimmed_end(chars@) == body);
    let mut start: usize = end;
    assert(body.take(start as int) =~= body);
    assert(closing_run(body) + body.skip(start as int) =~= closing_run(body));
    while start > 0 && !char_is_whitespace(chars[start - 1])
        invariant
            start <= end <= chars.len(),
            body == chars@.take(end as int),
            closing_run(body) == closing_run(body.take(start as int)) + body.skip(start as int),
        decreases start,
    {
        proof {
            let shorter = body.take(start as int);
            assert(shorter.drop_last() =~= body.take(start - 1));
            assert(closing_run(shorter) == closing_run(body.take(start - 1)).push(
                body[start - 1],
            ));
            assert(closing_run(body.take(start - 1)).push(body[start - 1]) + body.skip(
                start as int,
            ) =~= closing_run(body.take(start - 1)) + body.skip(start - 1));
        }
        start -= 1;
    }
    assert(closing_run(body.take(start as int)) =~= Seq::<char>::empty());
    let mut token = String::new();
    let mut i: usize = start;
    while i < end
        invariant
            start <= i <= end <= chars.len(),
            body == chars@.take(end as int),
            token@ == body.subrange(start as int, i as int),
        decreases end - i,
    {
        push_char(&mut token, chars[i]);
        i += 1;
        assert(body.subrange(start as int, i as int) =~= body.subrange(start as int, i - 1).push(
            body[i - 1],
        ));
    }
    assert(body.subrange(start as int, end as int) =~= body.skip(start as int));
    assert(Seq::<char>::empty() + body.skip(start as int) =~= body.skip(start as int));
    token
}

/// The piece behind the last separator holds no separator.
pub proof fn lemma_open_piece_clean(s: Seq<char>, sep: char)
    ensures
        !open_piece(s, sep).contains(sep),
        !s.contains(sep) ==> open_piece(s, sep) == s,
    decreases s.len(),
{
    if s.len() > 0 && s.last() != sep {
        let head = open_piece(s.drop_last(), sep);
        lemma_open_piece_clean(s.drop_last(), sep);
        if head.push(s.last()).contains(sep) {
            let i = choose|i: int| 0 <= i < head.len() + 1 && head.push(s.last())[i] == sep;
            assert(head[i] == sep);
        }
        if !s.contains(sep) {
            if s.drop_last().contains(sep) {
                let i = choose|i: int| 0 <= i < s.len() - 1 && s.drop_last()[i] == sep;
                assert(s[i] == sep);
            }
            assert(s.drop_last().push(s.last()) =~= s);
        }
    } else if s.len() > 0 {
        assert(s[s.len() - 1] == sep);
    }
}

/// Every fragment holds at least one character, and none holds the separator.
pub proof fn lemma_fragments_shape(s: Seq<char>, sep: char)
    ensures
        forall|i: int|
            0 <= i < fragments(s, sep).len() ==> (#[trigger] fragments(s, sep)[i]).len() > 0
                && !fragments(s, sep)[i].contains(sep),
{
    lemma_closed_pieces_shape(s, sep);
    lemma_open_piece_clean(s, sep);
}

proof fn lemma_closed_pieces_shape(s: Seq<char>, sep: char)
    ensures
        forall|i: int|
            0 <= i < closed_pieces(s, sep).len() ==> (#[trigger] closed_pieces(s, sep)[i]).len()
                > 0 && !closed_pieces(s, sep)[i].contains(sep),
    decreases s.len(),
{
    if s.len() > 0 {
        lemma_closed_pieces_shape(s.drop_last(), sep);
        lemma_open_piece_clean(s.drop_last(), sep);
        let head = closed_pieces(s.drop_last(), sep);
        let all = closed_pieces(s, sep);
        assert forall|i: int| 0 <= i < all.len() implies (#[trigger] all[i]).len() > 0
            && !all[i].contains(sep) by {
            if i < head.len() {
                assert(all[i] == head[i]);
            }
        }
    }
}

/// A text that holds no separator is its own single fragment, or no fragment where it is empty.
pub proof fn lemma_fragments_whole(s: Seq<char>, sep: char)
    requires
        !s.contains(sep),
    ensures
        fragments(s, sep) == if s.len() > 0 {
            seq![s]
        } else {
            Seq::<Seq<char>>::empty()
        },
{
    lemma_open_piece_clean(s, sep);
    lemma_no_closed_pieces(s, sep);
    assert(Seq::<Seq<char>>::empty().push(s) =~= seq![s]);
}

proof fn lemma_no_closed_pieces(s: Seq<char>, sep: char)
    requires
        !s.contains(sep),
    ensures
        closed_pieces(s, sep) == Seq::<Seq<char>>::empty(),
    decreases s.len(),
{
    if s.len() > 0 {
        assert(s[s.len() - 1] != sep);
        if s.drop_last().contains(sep) {
            let i = choose|i: int| 0 <= i < s.len() - 1 && s.drop_last()[i] == sep;
            assert(s[i] == sep);
        }
        lemma_no_closed_pieces(s.drop_last(), sep);
    }
}

/// The last token holds no white space.
pub proof fn lemma_last_token_clean(s: Seq<char>)
    ensures
        forall|i: int| 0 <= i < last_token(s).len() ==> !is_whitespace(#[trigger] last_token(s)[i]),
{
    lemma_closing_run_clean(trimmed_end(s));
}

proof fn lemma_closing_run_clean(s: Seq<char>)
    ensures
        forall|i: int| 0 <= i < closing_run(s).len() ==> !is_whitespace(#[trigger] closing_run(s)[i]),
    decreases s.len(),
{
    if s.len() > 0 && !is_whitespace(s.last()) {
        lemma_closing_run_clean(s.drop_last());
        let head = closing_run(s.drop_last());
        let run = closing_run(s);
        assert forall|i: int| 0 <= i < run.len() implies !is_whitespace(#[trigger] run[i]) by {
            if i < head.len() {
                assert(run[i] == head[i]);
            }
        }
    }
}

/// Replacing a character that does not occur changes nothing.
pub proof fn lemma_replaced_absent(s: Seq<char>, from: char, to: Seq<char>)
    requires
        !s.contains(from),
    ensures
        replaced(s, from, to) == s,
    decreases s.len(),
{
    if s.len() > 0 {
        assert(s.last() == s[s.len() - 1]);
        assert forall|c: char| s.drop_last().contains(c) implies s.contains(c) by {
            let i = choose|i: int| 0 <= i < s.drop_last().len() && s.drop_last()[i] == c;
            assert(s[i] == c);
        }
        lemma_replaced_absent(s.drop_last(), from, to);
        assert(s.drop_last().push(s.last()) =~= s);
    }
}

/// What replacing puts in is all that can be new: a character of the result
/// occurred in `s`, and is not `from`, or occurs in `to`.
pub proof fn lemma_replaced_contents(s: Seq<char>, from: char, to: Seq<char>, c: char)
    requires
        replaced(s, from, to).contains(c),
    ensures
        to.contains(c) || (c != from && s.contains(c)),
    decreases s.len(),
{
    let r = replaced(s, from, to);
    let i = choose|i: int| 0 <= i < r.len() && r[i] == c;
    if s.len() > 0 {
        let head = replaced(s.drop_last(), from, to);
        if i < head.len() {
            assert(head[i] == c);
            lemma_replaced_contents(s.drop_last(), from, to, c);
            if s.drop_last().contains(c) {
                let j = choose|j: int| 0 <= j < s.drop_last().len() && s.drop_last()[j] == c;
                assert(s[j] == c);
            }
        } else if s.last() == from {
            assert(to[i - head.len()] == c);
        } else {
            assert(s[s.len() - 1] == c);
        }
    }
}

/// Escaping is idempotent: an escaped line holds no terminator any more, so
/// escaping it again leaves every backslash and letter as it stands.
pub proof fn lemma_escaped_idempotent(s: Seq<char>)
    ensures
        !escaped(s).contains('\n'),
        !escaped(s).contains('\r'),
        escaped(escaped(s)) == escaped(s),
{
    let lf = shown_line_feed();
    let cr = shown_carriage_return();
    let e = escaped(s);
    assert(lf[0] == '\\' && lf[1] == 'n' && cr[0] == '\\' && cr[1] == 'r');
    if e.contains('\n') {
        lemma_replaced_contents(replaced(s, '\n', lf), '\r', cr, '\n');
        lemma_replaced_contents(s, '\n', lf, '\n');
    }
    if e.contains('\r') {
        lemma_replaced_contents(replaced(s, '\n', lf), '\r', cr, '\r');
    }
    lemma_replaced_absent(e, '\n', lf);
    lemma_replaced_absent(e, '\r', cr);
}

} // verus!
