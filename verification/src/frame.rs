//! The framing that the language server protocol and the debug adapter protocol
//! share: header lines, one of which gives the length, an empty line, the body.

use crate::text;
use vstd::prelude::*;
use vstd::slice::{slice_subrange, slice_to_vec};
use vstd::string::*;
use vstd::utf8::*;

verus! {

/// The header that gives the length of the body.
pub open spec fn length_key() -> Seq<char> {
    "Content-Length:"@
}

/// What one header line asks for.
pub enum HeaderStep {
    /// Another header line follows; the body has this length so far.
    More(usize),
    /// The header is over and a body of this length follows.
    Body(usize),
    /// The line is no header line.
    Broken,
}

/// What a header line, with its line end, asks for where the lines before it
/// gave the body the length `length`.
pub open spec fn header_line(line: Seq<u8>, length: usize) -> HeaderStep {
    if !valid_utf8(line) {
        HeaderStep::Broken
    } else {
        let t = text::trimmed_end(decode_utf8(line));
        if t.len() == 0 {
            HeaderStep::Body(length)
        } else if text::begins(t, length_key()) {
            match text::number(text::trimmed(t.skip(length_key().len() as int)), usize::MAX as nat) {
                Some(n) => HeaderStep::More(n as usize),
                None => HeaderStep::Broken,
            }
        } else {
            HeaderStep::More(length)
        }
    }
}

/// How many bytes the first line has, its line feed counted.
pub open spec fn first_line(s: Seq<u8>) -> nat
    decreases s.len(),
{
    if s.len() == 0 {
        0
    } else if s[0] == 10 {
        1
    } else {
        1 + first_line(s.skip(1))
    }
}

/// The first line is part of the stream, and not empty where the stream is not.
pub proof fn lemma_first_line(s: Seq<u8>)
    ensures
        first_line(s) <= s.len(),
        s.len() > 0 ==> first_line(s) > 0,
    decreases s.len(),
{
    if s.len() > 0 && s[0] != 10 {
        lemma_first_line(s.skip(1));
    }
}

/// The first frame of a stream and how many bytes it takes, where the header
/// lines before it gave the body the length `length`. None where the stream
/// ends too soon or the header is broken.
pub open spec fn frame_from(s: Seq<u8>, length: usize) -> Option<(Seq<u8>, nat)>
    decreases s.len(),
{
    if s.len() == 0 {
        None
    } else {
        proof {
            lemma_first_line(s);
        }
        let n = first_line(s);
        let rest = s.skip(n as int);
        match header_line(s.take(n as int), length) {
            HeaderStep::Broken => None,
            HeaderStep::Body(len) => if len <= rest.len() {
                Some((rest.take(len as int), n + len as nat))
            } else {
                None
            },
            HeaderStep::More(len) => match frame_from(rest, len) {
                Some((body, used)) => Some((body, n + used)),
                None => None,
            },
        }
    }
}

/// The first frame of a stream.
pub open spec fn first_frame(s: Seq<u8>) -> Option<(Seq<u8>, nat)> {
    frame_from(s, 0)
}

/// The bytes that carry a body.
pub open spec fn framed(body: Seq<u8>) -> Seq<u8> {
    encode_utf8("Content-Length: "@ + text::decimal(body.len()) + "\r\n\r\n"@) + body
}

/// Reads one header line, its line end included.
pub fn header_step(line: &[u8], length: usize) -> (r: HeaderStep)
    ensures
        r == header_line(line@, length),
{
    let decoded = match text::utf8_text(line) {
        Some(t) => t,
        None => return HeaderStep::Broken,
    };
    let chars = text::chars_of(decoded.as_str());
    let t = text::trim_end(chars.as_slice());
    if t.len() == 0 {
        return HeaderStep::Body(length);
    }
    let key = text::chars_of("Content-Length:");
    if text::starts_with(t, key.as_slice()) {
        let value = slice_subrange(t, key.len(), t.len());
        proof {
            assert(value@ =~= t@.skip(length_key().len() as int));
        }
        match text::parse_number(text::trim(value), usize::MAX as u64) {
            Some(n) => HeaderStep::More(n as usize),
            None => HeaderStep::Broken,
        }
    } else {
        HeaderStep::More(length)
    }
}

/// Where the first line that begins at `start` ends, its line feed counted.
fn line_end(input: &[u8], start: usize) -> (r: usize)
    requires
        start < input.len(),
    ensures
        start < r <= input.len(),
        r - start == first_line(input@.skip(start as int)),
{
    let mut i: usize = start;
    while i < input.len() && input[i] != 10
        invariant
            start <= i <= input.len(),
            first_line(input@.skip(start as int)) == i - start + first_line(input@.skip(i as int)),
        decreases input.len() - i,
    {
        proof {
            assert(input@.skip(i as int)[0] == input@[i as int]);
            assert(input@.skip(i as int).skip(1) =~= input@.skip(i + 1));
        }
        i += 1;
    }
    proof {
        lemma_first_line(input@.skip(start as int));
        if i < input@.len() {
            assert(input@.skip(i as int)[0] == input@[i as int]);
        }
    }
    if i < input.len() {
        i + 1
    } else {
        i
    }
}

/// Reads the first frame of a stream: its body, and how many bytes it takes
/// from the stream. `None` where the stream ends too soon, a header line is not
/// UTF-8 or its length is no number.
pub fn read_frame(input: &[u8]) -> (r: Option<(Vec<u8>, usize)>)
    ensures
        match r {
            Some((body, used)) => first_frame(input@) == Some((body@, used as nat)) && used
                <= input.len(),
            None => first_frame(input@) is None,
        },
{
    let mut length: usize = 0;
    let mut start: usize = 0;
    proof {
        assert(input@.skip(0) =~= input@);
    }
    while start < input.len()
        invariant
            start <= input.len(),
            match frame_from(input@.skip(start as int), length) {
                Some((body, used)) => first_frame(input@) == Some((body, start as nat + used)),
                None => first_frame(input@) is None,
            },
        decreases input.len() - start,
    {
        let end = line_end(input, start);
        let ghost s = input@.skip(start as int);
        proof {
            lemma_first_line(s);
            assert(s.take(end - start) =~= input@.subrange(start as int, end as int));
            assert(s.skip(end - start) =~= input@.skip(end as int));
        }
        match header_step(slice_subrange(input, start, end), length) {
            HeaderStep::Broken => return None,
            HeaderStep::Body(len) => {
                if len > input.len() - end {
                    return None;
                }
                proof {
                    assert(input@.skip(end as int).take(len as int) =~= input@.subrange(
                        end as int,
                        end + len,
                    ));
                }
                let body = slice_subrange(input, end, end + len);
                return Some((slice_to_vec(body), end + len));
            },
            HeaderStep::More(len) => {
                length = len;
                start = end;
            },
        }
    }
    None
}

/// The bytes that carry a body: its length, an empty line, the body.
pub fn write_frame(body: &[u8]) -> (r: Vec<u8>)
    ensures
        r@ == framed(body@),
{
    let mut head = String::new();
    head.append("Content-Length: ");
    text::push_decimal(&mut head, body.len() as u64);
    head.append("\r\n\r\n");
    proof {
        assert(head@ =~= "Content-Length: "@ + text::decimal(body@.len()) + "\r\n\r\n"@);
    }
    let mut out: Vec<u8> = slice_to_vec(head.as_str().as_bytes());
    out.extend_from_slice(body);
    proof {
        assert(out@ =~= framed(body@));
    }
    out
}

// ------------------------------------------------------------------- laws --

proof fn lemma_ascii_line(t: Seq<char>)
    requires
        is_ascii_chars(t),
        t.len() > 0,
        t.last() == '\n',
        forall|i: int| 0 <= i < t.len() - 1 ==> #[trigger] t[i] != '\n',
    ensures
        first_line(encode_utf8(t)) == t.len(),
        encode_utf8(t).len() == t.len(),
        forall|rest: Seq<u8>| #[trigger] first_line(encode_utf8(t) + rest) == t.len(),
{
    is_ascii_chars_encode_utf8(t);
    let bytes = encode_utf8(t);
    assert forall|rest: Seq<u8>| #[trigger] first_line(bytes + rest) == t.len() by {
        lemma_line_feed_at(bytes + rest, (t.len() - 1) as nat);
    }
    assert(bytes + Seq::<u8>::empty() =~= bytes);
    assert(first_line(bytes + Seq::<u8>::empty()) == t.len());
}

proof fn lemma_line_feed_at(s: Seq<u8>, k: nat)
    requires
        k < s.len(),
        s[k as int] == 10,
        forall|i: int| 0 <= i < k ==> #[trigger] s[i] != 10,
    ensures
        first_line(s) == k + 1,
    decreases k,
{
    if k > 0 {
        assert(s[0] != 10);
        let t = s.skip(1);
        assert forall|i: int| 0 <= i < k - 1 implies #[trigger] t[i] != 10 by {
            assert(t[i] == s[i + 1]);
        }
        lemma_line_feed_at(t, (k - 1) as nat);
    }
}

/// What is written as a frame is read back from the front of any stream, and
/// exactly the bytes of the frame are taken from it.
pub proof fn law_read_of_write(body: Seq<u8>, rest: Seq<u8>)
    requires
        body.len() <= usize::MAX,
    ensures
        first_frame(framed(body) + rest) == Some((body, framed(body).len())),
{
    reveal_strlit("Content-Length: ");
    reveal_strlit("Content-Length:");
    reveal_strlit("\r\n\r\n");
    let d = text::decimal(body.len());
    text::lemma_decimal_digits(body.len());
    let line1 = "Content-Length: "@ + d + seq!['\r', '\n'];
    let line2 = seq!['\r', '\n'];
    let head = "Content-Length: "@ + d + "\r\n\r\n"@;
    assert(head =~= line1 + line2);
    assert forall|i: int| 0 <= i < line1.len() implies '\0' <= #[trigger] line1[i] <= '\u{7f}' by {
        if 16 <= i < 16 + d.len() {
            assert(line1[i] == d[i - 16]);
        }
    }
    assert(is_ascii_chars(line1));
    assert(is_ascii_chars(line2));
    assert(is_ascii_chars(head));
    assert forall|i: int| 0 <= i < line1.len() - 1 implies #[trigger] line1[i] != '\n' by {
        if 16 <= i < 16 + d.len() {
            assert(line1[i] == d[i - 16]);
        }
    }
    is_ascii_chars_encode_utf8(line1);
    is_ascii_chars_encode_utf8(line2);
    is_ascii_chars_encode_utf8(head);
    lemma_ascii_line(line1);
    lemma_ascii_line(line2);
    let e1 = encode_utf8(line1);
    let e2 = encode_utf8(line2);
    assert(encode_utf8(head) =~= e1 + e2);
    let s = framed(body) + rest;
    let after1 = e2 + (body + rest);
    assert(s =~= e1 + after1);
    assert(first_line(s) == line1.len());
    assert(s.take(line1.len() as int) =~= e1);
    assert(s.skip(line1.len() as int) =~= after1);
    encode_utf8_valid_utf8(line1);
    encode_utf8_decode_utf8(line1);
    encode_utf8_valid_utf8(line2);
    encode_utf8_decode_utf8(line2);
    // The first line gives the length.
    let t1 = "Content-Length: "@ + d;
    reveal_with_fuel(text::trimmed_end, 4);
    assert(line1.drop_last().drop_last() =~= t1);
    assert(t1.last() == d.last());
    assert(text::is_digit(d[d.len() - 1]));
    assert(text::trimmed_end(line1) == t1);
    assert(t1.subrange(0, 15) =~= "Content-Length:"@);
    let v = t1.skip(15);
    assert(v[0] == ' ');
    reveal_with_fuel(text::trimmed_start, 2);
    assert(v.skip(1) =~= d);
    assert(text::is_digit(d[0]));
    assert(text::trimmed_start(v) == d);
    assert(text::trimmed_end(d) == d);
    text::law_number_of_decimal(body.len(), usize::MAX as nat);
    assert(header_line(e1, 0) == HeaderStep::More(body.len() as usize));
    // The second line ends the header.
    assert(first_line(after1) == line2.len());
    assert(after1.take(2) =~= e2);
    assert(after1.skip(2) =~= body + rest);
    assert(line2.drop_last().drop_last() =~= Seq::<char>::empty());
    assert(text::trimmed_end(line2).len() == 0);
    assert(header_line(e2, body.len() as usize) == HeaderStep::Body(body.len() as usize));
    assert((body + rest).take(body.len() as int) =~= body);
    assert(frame_from(after1, body.len() as usize) == Some((body, 2 + body.len())));
}

/// A header line gives the length, with white space around it or without; an empty
/// line ends the header; any other line is skipped; and what is no text or no
/// length breaks it.
pub proof fn law_header_lines(
    n: nat,
    lead: Seq<char>,
    trail: Seq<char>,
    line: Seq<char>,
    bytes: Seq<u8>,
    length: usize,
)
    requires
        n <= usize::MAX,
        forall|i: int| 0 <= i < lead.len() ==> text::is_space(#[trigger] lead[i]),
        forall|i: int| 0 <= i < trail.len() ==> text::is_space(#[trigger] trail[i]),
        line.len() > 0 && !text::is_space(line.last()),
    ensures
        header_line(
            encode_utf8("Content-Length:"@ + (lead + text::decimal(n)) + trail),
            length,
        ) == HeaderStep::More(n as usize),
        header_line(encode_utf8(trail), length) == HeaderStep::Body(length),
        !text::begins(line, "Content-Length:"@) ==> header_line(encode_utf8(line + trail), length)
            == HeaderStep::More(length),
        text::number(text::trimmed(lead + line), usize::MAX as nat) is None ==> header_line(
            encode_utf8("Content-Length:"@ + (lead + line) + trail),
            length,
        ) is Broken,
        !valid_utf8(bytes) ==> header_line(bytes, length) is Broken,
{
    reveal_strlit("Content-Length:");
    let d = text::decimal(n);
    text::lemma_decimal_digits(n);
    assert(text::is_digit(d[0]) && text::is_digit(d[d.len() - 1]));
    lemma_header_value(lead + d, trail, length);
    assert((lead + d).last() == d.last());
    text::law_trimmed(lead, d, Seq::empty());
    assert(lead + d + Seq::<char>::empty() =~= lead + d);
    text::law_number_of_decimal(n, usize::MAX as nat);
    lemma_spaces_gone(Seq::empty(), trail);
    assert(Seq::<char>::empty() + trail =~= trail);
    encode_utf8_valid_utf8(trail);
    encode_utf8_decode_utf8(trail);
    lemma_spaces_gone(line, trail);
    encode_utf8_valid_utf8(line + trail);
    encode_utf8_decode_utf8(line + trail);
    assert((lead + line).last() == line.last());
    lemma_header_value(lead + line, trail, length);
}

proof fn lemma_spaces_gone(t: Seq<char>, trail: Seq<char>)
    requires
        t.len() > 0 ==> !text::is_space(t.last()),
        forall|i: int| 0 <= i < trail.len() ==> text::is_space(#[trigger] trail[i]),
    ensures
        text::trimmed_end(t + trail) == t,
{
    let s = t + trail;
    text::law_trimmed_end(s);
    let u = text::trimmed_end(s);
    if u.len() < t.len() {
        assert(s[t.len() - 1] == t.last());
    }
    if u.len() > t.len() {
        assert(u.last() == s[u.len() - 1]);
        assert(s[u.len() - 1] == trail[u.len() - 1 - t.len()]);
    }
    assert(u =~= t);
}

proof fn lemma_header_value(v: Seq<char>, trail: Seq<char>, length: usize)
    requires
        v.len() > 0 ==> !text::is_space(v.last()),
        v.len() > 0,
        forall|i: int| 0 <= i < trail.len() ==> text::is_space(#[trigger] trail[i]),
    ensures
        header_line(encode_utf8("Content-Length:"@ + v + trail), length) == match text::number(
            text::trimmed(v),
            usize::MAX as nat,
        ) {
            Some(n) => HeaderStep::More(n as usize),
            None => HeaderStep::Broken,
        },
{
    reveal_strlit("Content-Length:");
    let t = "Content-Length:"@ + v;
    assert(t.last() == v.last());
    lemma_spaces_gone(t, trail);
    encode_utf8_valid_utf8(t + trail);
    encode_utf8_decode_utf8(t + trail);
    assert(t.subrange(0, 15) =~= "Content-Length:"@);
    assert(t.skip(15) =~= v);
}

/// The header of a frame is read line by line, each with what the lines before it
/// gave, and the body is what follows, of that length.
pub proof fn law_frame_steps(line: Seq<char>, more: Seq<u8>, length: usize)
    requires
        is_ascii_chars(line),
        line.len() > 0,
        line.last() == '\n',
        forall|i: int| 0 <= i < line.len() - 1 ==> #[trigger] line[i] != '\n',
    ensures
        ({
            let bytes = encode_utf8(line);
            let r = frame_from(bytes + more, length);
            match header_line(bytes, length) {
                HeaderStep::Broken => r is None,
                HeaderStep::Body(n) => if n <= more.len() {
                    r == Some((more.take(n as int), line.len() + n as nat))
                } else {
                    r is None
                },
                HeaderStep::More(n) => match frame_from(more, n) {
                    Some((body, used)) => r == Some((body, line.len() + used)),
                    None => r is None,
                },
            }
        }),
        first_frame(more) == frame_from(more, 0),
        frame_from(Seq::empty(), length) is None,
{
    lemma_ascii_line(line);
    let bytes = encode_utf8(line);
    let s = bytes + more;
    assert(first_line(s) == line.len());
    assert(s.take(line.len() as int) =~= bytes);
    assert(s.skip(line.len() as int) =~= more);
}

/// A frame is its head and the body as it is; the head is one line with the length
/// of the body in bytes, and an empty line.
pub proof fn law_frame_parts(body: Seq<u8>)
    ensures
        ({
            let n = framed(body).len() - body.len();
            &&& n > 0
            &&& framed(body).skip(n) == body
            &&& framed(body).take(n) == encode_utf8(
                "Content-Length: "@ + text::decimal(body.len()) + "\r\n\r\n"@,
            )
        }),
{
    let head = "Content-Length: "@ + text::decimal(body.len()) + "\r\n\r\n"@;
    let n = framed(body).len() - body.len();
    assert(framed(body).skip(n) =~= body);
    assert(framed(body).take(n) =~= encode_utf8(head));
    reveal_strlit("\r\n\r\n");
    if n == 0 {
        encode_utf8_decode_utf8(head);
        encode_utf8_decode_utf8(Seq::empty());
        assert(encode_utf8(head) =~= encode_utf8(Seq::empty()));
    }
}

} // verus!
