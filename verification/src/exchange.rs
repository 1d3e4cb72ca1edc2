//! What is read of a message that was written.
use crate::fields;
use crate::number;
use crate::reader::{self, ReadStep, ReaderPhase, ReaderState};
use crate::rtsp::{self, MessageModel};
use crate::text;
use vstd::prelude::*;
use vstd::utf8;

verus! {

/// Text that a line can hold.
pub open spec fn one_line(s: Seq<char>) -> bool {
    forall|i: int| 0 <= i < s.len() ==> #[trigger] s[i] != '\n'
}

/// A header that can be sent: it stays on its line, and the name ends at the
/// first colon.
pub open spec fn can_send_header(header: (Seq<char>, Seq<char>)) -> bool {
    &&& one_line(header.0)
    &&& one_line(header.1)
    &&& forall|i: int| 0 <= i < header.0.len() ==> #[trigger] header.0[i] != ':'
}

/// Headers that can be sent.
pub open spec fn can_send_headers(headers: Seq<(Seq<char>, Seq<char>)>) -> bool {
    forall|i: int| 0 <= i < headers.len() ==> can_send_header(#[trigger] headers[i])
}

/// The headers that arrive: names in lower case, no white space around names
/// and values. Where a name occurs twice, the last value stays.
pub open spec fn received_headers(headers: Seq<(Seq<char>, Seq<char>)>) -> Map<
    Seq<char>,
    Seq<char>,
>
    decreases headers.len(),
{
    if headers.len() == 0 {
        Map::empty()
    } else {
        received_headers(headers.drop_last()).insert(
            text::lowered(text::trimmed(headers.last().0)),
            text::trimmed(headers.last().1),
        )
    }
}

/// All headers of a message.
pub open spec fn sent_headers(
    cseq: Seq<char>,
    headers: Seq<(Seq<char>, Seq<char>)>,
    body: Seq<char>,
) -> Seq<(Seq<char>, Seq<char>)> {
    seq![("CSeq"@, cseq)] + headers + seq![
        ("Content-Length"@, number::decimal(utf8::encode_utf8(body).len())),
    ]
}

/// A message with the first line `start`.
spec fn full_text(start: Seq<char>, headers: Seq<(Seq<char>, Seq<char>)>, body: Seq<char>) -> Seq<
    char,
> {
    start + "\r\n"@ + rtsp::header_lines(headers) + "\r\n"@ + body
}

/// The encoding of joined texts.
pub proof fn lemma_encode_concat(a: Seq<char>, b: Seq<char>)
    ensures
        utf8::encode_utf8(a + b) == utf8::encode_utf8(a) + utf8::encode_utf8(b),
    decreases a.len(),
{
    if a.len() == 0 {
        assert(a + b =~= b);
        assert(utf8::encode_utf8(a) + utf8::encode_utf8(b) =~= utf8::encode_utf8(b));
    } else {
        lemma_encode_concat(a.drop_first(), b);
        assert((a + b).drop_first() =~= a.drop_first() + b);
        assert(utf8::encode_utf8(a + b) =~= utf8::encode_utf8(a) + utf8::encode_utf8(b));
    }
}

/// A text of one line is encoded without a byte that is a line feed.
proof fn lemma_encode_line(s: Seq<char>)
    requires
        one_line(s),
    ensures
        forall|i: int|
            0 <= i < utf8::encode_utf8(s).len() ==> #[trigger] utf8::encode_utf8(s)[i] != 10,
    decreases s.len(),
{
    if s.len() > 0 {
        let tail = s.drop_first();
        assert forall|i: int| 0 <= i < tail.len() implies #[trigger] tail[i] != '\n' by {
            assert(tail[i] == s[i + 1]);
        }
        lemma_encode_line(tail);
        utf8::encode_utf8_first_scalar(s);
        let bytes = utf8::encode_utf8(s);
        let head = utf8::encode_scalar(s[0] as u32);
        assert(s[0] != '\n');
        assert(10u8 & 0x7f == 10) by (bit_vector);
        if bytes[0] == 10 {
            utf8::char_u32_cast(s[0], 10);
            assert(10u32 as char == '\n');
        }
        assert forall|i: int| 0 <= i < bytes.len() implies #[trigger] bytes[i] != 10 by {
            if i >= head.len() {
                assert(bytes[i] == utf8::encode_utf8(tail)[i - head.len()]);
            }
        }
    }
}

/// The encoding of a line feed.
proof fn lemma_encode_line_feed()
    ensures
        utf8::encode_utf8(seq!['\n']) == seq![10u8],
{
    utf8::is_ascii_chars_encode_utf8(seq!['\n']);
    assert(utf8::encode_utf8(seq!['\n'])[0] == seq!['\n'][0] as u8);
    assert(utf8::encode_utf8(seq!['\n']) =~= seq![10u8]);
}

/// A line ends at its line feed.
proof fn lemma_line_size_of(line: Seq<u8>, rest: Seq<u8>)
    requires
        forall|i: int| 0 <= i < line.len() ==> #[trigger] line[i] != 10,
    ensures
        reader::line_size(line.push(10) + rest) == line.len() + 1,
    decreases line.len(),
{
    let stream = line.push(10) + rest;
    if line.len() > 0 {
        let tail = line.drop_first();
        assert forall|i: int| 0 <= i < tail.len() implies #[trigger] tail[i] != 10 by {
            assert(tail[i] == line[i + 1]);
        }
        lemma_line_size_of(tail, rest);
        assert(stream.drop_first() =~= tail.push(10) + rest);
        assert(stream[0] == line[0]);
    }
}

/// Where a line is wanted, the line that comes is read.
proof fn lemma_read_line(s: ReaderState, line: Seq<char>, rest: Seq<u8>)
    requires
        one_line(line),
        s.phase == ReaderPhase::StartLine || s.phase == ReaderPhase::HeaderLine,
    ensures
        ({
            let bytes = utf8::encode_utf8(line.push('\n'));
            let (end, size) = reader::read_on(
                reader::step_after_line(s, line.push('\n')),
                rest,
            );
            reader::read_on((s, ReadStep::ReadLine), bytes + rest) == (end, bytes.len() + size)
        }),
{
    let bytes = utf8::encode_utf8(line.push('\n'));
    let stream = bytes + rest;
    assert(line.push('\n') =~= line + seq!['\n']);
    lemma_encode_concat(line, seq!['\n']);
    lemma_encode_line_feed();
    assert(bytes =~= utf8::encode_utf8(line).push(10));
    lemma_encode_line(line);
    lemma_line_size_of(utf8::encode_utf8(line), rest);
    assert(stream.take(bytes.len() as int) =~= bytes);
    assert(stream.skip(bytes.len() as int) =~= rest);
    utf8::encode_utf8_valid_utf8(line.push('\n'));
    utf8::encode_utf8_decode_utf8(line.push('\n'));
}

/// The line ending is not part of a line.
proof fn lemma_line_content(a: Seq<char>)
    ensures
        reader::without_line_end(a.push('\r').push('\n')) == reader::without_line_end(a),
{
    reveal_with_fuel(reader::without_line_end, 3);
    assert(a.push('\r').push('\n').drop_last() =~= a.push('\r'));
    assert(a.push('\r').drop_last() =~= a);
}

/// Nothing is dropped in front of a character that is no line ending.
proof fn lemma_content_after(a: Seq<char>, v: Seq<char>)
    requires
        a.len() > 0,
        a.last() != '\r',
        a.last() != '\n',
    ensures
        reader::without_line_end(a + v) == a + reader::without_line_end(v),
    decreases v.len(),
{
    if v.len() == 0 {
        assert(a + v =~= a);
    } else {
        assert((a + v).last() == v.last());
        assert((a + v).drop_last() =~= a + v.drop_last());
        lemma_content_after(a, v.drop_last());
    }
}

/// Leading white space and a further character at the end.
pub proof fn lemma_trimmed_start_push(v: Seq<char>, c: char)
    requires
        text::is_space(c),
    ensures
        text::trimmed_start(v.push(c)) == (if text::trimmed_start(v).len() == 0 {
            Seq::empty()
        } else {
            text::trimmed_start(v).push(c)
        }),
    decreases v.len(),
{
    if v.len() == 0 {
        reveal_with_fuel(text::trimmed_start, 2);
        assert(v.push(c).drop_first() =~= Seq::empty());
        assert(text::trimmed_start(v.push(c)) =~= Seq::empty());
    } else if text::is_space(v[0]) {
        assert(v.push(c).drop_first() =~= v.drop_first().push(c));
        lemma_trimmed_start_push(v.drop_first(), c);
    }
}

/// Line endings at the end of a text are white space around it.
proof fn lemma_trimmed_content(v: Seq<char>)
    ensures
        text::trimmed(reader::without_line_end(v)) == text::trimmed(v),
    decreases v.len(),
{
    if v.len() > 0 && (v.last() == '\r' || v.last() == '\n') {
        let front = v.drop_last();
        lemma_trimmed_content(front);
        assert(v =~= front.push(v.last()));
        lemma_trimmed_start_push(front, v.last());
        let start = text::trimmed_start(front);
        if start.len() > 0 {
            assert(start.push(v.last()).drop_last() =~= start);
        }
    }
}

/// A header line that is read.
proof fn lemma_header_content(
    headers: Map<Seq<char>, Seq<char>>,
    name: Seq<char>,
    value: Seq<char>,
)
    requires
        can_send_header((name, value)),
    ensures
        ({
            let content = reader::without_line_end(name + ": "@ + value + "\r\n"@);
            &&& content.len() > 0
            &&& reader::with_header_line(headers, content) == headers.insert(
                text::lowered(text::trimmed(name)),
                text::trimmed(value),
            )
        }),
{
    reveal_strlit(": ");
    reveal_strlit("\r\n");
    let line = name + ": "@ + value;
    assert(line + "\r\n"@ =~= line.push('\r').push('\n'));
    lemma_line_content(line);
    lemma_content_after(name + ": "@, value);
    let v = reader::without_line_end(value);
    let content = name + ": "@ + v;
    let n = name.len() as int;
    assert(content[n] == ':');
    assert forall|i: int| 0 <= i < n implies content[i] != ':' by {
        assert(content[i] == name[i]);
    }
    text::lemma_position_unique(content, ':', n);
    assert(content.take(n) =~= name);
    assert(content.skip(n + 1) =~= seq![' '] + v);
    assert((seq![' '] + v).drop_first() =~= v);
    lemma_trimmed_content(value);
}

/// Where a header line is wanted, headers that come are read.
proof fn lemma_read_headers(
    s: ReaderState,
    headers: Seq<(Seq<char>, Seq<char>)>,
    rest: Seq<u8>,
)
    requires
        can_send_headers(headers),
        s.phase == ReaderPhase::HeaderLine,
        s.headers == Map::<Seq<char>, Seq<char>>::empty(),
    ensures
        ({
            let bytes = utf8::encode_utf8(rtsp::header_lines(headers));
            let next = ReaderState { headers: received_headers(headers), ..s };
            let (end, size) = reader::read_on((next, ReadStep::ReadLine), rest);
            reader::read_on((s, ReadStep::ReadLine), bytes + rest) == (end, bytes.len() + size)
        }),
    decreases headers.len(),
{
    let bytes = utf8::encode_utf8(rtsp::header_lines(headers));
    if headers.len() == 0 {
        assert(bytes + rest =~= rest);
    } else {
        let front = headers.drop_last();
        let (name, value) = headers.last();
        let line = name + ": "@ + value + "\r\n"@;
        let line_bytes = utf8::encode_utf8(line);
        let front_bytes = utf8::encode_utf8(rtsp::header_lines(front));
        assert(can_send_header(headers[headers.len() - 1]));
        assert forall|i: int| 0 <= i < front.len() implies can_send_header(#[trigger] front[i]) by {
            assert(front[i] == headers[i]);
        }
        assert(rtsp::header_lines(headers) =~= rtsp::header_lines(front) + line);
        lemma_encode_concat(rtsp::header_lines(front), line);
        assert(bytes + rest =~= front_bytes + (line_bytes + rest));
        lemma_read_headers(s, front, line_bytes + rest);
        let mid = ReaderState { headers: received_headers(front), ..s };
        reveal_strlit(": ");
        reveal_strlit("\r\n");
        let content = (name + ": "@ + value).push('\r');
        assert(line =~= content.push('\n'));
        assert(one_line(content));
        lemma_read_line(mid, content, rest);
        lemma_header_content(mid.headers, name, value);
    }
}

/// Header lines of joined lists.
proof fn lemma_header_lines_concat(
    a: Seq<(Seq<char>, Seq<char>)>,
    b: Seq<(Seq<char>, Seq<char>)>,
)
    ensures
        rtsp::header_lines(a + b) == rtsp::header_lines(a) + rtsp::header_lines(b),
    decreases b.len(),
{
    if b.len() == 0 {
        assert(a + b =~= a);
        assert(rtsp::header_lines(a) + rtsp::header_lines(b) =~= rtsp::header_lines(a));
    } else {
        assert((a + b).drop_last() =~= a + b.drop_last());
        assert((a + b).last() == b.last());
        lemma_header_lines_concat(a, b.drop_last());
        assert(rtsp::header_lines(a + b) =~= rtsp::header_lines(a) + rtsp::header_lines(b));
    }
}

/// No text but the empty one has an empty encoding.
proof fn lemma_encode_empty(s: Seq<char>)
    ensures
        utf8::encode_utf8(s).len() == 0 <==> s.len() == 0,
{
    if s.len() > 0 {
        utf8::encode_utf8_first_scalar(s);
    }
}

/// A message is read to its end, and no further.
proof fn lemma_read_message(
    start: Seq<char>,
    headers: Seq<(Seq<char>, Seq<char>)>,
    body: Seq<char>,
    rest: Seq<u8>,
)
    requires
        one_line(start),
        reader::without_line_end(start).len() > 0,
        can_send_headers(headers),
        reader::body_length(received_headers(headers)) == utf8::encode_utf8(body).len(),
    ensures
        ({
            let bytes = utf8::encode_utf8(full_text(start, headers, body));
            let end = match reader::message_of(
                reader::without_line_end(start),
                received_headers(headers),
                body,
            ) {
                Ok(m) => ReadStep::Message(m),
                Err(e) => ReadStep::Fail(e),
            };
            reader::read_message(bytes + rest) == (end, bytes.len())
        }),
{
    reveal_strlit("\r\n");
    let first = start.push('\r').push('\n');
    let lines = rtsp::header_lines(headers);
    let blank = seq!['\r'].push('\n');
    let bytes = utf8::encode_utf8(full_text(start, headers, body));
    let bytes_first = utf8::encode_utf8(first);
    let bytes_lines = utf8::encode_utf8(lines);
    let bytes_blank = utf8::encode_utf8(blank);
    let bytes_body = utf8::encode_utf8(body);
    assert(full_text(start, headers, body) =~= first + (lines + (blank + body)));
    lemma_encode_concat(first, lines + (blank + body));
    lemma_encode_concat(lines, blank + body);
    lemma_encode_concat(blank, body);
    let after_blank = bytes_body + rest;
    let after_lines = bytes_blank + after_blank;
    let after_first = bytes_lines + after_lines;
    assert(bytes + rest =~= bytes_first + after_first);

    let content = reader::without_line_end(start);
    let s1 = ReaderState {
        phase: ReaderPhase::HeaderLine,
        start: content,
        headers: Map::empty(),
    };
    assert(one_line(start.push('\r')));
    lemma_read_line(reader::new_reader(), start.push('\r'), after_first);
    lemma_line_content(start);
    lemma_read_headers(s1, headers, after_lines);
    let s2 = ReaderState { headers: received_headers(headers), ..s1 };
    assert(one_line(seq!['\r']));
    lemma_read_line(s2, seq!['\r'], after_blank);
    assert(Seq::<char>::empty().push('\r').push('\n') =~= blank);
    lemma_line_content(Seq::empty());
    lemma_encode_empty(body);
    utf8::encode_utf8_valid_utf8(body);
    utf8::encode_utf8_decode_utf8(body);
    assert(after_blank.take(bytes_body.len() as int) =~= bytes_body);
    if body.len() == 0 {
        assert(bytes_body =~= Seq::<u8>::empty());
    }
}

/// The length of a word that stands at the front.
proof fn lemma_word_length_of(word: Seq<char>, rest: Seq<char>)
    requires
        forall|i: int| 0 <= i < word.len() ==> !text::is_space(#[trigger] word[i]),
        rest.len() > 0 ==> text::is_space(rest[0]),
    ensures
        text::word_length(word + rest) == word.len(),
    decreases word.len(),
{
    if word.len() == 0 {
        assert(word + rest =~= rest);
    } else {
        let tail = word.drop_first();
        assert forall|i: int| 0 <= i < tail.len() implies !text::is_space(#[trigger] tail[i]) by {
            assert(tail[i] == word[i + 1]);
        }
        lemma_word_length_of(tail, rest);
        assert((word + rest).drop_first() =~= tail + rest);
        assert((word + rest)[0] == word[0]);
    }
}

/// The words of a text that starts with a word.
pub proof fn lemma_words_of(word: Seq<char>, rest: Seq<char>)
    requires
        word.len() > 0,
        forall|i: int| 0 <= i < word.len() ==> !text::is_space(#[trigger] word[i]),
        rest.len() > 0 ==> text::is_space(rest[0]),
    ensures
        text::words(word + rest) == seq![word] + text::words(rest),
{
    lemma_word_length_of(word, rest);
    assert((word + rest)[0] == word[0]);
    assert((word + rest).take(word.len() as int) =~= word);
    assert((word + rest).skip(word.len() as int) =~= rest);
}

/// There is a word where there is more than white space.
pub proof fn lemma_some_word(s: Seq<char>, i: int)
    requires
        0 <= i < s.len(),
        !text::is_space(s[i]),
    ensures
        text::words(s).len() > 0,
    decreases s.len(),
{
    if text::is_space(s[0]) {
        assert(s.drop_first()[i - 1] == s[i]);
        lemma_some_word(s.drop_first(), i - 1);
    } else {
        text::lemma_word_length(s);
    }
}

/// A text without white space is what remains of it.
pub proof fn lemma_trimmed_same(s: Seq<char>)
    requires
        forall|i: int| 0 <= i < s.len() ==> !text::is_space(#[trigger] s[i]),
    ensures
        text::trimmed(s) == s,
{
}

/// The headers that are sent can be sent, and announce the body.
proof fn lemma_sent_headers(
    cseq: Seq<char>,
    headers: Seq<(Seq<char>, Seq<char>)>,
    body: Seq<char>,
)
    requires
        one_line(cseq),
        can_send_headers(headers),
        utf8::encode_utf8(body).len() <= usize::MAX,
    ensures
        ({
            let all = sent_headers(cseq, headers, body);
            &&& can_send_headers(all)
            &&& reader::body_length(received_headers(all)) == utf8::encode_utf8(body).len()
            &&& rtsp::header_lines(all) == "CSeq: "@ + cseq + "\r\n"@ + rtsp::header_lines(headers)
                + "Content-Length: "@ + number::decimal(utf8::encode_utf8(body).len()) + "\r\n"@
        }),
{
    reveal_strlit("CSeq");
    reveal_strlit("CSeq: ");
    reveal_strlit(": ");
    reveal_strlit("Content-Length");
    reveal_strlit("Content-Length: ");
    reveal_strlit("content-length");
    let n = utf8::encode_utf8(body).len();
    let first = ("CSeq"@, cseq);
    let last = ("Content-Length"@, number::decimal(n));
    let all = sent_headers(cseq, headers, body);
    number::lemma_decimal_value(n);
    assert(can_send_header(first));
    assert(can_send_header(last)) by {
        assert forall|i: int| 0 <= i < last.1.len() implies #[trigger] last.1[i] != '\n' by {
            assert(number::is_digit(last.1[i]));
        }
    }
    assert forall|i: int| 0 <= i < all.len() implies can_send_header(#[trigger] all[i]) by {
        if 0 < i < all.len() - 1 {
            assert(all[i] == headers[i - 1]);
        }
    }
    assert(all.last() == last);
    assert(text::lowered("Content-Length"@) =~= "content-length"@);
    assert(text::lowered("content-length"@) =~= "content-length"@);
    lemma_trimmed_same("Content-Length"@);
    assert forall|i: int| 0 <= i < last.1.len() implies !text::is_space(#[trigger] last.1[i]) by {
        assert(number::is_digit(last.1[i]));
    }
    lemma_trimmed_same(last.1);
    number::law_decimal_is_read_back(n, usize::MAX as nat);
    lemma_header_lines_concat(seq![first] + headers, seq![last]);
    lemma_header_lines_concat(seq![first], headers);
    reveal_with_fuel(rtsp::header_lines, 2);
    assert(seq![first].drop_last() =~= Seq::empty());
    assert(seq![last].drop_last() =~= Seq::empty());
    assert("CSeq: "@ =~= "CSeq"@ + ": "@);
    assert("Content-Length: "@ =~= "Content-Length"@ + ": "@);
    assert(rtsp::header_lines(all) =~= "CSeq: "@ + cseq + "\r\n"@ + rtsp::header_lines(headers)
        + "Content-Length: "@ + number::decimal(n) + "\r\n"@);
}

/// A method that a request can have.
pub open spec fn is_method(s: Seq<char>) -> bool {
    &&& s.len() > 0
    &&& forall|i: int| 0 <= i < s.len() ==> !text::is_space(#[trigger] s[i])
    &&& !text::begins_with(s, "RTSP/"@)
}

/// A request that was written is read back: its method, its headers and its
/// body. What follows it in the stream is left there.
pub proof fn law_request_is_read_back(
    method: Seq<char>,
    uri: Seq<char>,
    cseq: nat,
    headers: Seq<(Seq<char>, Seq<char>)>,
    body: Seq<char>,
    rest: Seq<u8>,
)
    requires
        is_method(method),
        one_line(uri),
        can_send_headers(headers),
        utf8::encode_utf8(body).len() <= usize::MAX,
    ensures
        ({
            let bytes = utf8::encode_utf8(rtsp::request_text(method, uri, cseq, headers, body));
            let message = MessageModel::Request {
                method,
                headers: received_headers(sent_headers(number::decimal(cseq), headers, body)),
                body,
            };
            reader::read_message(bytes + rest) == (ReadStep::Message(message), bytes.len())
        }),
{
    reveal_strlit(" ");
    reveal_strlit(" RTSP/1.0\r\nCSeq: ");
    reveal_strlit("\r\n");
    reveal_strlit("\r\n\r\n");
    reveal_strlit("CSeq: ");
    reveal_strlit(" RTSP/1.0");
    reveal_strlit("RTSP/");
    let number = number::decimal(cseq);
    number::lemma_decimal_value(cseq);
    assert forall|i: int| 0 <= i < number.len() implies #[trigger] number[i] != '\n' by {
        assert(number::is_digit(number[i]));
    }
    lemma_sent_headers(number, headers, body);
    let all = sent_headers(number, headers, body);
    let tail = " "@ + uri + " RTSP/1.0"@;
    let start = method + tail;
    assert forall|i: int| 0 <= i < start.len() implies #[trigger] start[i] != '\n' by {
        if i < method.len() {
            assert(!text::is_space(method[i]));
        } else if method.len() < i <= method.len() + uri.len() {
            assert(start[i] == uri[i - method.len() - 1]);
        }
    }
    lemma_content_after(start, Seq::empty());
    assert(start + Seq::<char>::empty() =~= start);
    assert(rtsp::request_text(method, uri, cseq, headers, body) =~= full_text(start, all, body));
    lemma_read_message(start, all, body, rest);
    lemma_words_of(method, tail);
    assert(tail[tail.len() - 1] == '0');
    lemma_some_word(tail, tail.len() - 1);
    assert(!text::begins_with(start, "RTSP/"@)) by {
        if text::begins_with(start, "RTSP/"@) {
            assert(start.take(5)[4] == '/');
            if method.len() >= 5 {
                assert(method.take(5) =~= start.take(5));
            } else if method.len() == 4 {
                assert(start[4] == ' ');
            } else {
                assert(start.take(5)[method.len() as int] == ' ');
            }
        }
    }
}

/// What is read of the first line of a response.
proof fn lemma_status_line(code: u16, tail: Seq<char>)
    requires
        tail.len() > 0,
        text::is_space(tail[0]),
    ensures
        ({
            let start = "RTSP/1.0 "@ + number::decimal(code as nat) + tail;
            &&& text::begins_with(start, "RTSP/"@)
            &&& text::nth_word(start, 1) == Some(number::decimal(code as nat))
            &&& number::number(number::decimal(code as nat), u16::MAX as nat) == Some(code as nat)
        }),
{
    reveal_strlit("RTSP/1.0 ");
    reveal_strlit("RTSP/");
    reveal_strlit("RTSP/1.0");
    let number = number::decimal(code as nat);
    let start = "RTSP/1.0 "@ + number + tail;
    let after = seq![' '] + (number + tail);
    assert(start =~= "RTSP/1.0"@ + after);
    assert(start.take(5) =~= "RTSP/"@);
    lemma_words_of("RTSP/1.0"@, after);
    assert(after.drop_first() =~= number + tail);
    number::lemma_decimal_value(code as nat);
    assert forall|i: int| 0 <= i < number.len() implies !text::is_space(#[trigger] number[i]) by {
        assert(number::is_digit(number[i]));
    }
    lemma_words_of(number, tail);
    number::law_decimal_is_read_back(code as nat, u16::MAX as nat);
}

/// A response that was written is read back: its code, its headers and its
/// body. What follows it in the stream is left there.
pub proof fn law_response_is_read_back(
    cseq: Seq<char>,
    headers: Seq<(Seq<char>, Seq<char>)>,
    body: Seq<char>,
    rest: Seq<u8>,
)
    requires
        one_line(cseq),
        can_send_headers(headers),
        utf8::encode_utf8(body).len() <= usize::MAX,
    ensures
        ({
            let bytes = utf8::encode_utf8(rtsp::response_text(cseq, headers, body));
            let message = MessageModel::Response {
                code: 200,
                headers: received_headers(sent_headers(cseq, headers, body)),
                body,
            };
            reader::read_message(bytes + rest) == (ReadStep::Message(message), bytes.len())
        }),
{
    reveal_strlit("RTSP/1.0 200 OK\r\nCSeq: ");
    reveal_strlit("RTSP/1.0 ");
    reveal_strlit(" OK");
    reveal_strlit("\r\n");
    reveal_strlit("\r\n\r\n");
    reveal_strlit("CSeq: ");
    reveal_with_fuel(number::decimal, 3);
    lemma_sent_headers(cseq, headers, body);
    let all = sent_headers(cseq, headers, body);
    let start = "RTSP/1.0 "@ + number::decimal(200) + " OK"@;
    assert(number::decimal(200) =~= seq!['2', '0', '0']);
    assert(one_line(start));
    assert(rtsp::response_text(cseq, headers, body) =~= full_text(start, all, body));
    lemma_content_after(start, Seq::empty());
    assert(start + Seq::<char>::empty() =~= start);
    lemma_read_message(start, all, body, rest);
    lemma_status_line(200, " OK"@);
}

/// An error response that was written is read back: its code and its sequence
/// number, without a body. What follows it in the stream is left there.
pub proof fn law_error_is_read_back(
    cseq: Seq<char>,
    code: u16,
    reason: Seq<char>,
    rest: Seq<u8>,
)
    requires
        one_line(cseq),
        one_line(reason),
    ensures
        ({
            let bytes = utf8::encode_utf8(rtsp::error_text(cseq, code, reason));
            let message = MessageModel::Response {
                code,
                headers: received_headers(sent_headers(cseq, Seq::empty(), Seq::empty())),
                body: Seq::empty(),
            };
            reader::read_message(bytes + rest) == (ReadStep::Message(message), bytes.len())
        }),
{
    reveal_strlit("RTSP/1.0 ");
    reveal_strlit(" ");
    reveal_strlit("\r\nCSeq: ");
    reveal_strlit("\r\nContent-Length: 0\r\n\r\n");
    reveal_strlit("Content-Length: ");
    reveal_strlit("\r\n");
    reveal_strlit("CSeq: ");
    lemma_sent_headers(cseq, Seq::empty(), Seq::empty());
    let all = sent_headers(cseq, Seq::empty(), Seq::empty());
    let number = number::decimal(code as nat);
    let tail = " "@ + reason;
    let head = "RTSP/1.0 "@ + number + " "@;
    let start = head + reason;
    number::lemma_decimal_value(code as nat);
    assert forall|i: int| 0 <= i < start.len() implies #[trigger] start[i] != '\n' by {
        if 9 <= i < 9 + number.len() {
            assert(number::is_digit(number[i - 9]));
            assert(start[i] == number[i - 9]);
        } else if i >= head.len() {
            assert(start[i] == reason[i - head.len()]);
        }
    }
    assert(number::decimal(0) =~= seq!['0']);
    assert(rtsp::error_text(cseq, code, reason) =~= full_text(start, all, Seq::empty()));
    lemma_content_after(head, reason);
    let kept = reader::without_line_end(reason);
    assert(head + kept =~= "RTSP/1.0 "@ + number + (" "@ + kept));
    lemma_read_message(start, all, Seq::empty(), rest);
    lemma_status_line(code, " "@ + kept);
}

/// The number of a message is read back where no other header has its name.
pub proof fn law_cseq_is_read_back(
    cseq: Seq<char>,
    headers: Seq<(Seq<char>, Seq<char>)>,
    body: Seq<char>,
)
    requires
        forall|i: int|
            0 <= i < headers.len() ==> text::lowered(text::trimmed((#[trigger] headers[i]).0))
                != "cseq"@,
    ensures
        reader::header_value(
            received_headers(sent_headers(cseq, headers, body)),
            "cseq"@,
        ) == Some(text::trimmed(cseq)),
{
    reveal_strlit("CSeq");
    reveal_strlit("cseq");
    reveal_strlit("Content-Length");
    let last = ("Content-Length"@, number::decimal(utf8::encode_utf8(body).len()));
    let all = sent_headers(cseq, headers, body);
    lemma_trimmed_same("Content-Length"@);
    lemma_trimmed_same("CSeq"@);
    assert(text::lowered("CSeq"@) =~= "cseq"@);
    assert(text::lowered("cseq"@) =~= "cseq"@);
    assert(text::lowered("Content-Length"@).len() == 14);
    let front = seq![("CSeq"@, cseq)] + headers;
    assert(all.drop_last() =~= front);
    lemma_first_header_stays(("CSeq"@, cseq), headers);
}

/// A header stays if no later one has its name.
proof fn lemma_first_header_stays(
    first: (Seq<char>, Seq<char>),
    headers: Seq<(Seq<char>, Seq<char>)>,
)
    requires
        forall|i: int|
            0 <= i < headers.len() ==> text::lowered(text::trimmed((#[trigger] headers[i]).0))
                != text::lowered(text::trimmed(first.0)),
    ensures
        fields::lookup(
            received_headers(seq![first] + headers),
            text::lowered(text::trimmed(first.0)),
        ) == Some(text::trimmed(first.1)),
    decreases headers.len(),
{
    let all = seq![first] + headers;
    if headers.len() == 0 {
        assert(all =~= seq![first]);
        assert(all.drop_last() =~= Seq::empty());
    } else {
        let front = headers.drop_last();
        assert forall|i: int| 0 <= i < front.len() implies text::lowered(
            text::trimmed((#[trigger] front[i]).0),
        ) != text::lowered(text::trimmed(first.0)) by {
            assert(front[i] == headers[i]);
        }
        lemma_first_header_stays(first, front);
        assert(all.drop_last() =~= seq![first] + front);
        assert(all.last() == headers[headers.len() - 1]);
    }
}

/// A line feed in a text is one in its encoding.
proof fn lemma_encode_keeps_line_feed(s: Seq<char>, i: int) -> (k: int)
    requires
        0 <= i < s.len(),
        s[i] == '\n',
    ensures
        0 <= k < utf8::encode_utf8(s).len(),
        utf8::encode_utf8(s)[k] == 10,
        i + 1 < s.len() ==> k + 1 < utf8::encode_utf8(s).len(),
{
    let front = s.take(i);
    let back = s.skip(i + 1);
    assert(s =~= front + (seq!['\n'] + back));
    lemma_encode_concat(front, seq!['\n'] + back);
    lemma_encode_concat(seq!['\n'], back);
    lemma_encode_line_feed();
    lemma_encode_empty(back);
    let k = utf8::encode_utf8(front).len() as int;
    assert(utf8::encode_utf8(s)[k] == 10);
    k
}

/// A line of a stream has its line feed at the end, if anywhere.
proof fn lemma_line_bytes(stream: Seq<u8>)
    ensures
        reader::line_size(stream) <= stream.len(),
        forall|i: int|
            0 <= i < reader::line_size(stream) - 1 ==> #[trigger] stream[i] != 10,
    decreases stream.len(),
{
    if stream.len() > 0 && stream[0] != 10 {
        let tail = stream.drop_first();
        lemma_line_bytes(tail);
        assert forall|i: int| 0 <= i < reader::line_size(stream) - 1 implies #[trigger] stream[i]
            != 10 by {
            if i > 0 {
                assert(stream[i] == tail[i - 1]);
            }
        }
    }
}

/// What a line holds besides its line ending.
proof fn lemma_content_is_front(s: Seq<char>)
    ensures
        reader::without_line_end(s).len() <= s.len(),
        reader::without_line_end(s) == s.take(reader::without_line_end(s).len() as int),
        reader::without_line_end(s).len() > 0 ==> reader::without_line_end(s).last() != '\n',
    decreases s.len(),
{
    if s.len() > 0 && (s.last() == '\r' || s.last() == '\n') {
        lemma_content_is_front(s.drop_last());
        let n = reader::without_line_end(s).len() as int;
        assert(s.take(n) =~= s.drop_last().take(n));
    } else {
        assert(s.take(s.len() as int) =~= s);
    }
}

/// A line that is read from a stream is one line.
proof fn lemma_content_is_one_line(stream: Seq<u8>)
    requires
        utf8::valid_utf8(stream.take(reader::line_size(stream) as int)),
    ensures
        one_line(
            reader::without_line_end(
                utf8::decode_utf8(stream.take(reader::line_size(stream) as int)),
            ),
        ),
{
    let bytes = stream.take(reader::line_size(stream) as int);
    let s = utf8::decode_utf8(bytes);
    let content = reader::without_line_end(s);
    lemma_line_bytes(stream);
    lemma_content_is_front(s);
    utf8::decode_utf8_encode_utf8(bytes);
    assert forall|i: int| 0 <= i < content.len() implies #[trigger] content[i] != '\n' by {
        if content[i] == '\n' {
            assert(s[i] == '\n');
            if i + 1 < content.len() {
                let k = lemma_encode_keeps_line_feed(s, i);
                assert(stream[k] == 10);
            }
        }
    }
}

/// Trimming takes a part out, without white space at its ends.
pub proof fn lemma_trimmed_is_part(s: Seq<char>)
    ensures
        one_line(s) ==> one_line(text::trimmed(s)),
        text::trimmed(text::trimmed(s)) == text::trimmed(s),
        text::trimmed(s).len() > 0 ==> !text::is_space(text::trimmed(s)[0]) && !text::is_space(
            text::trimmed(s).last(),
        ),
{
    lemma_trimmed_start_part(s);
    let t = text::trimmed_start(s);
    lemma_trimmed_end_part(t);
    let r = text::trimmed(s);
    if r.len() > 0 {
        assert(r[0] == t[0]);
    }
}

proof fn lemma_trimmed_start_part(s: Seq<char>)
    ensures
        one_line(s) ==> one_line(text::trimmed_start(s)),
        text::trimmed_start(s).len() > 0 ==> !text::is_space(text::trimmed_start(s)[0]),
    decreases s.len(),
{
    if s.len() > 0 && text::is_space(s[0]) {
        let tail = s.drop_first();
        lemma_trimmed_start_part(tail);
        if one_line(s) {
            assert forall|i: int| 0 <= i < tail.len() implies #[trigger] tail[i] != '\n' by {
                assert(tail[i] == s[i + 1]);
            }
        }
    }
}

proof fn lemma_trimmed_end_part(s: Seq<char>)
    ensures
        one_line(s) ==> one_line(text::trimmed_end(s)),
        text::trimmed_end(s).len() > 0 ==> !text::is_space(text::trimmed_end(s).last())
            && text::trimmed_end(s)[0] == s[0],
    decreases s.len(),
{
    if s.len() > 0 && text::is_space(s.last()) {
        lemma_trimmed_end_part(s.drop_last());
    }
}

/// Headers without line feeds in them and without white space around them.
pub open spec fn plain_headers(headers: Map<Seq<char>, Seq<char>>) -> bool {
    forall|name: Seq<char>| #[trigger]
        headers.contains_key(name) ==> one_line(headers[name]) && text::trimmed(headers[name])
            == headers[name]
}

/// The headers of a message.
pub open spec fn headers_of(m: MessageModel) -> Map<Seq<char>, Seq<char>> {
    match m {
        MessageModel::Request { headers, .. } => headers,
        MessageModel::Response { headers, .. } => headers,
    }
}

/// A part of one line.
proof fn lemma_part_is_one_line(s: Seq<char>, from: int, to: int)
    requires
        one_line(s),
        0 <= from <= to <= s.len(),
    ensures
        one_line(s.subrange(from, to)),
{
}

/// What is read on from plain headers has plain headers.
proof fn lemma_read_on_plain(at: (ReaderState, ReadStep), stream: Seq<u8>)
    requires
        plain_headers(at.0.headers),
        at.1 matches ReadStep::Message(m) ==> plain_headers(headers_of(m)),
    ensures
        reader::read_on(at, stream).0 matches ReadStep::Message(m) ==> plain_headers(
            headers_of(m),
        ),
    decreases
            stream.len(),
            (match at.0.phase {
                ReaderPhase::StartLine => 3nat,
                ReaderPhase::HeaderLine => 2nat,
                ReaderPhase::Body => 1nat,
                ReaderPhase::Finished => 0nat,
            }),
{
    let (s, step) = at;
    if step is ReadLine && (s.phase == ReaderPhase::StartLine || s.phase
        == ReaderPhase::HeaderLine) {
        let n = reader::line_size(stream);
        let bytes = stream.take(n as int);
        reader::lemma_line_size(stream);
        if utf8::valid_utf8(bytes) {
            let line = utf8::decode_utf8(bytes);
            let content = reader::without_line_end(line);
            lemma_content_is_one_line(stream);
            if let Some((name, value)) = text::split_at_first(content, ':') {
                let p = text::position(content, ':') as int;
                assert(value =~= content.subrange(p + 1, content.len() as int));
                lemma_part_is_one_line(content, p + 1, content.len() as int);
                lemma_trimmed_is_part(value);
            }
            let next = reader::step_after_line(s, line);
            if stream.len() == 0 {
                assert(line.len() == 0);
            }
            lemma_read_on_plain(next, stream.skip(n as int));
        } else {
            lemma_read_on_plain(
                reader::step_after_error(s, false, "stream did not contain valid UTF-8"@),
                stream.skip(n as int),
            );
        }
    }
}

/// The headers of a message that is read are plain: no line feed is left in
/// them and no white space around them.
pub proof fn law_read_headers_are_plain(stream: Seq<u8>, m: MessageModel)
    requires
        reader::read_message(stream).0 == ReadStep::Message(m),
    ensures
        plain_headers(headers_of(m)),
{
    lemma_read_on_plain((reader::new_reader(), ReadStep::ReadLine), stream);
}

} // verus!
