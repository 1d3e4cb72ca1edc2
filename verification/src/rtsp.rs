//! RTSP messages and how they are written.
use crate::fields::FieldMap;
use crate::number::{self, push_decimal};
use crate::text;
use vstd::prelude::*;
use vstd::utf8;

verus! {

/// A message that was received.
#[derive(Debug)]
pub enum RtspMessage {
    Request { method: String, headers: FieldMap, body: String },
    Response { code: u16, headers: FieldMap, body: String },
}

/// What a message says.
pub enum MessageModel {
    Request { method: Seq<char>, headers: Map<Seq<char>, Seq<char>>, body: Seq<char> },
    Response { code: u16, headers: Map<Seq<char>, Seq<char>>, body: Seq<char> },
}

impl View for RtspMessage {
    type V = MessageModel;

    open spec fn view(&self) -> MessageModel {
        match self {
            RtspMessage::Request { method, headers, body } => MessageModel::Request {
                method: method@,
                headers: headers@,
                body: body@,
            },
            RtspMessage::Response { code, headers, body } => MessageModel::Response {
                code: *code,
                headers: headers@,
                body: body@,
            },
        }
    }
}

/// The texts of pairs of a name and a value.
pub open spec fn header_texts(headers: Seq<(&str, &str)>) -> Seq<(Seq<char>, Seq<char>)> {
    headers.map_values(|h: (&str, &str)| (h.0@, h.1@))
}

/// Header lines.
pub open spec fn header_lines(headers: Seq<(Seq<char>, Seq<char>)>) -> Seq<char>
    decreases headers.len(),
{
    if headers.len() == 0 {
        Seq::empty()
    } else {
        header_lines(headers.drop_last()) + headers.last().0 + ": "@ + headers.last().1 + "\r\n"@
    }
}

/// What follows the first lines of a message: further headers, the length of
/// the body in bytes, an empty line and the body.
pub open spec fn message_tail(headers: Seq<(Seq<char>, Seq<char>)>, body: Seq<char>) -> Seq<char> {
    header_lines(headers) + "Content-Length: "@ + number::decimal(utf8::encode_utf8(body).len())
        + "\r\n\r\n"@ + body
}

/// A request.
pub open spec fn request_text(
    method: Seq<char>,
    uri: Seq<char>,
    cseq: nat,
    headers: Seq<(Seq<char>, Seq<char>)>,
    body: Seq<char>,
) -> Seq<char> {
    method + " "@ + uri + " RTSP/1.0\r\nCSeq: "@ + number::decimal(cseq) + "\r\n"@ + message_tail(
        headers,
        body,
    )
}

/// A response that reports success.
pub open spec fn response_text(
    cseq: Seq<char>,
    headers: Seq<(Seq<char>, Seq<char>)>,
    body: Seq<char>,
) -> Seq<char> {
    "RTSP/1.0 200 OK\r\nCSeq: "@ + cseq + "\r\n"@ + message_tail(headers, body)
}

/// A response that reports an error.
pub open spec fn error_text(cseq: Seq<char>, code: u16, reason: Seq<char>) -> Seq<char> {
    "RTSP/1.0 "@ + number::decimal(code as nat) + " "@ + reason + "\r\nCSeq: "@ + cseq
        + "\r\nContent-Length: 0\r\n\r\n"@
}

/// Appends further headers, the length of the body, an empty line and the body.
pub fn write_headers_and_body(message: &mut String, headers: &[(&str, &str)], body: &str)
    ensures
        final(message)@ == old(message)@ + message_tail(header_texts(headers@), body@),
{
    let ghost all = header_texts(headers@);
    let mut i: usize = 0;
    assert(message@ =~= old(message)@ + header_lines(all.take(0)));
    while i < headers.len()
        invariant
            i <= headers@.len(),
            all == header_texts(headers@),
            message@ == old(message)@ + header_lines(all.take(i as int)),
        decreases headers@.len() - i,
    {
        let (name, value) = headers[i];
        message.append(name);
        message.append(": ");
        message.append(value);
        message.append("\r\n");
        proof {
            assert(all.take(i + 1).drop_last() == all.take(i as int));
            assert(all.take(i + 1).last() == (name@, value@));
            assert(message@ =~= old(message)@ + header_lines(all.take(i + 1)));
        }
        i = i + 1;
    }
    assert(all.take(i as int) == all);
    message.append("Content-Length: ");
    push_decimal(message, body.as_bytes().len() as u64);
    message.append("\r\n\r\n");
    message.append(body);
    assert(message@ =~= old(message)@ + message_tail(all, body@));
}

/// Writes a request.
pub fn write_request(method: &str, uri: &str, cseq: u32, headers: &[(&str, &str)], body: &str) -> (s:
    String)
    ensures
        s@ == request_text(method@, uri@, cseq as nat, header_texts(headers@), body@),
{
    let mut s: String = method.to_owned();
    s.append(" ");
    s.append(uri);
    s.append(" RTSP/1.0\r\nCSeq: ");
    push_decimal(&mut s, cseq as u64);
    s.append("\r\n");
    write_headers_and_body(&mut s, headers, body);
    s
}

/// Writes a response that reports success.
pub fn write_response(cseq: &str, headers: &[(&str, &str)], body: &str) -> (s: String)
    ensures
        s@ == response_text(cseq@, header_texts(headers@), body@),
{
    let mut s: String = "RTSP/1.0 200 OK\r\nCSeq: ".to_owned();
    s.append(cseq);
    s.append("\r\n");
    write_headers_and_body(&mut s, headers, body);
    s
}

/// Writes a response that reports an error.
pub fn write_error(cseq: &str, code: u16, reason: &str) -> (s: String)
    ensures
        s@ == error_text(cseq@, code, reason@),
{
    let mut s: String = "RTSP/1.0 ".to_owned();
    push_decimal(&mut s, code as u64);
    s.append(" ");
    s.append(reason);
    s.append("\r\nCSeq: ");
    s.append(cseq);
    s.append("\r\nContent-Length: 0\r\n\r\n");
    s
}

/// The first line of a request has the method, the address and the version of
/// the protocol as its words.
pub proof fn law_request_line(
    method: Seq<char>,
    uri: Seq<char>,
    cseq: nat,
    headers: Seq<(Seq<char>, Seq<char>)>,
    body: Seq<char>,
)
    requires
        method.len() > 0,
        uri.len() > 0,
        forall|i: int| 0 <= i < method.len() ==> !text::is_space(#[trigger] method[i]),
        forall|i: int| 0 <= i < uri.len() ==> !text::is_space(#[trigger] uri[i]),
    ensures
        text::words(text::first_line(request_text(method, uri, cseq, headers, body))) == seq![
            method,
            uri,
            "RTSP/1.0"@,
        ],
{
    reveal_strlit(" ");
    reveal_strlit(" RTSP/1.0\r\nCSeq: ");
    reveal_strlit("RTSP/1.0");
    reveal_strlit("\r\n");
    let version = "RTSP/1.0"@;
    let line = method.push(' ') + (uri.push(' ') + version);
    let s = request_text(method, uri, cseq, headers, body);
    let n = line.len() as int + 1;
    assert(s.len() > n);
    assert forall|i: int| 0 <= i < line.len() implies s[i] == line[i] by {
        if i < method.len() {
        } else if i == method.len() {
        } else if i < method.len() + 1 + uri.len() {
        } else {
            let k = i - method.len() - 1 - uri.len();
            assert(s[i] == " RTSP/1.0\r\nCSeq: "@[k]);
            if k > 0 {
                assert(line[i] == version[k - 1]);
            }
        }
    }
    assert(s[n - 1] == " RTSP/1.0\r\nCSeq: "@[9]);
    assert(s[n] == " RTSP/1.0\r\nCSeq: "@[10]);
    assert forall|i: int| 0 <= i < n implies s[i] != '\n' by {
        if i < n - 1 {
            assert(s[i] == line[i]);
            if i < method.len() {
                assert(!text::is_space(method[i]));
            } else if method.len() < i < method.len() + 1 + uri.len() {
                assert(!text::is_space(uri[i - method.len() - 1]));
            } else if i > method.len() + 1 + uri.len() {
                assert(line[i] == version[i - method.len() - uri.len() - 2]);
            }
        }
    }
    text::lemma_position_unique(s, '\n', n);
    assert(s.take(n - 1) =~= line);
    text::law_words(method, ' ', uri.push(' ') + version);
    text::law_words(uri, ' ', version);
    text::law_words(version, ' ', Seq::empty());
    assert(text::words(line) =~= seq![method, uri, version]);
}

/// The first line of a response has the version of the protocol, the code of
/// success and `OK` as its words.
pub proof fn law_response_line(
    cseq: Seq<char>,
    headers: Seq<(Seq<char>, Seq<char>)>,
    body: Seq<char>,
)
    ensures
        text::words(text::first_line(response_text(cseq, headers, body))) == seq![
            "RTSP/1.0"@,
            "200"@,
            "OK"@,
        ],
{
    reveal_strlit("RTSP/1.0 200 OK\r\nCSeq: ");
    reveal_strlit("RTSP/1.0");
    reveal_strlit("200");
    reveal_strlit("OK");
    let s = response_text(cseq, headers, body);
    let start = "RTSP/1.0 200 OK\r\nCSeq: "@;
    let line = "RTSP/1.0"@.push(' ') + ("200"@.push(' ') + "OK"@);
    assert forall|i: int| 0 <= i < 17 implies s[i] == start[i] by {}
    assert(s[16] == '\n' && s[15] == '\r');
    text::lemma_position_unique(s, '\n', 16);
    assert(s.take(15) =~= line);
    text::law_words("RTSP/1.0"@, ' ', "200"@.push(' ') + "OK"@);
    text::law_words("200"@, ' ', "OK"@);
    text::law_words("OK"@, ' ', Seq::empty());
    assert(text::words(line) =~= seq!["RTSP/1.0"@, "200"@, "OK"@]);
}

} // verus!
