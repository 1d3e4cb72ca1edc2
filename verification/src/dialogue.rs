//! What a sink reads of what the source sends, and what it says about ports.
use crate::config::RtspSourceConfig;
use crate::exchange;
use crate::number;
use crate::params;
use crate::reader::{self, ReadStep};
use crate::rtsp::{self, MessageModel};
use crate::session::{self, NextStep, OutgoingRtsp, SessionState, SourceModel};
use crate::text;
use vstd::prelude::*;
use vstd::utf8;

verus! {

/// Headers that can be sent, of which none is the number of the message.
pub open spec fn can_be_added(headers: Seq<(Seq<char>, Seq<char>)>) -> bool {
    &&& exchange::can_send_headers(headers)
    &&& forall|i: int|
        0 <= i < headers.len() ==> text::lowered(text::trimmed((#[trigger] headers[i]).0))
            != "cseq"@
}

/// Headers whose names are not white space, colons or as short as `cseq`.
proof fn lemma_can_be_added(headers: Seq<(Seq<char>, Seq<char>)>)
    requires
        forall|i: int|
            0 <= i < headers.len() ==> {
                let header = #[trigger] headers[i];
                &&& header.0.len() > 4
                &&& exchange::one_line(header.1)
                &&& forall|k: int|
                    0 <= k < header.0.len() ==> !text::is_space(#[trigger] header.0[k])
                        && header.0[k] != ':'
            },
    ensures
        can_be_added(headers),
{
    reveal_strlit("cseq");
    assert forall|i: int| 0 <= i < headers.len() implies {
        &&& exchange::can_send_header(#[trigger] headers[i])
        &&& text::lowered(text::trimmed(headers[i].0)) != "cseq"@
    } by {
        let name = headers[i].0;
        assert forall|k: int| 0 <= k < name.len() implies #[trigger] name[k] != '\n' by {
            assert(!text::is_space(name[k]));
        }
        exchange::lemma_trimmed_same(name);
        assert(text::lowered(name).len() == name.len());
    }
}

/// The header of a body that holds parameters.
proof fn lemma_parameters_header()
    ensures
        can_be_added(session::parameters_header()),
{
    reveal_strlit("Content-Type");
    reveal_strlit("text/parameters");
    lemma_can_be_added(session::parameters_header());
}

/// The name of a session stays on its line.
proof fn lemma_session_name(name: Seq<char>)
    requires
        session::is_session_name(name),
    ensures
        exchange::one_line(name),
{
    reveal_strlit("niri");
    if name != "niri"@ {
        let tag = choose|tag: u32| name == #[trigger] session::session_name(tag);
        lemma_hex_digits(tag as nat, 8);
        let digits = number::hex_digits(tag as nat, 8);
        assert forall|i: int| 0 <= i < name.len() implies #[trigger] name[i] != '\n' by {
            if i >= 4 {
                assert(name[i] == digits[i - 4]);
            }
        }
    }
}

proof fn lemma_hex_digits(n: nat, width: nat)
    ensures
        exchange::one_line(number::hex_digits(n, width)),
    decreases width,
{
    if width > 0 {
        lemma_hex_digits(n / 16, (width - 1) as nat);
    }
}

/// The header that names the session.
proof fn lemma_session_header(s: SessionState)
    requires
        session::well_formed(s),
    ensures
        can_be_added(session::session_header(s)),
{
    reveal_strlit("Session");
    lemma_session_name(s.session_id);
    lemma_can_be_added(session::session_header(s));
}

/// The digits of a number stay on their line.
pub proof fn lemma_decimal_line(n: nat)
    ensures
        exchange::one_line(number::decimal(n)),
{
    number::lemma_decimal_value(n);
    let digits = number::decimal(n);
    assert forall|i: int| 0 <= i < digits.len() implies #[trigger] digits[i] != '\n' by {
        assert(number::is_digit(digits[i]));
    }
}

/// Joined lines are one line.
pub proof fn lemma_joined_line(a: Seq<char>, b: Seq<char>)
    requires
        exchange::one_line(a),
        exchange::one_line(b),
    ensures
        exchange::one_line(a + b),
{
}

/// The headers that answer a setup.
proof fn lemma_setup_headers(tag: u32, port: Option<u16>, offset: u16)
    ensures
        can_be_added(
            seq![
                ("Session"@, session::session_name(tag)),
                ("Transport"@, session::transport_text(port, offset)),
            ],
        ),
{
    reveal_strlit("Session");
    reveal_strlit("Transport");
    reveal_strlit("RTP/AVP/UDP;unicast;client_port=");
    reveal_strlit(";server_port=");
    reveal_strlit("-");
    let client = number::decimal(params::port_or_default(port));
    let first = number::decimal((50000 + offset * 2) as nat);
    let second = number::decimal((50001 + offset * 2) as nat);
    lemma_decimal_line(params::port_or_default(port));
    lemma_decimal_line((50000 + offset * 2) as nat);
    lemma_decimal_line((50001 + offset * 2) as nat);
    let a = "RTP/AVP/UDP;unicast;client_port="@;
    let b = ";server_port="@;
    let c = "-"@;
    lemma_joined_line(a, client);
    lemma_joined_line(a + client, b);
    lemma_joined_line(a + client + b, first);
    lemma_joined_line(a + client + b + first, c);
    lemma_joined_line(a + client + b + first + c, second);
    lemma_session_name(session::session_name(tag));
    lemma_can_be_added(
        seq![
            ("Session"@, session::session_name(tag)),
            ("Transport"@, session::transport_text(port, offset)),
        ],
    );
}

/// The methods that the source knows.
pub open spec fn is_known_method(method: Seq<char>) -> bool {
    ||| method == "OPTIONS"@
    ||| method == "GET_PARAMETER"@
    ||| method == "SET_PARAMETER"@
    ||| method == "SETUP"@
    ||| method == "PLAY"@
    ||| method == "PAUSE"@
    ||| method == "TEARDOWN"@
}

/// The body of an answer.
pub open spec fn answer_body(
    source: SourceModel,
    s: SessionState,
    method: Seq<char>,
    body: Seq<char>,
) -> Seq<char> {
    if method == "GET_PARAMETER"@ {
        params::parameter_lines(
            params::requested_parameters(body),
            source.config,
            s.sink_rtp_port,
            source.presentation_url,
        )
    } else if method == "SET_PARAMETER"@ {
        session::names_text(params::parameters_of(text::lines(body)))
    } else {
        ""@
    }
}

/// Whether a sink that reads `bytes` finds a response with this code, number
/// and body, and then `rest`.
pub open spec fn is_read_as_response(
    bytes: Seq<u8>,
    rest: Seq<u8>,
    code: u16,
    cseq: Seq<char>,
    body: Seq<char>,
) -> bool {
    let (end, size) = reader::read_message(bytes + rest);
    &&& size == bytes.len()
    &&& end matches ReadStep::Message(MessageModel::Response { code: c, headers: h, body: b })
    &&& c == code
    &&& reader::header_value(h, "cseq"@) == Some(cseq)
    &&& b == body
}

/// An answer is read as one.
proof fn lemma_answer_is_read(
    cseq: Seq<char>,
    headers: Seq<(Seq<char>, Seq<char>)>,
    body: Seq<char>,
    rest: Seq<u8>,
)
    requires
        exchange::one_line(cseq),
        text::trimmed(cseq) == cseq,
        can_be_added(headers),
        utf8::encode_utf8(body).len() <= usize::MAX,
    ensures
        is_read_as_response(
            utf8::encode_utf8(rtsp::response_text(cseq, headers, body)),
            rest,
            200,
            cseq,
            body,
        ),
{
    exchange::law_response_is_read_back(cseq, headers, body, rest);
    exchange::law_cseq_is_read_back(cseq, headers, body);
}

/// Every request that is read from a sink is answered, and the sink reads the
/// answer as a response with the number of its request. It reports success if
/// the source knows the method, and that the method is not allowed otherwise.
pub proof fn law_requests_are_answered(
    source: SourceModel,
    s: SessionState,
    stream: Seq<u8>,
    method: Seq<char>,
    headers: Map<Seq<char>, Seq<char>>,
    body: Seq<char>,
    tag: u32,
    offset: u16,
    rest: Seq<u8>,
)
    requires
        session::well_formed(s),
        reader::read_message(stream).0 == ReadStep::Message(
            MessageModel::Request { method, headers, body },
        ),
        utf8::encode_utf8(answer_body(source, s, method, body)).len() <= usize::MAX,
    ensures
        ({
            let send = session::step_after_request(
                source,
                s,
                method,
                headers,
                body,
                tag,
                offset,
            ).1.send;
            let code: u16 = if is_known_method(method) {
                200
            } else {
                405
            };
            &&& send is Some
            &&& is_read_as_response(
                utf8::encode_utf8(send->Some_0),
                rest,
                code,
                session::request_cseq(headers),
                answer_body(source, s, method, body),
            )
        }),
{
    let m = MessageModel::Request { method, headers, body };
    exchange::law_read_headers_are_plain(stream, m);
    let cseq = session::request_cseq(headers);
    assert(exchange::one_line(cseq) && text::trimmed(cseq) == cseq) by {
        reveal_strlit("0");
        exchange::lemma_trimmed_same("0"@);
        if let Some(value) = reader::header_value(headers, "cseq"@) {
            assert(headers.contains_key(text::lowered("cseq"@)));
        }
    }
    let answer = answer_body(source, s, method, body);
    lemma_methods();
    reveal_strlit("");
    assert(""@ =~= Seq::<char>::empty());
    if method == "OPTIONS"@ {
        lemma_options_header();
        lemma_answer_is_read(cseq, seq![("Public"@, session::public_methods())], answer, rest);
    } else if method == "GET_PARAMETER"@ || method == "SET_PARAMETER"@ {
        lemma_parameters_header();
        lemma_answer_is_read(cseq, session::parameters_header(), answer, rest);
    } else if method == "SETUP"@ {
        let port = session::updated_port(s.sink_rtp_port, session::setup_port(headers));
        lemma_setup_headers(tag, port, offset);
        lemma_answer_is_read(
            cseq,
            seq![
                ("Session"@, session::session_name(tag)),
                ("Transport"@, session::transport_text(port, offset)),
            ],
            answer,
            rest,
        );
    } else if method == "PLAY"@ || method == "PAUSE"@ || method == "TEARDOWN"@ {
        lemma_session_header(s);
        lemma_answer_is_read(cseq, session::session_header(s), answer, rest);
    } else {
        reveal_strlit("Method Not Allowed");
        exchange::law_error_is_read_back(cseq, 405, "Method Not Allowed"@, rest);
        exchange::law_cseq_is_read_back(cseq, Seq::empty(), Seq::empty());
    }
}

/// The methods about parameters are told apart from the others by their length.
pub proof fn lemma_methods()
    ensures
        "GET_PARAMETER"@.len() == 13,
        "SET_PARAMETER"@.len() == 13,
        "GET_PARAMETER"@ != "SET_PARAMETER"@,
        "OPTIONS"@.len() < 13,
        "SETUP"@.len() < 13,
        "PLAY"@.len() < 13,
        "PAUSE"@.len() < 13,
        "TEARDOWN"@.len() < 13,
{
    reveal_strlit("OPTIONS");
    reveal_strlit("GET_PARAMETER");
    reveal_strlit("SET_PARAMETER");
    reveal_strlit("SETUP");
    reveal_strlit("PLAY");
    reveal_strlit("PAUSE");
    reveal_strlit("TEARDOWN");
    assert("GET_PARAMETER"@[0] == 'G');
    assert("SET_PARAMETER"@[0] == 'S');
}

/// The header that lists the methods.
proof fn lemma_options_header()
    ensures
        can_be_added(seq![("Public"@, session::public_methods())]),
{
    reveal_strlit("Public");
    reveal_strlit(
        "org.wfa.wfd1.0, OPTIONS, GET_PARAMETER, SET_PARAMETER, SETUP, PLAY, PAUSE, TEARDOWN",
    );
    lemma_can_be_added(seq![("Public"@, session::public_methods())]);
}

/// The method of a request of the source.
pub open spec fn method_of(kind: OutgoingRtsp) -> Seq<char> {
    match kind {
        OutgoingRtsp::Options => "OPTIONS"@,
        OutgoingRtsp::GetParameters => "GET_PARAMETER"@,
        OutgoingRtsp::SetParameters => "SET_PARAMETER"@,
        OutgoingRtsp::TriggerSetup => "SET_PARAMETER"@,
    }
}

/// What the source announces in a session.
pub open spec fn announcement_of(source: SourceModel, port: Option<u16>) -> Seq<char> {
    params::parameter_lines(
        params::announced_parameters(),
        source.config,
        port,
        source.presentation_url,
    )
}

/// The body of a request of the source.
pub open spec fn body_of(kind: OutgoingRtsp, source: SourceModel, port: Option<u16>) -> Seq<char> {
    match kind {
        OutgoingRtsp::Options => ""@,
        OutgoingRtsp::GetParameters =>
            "wfd_client_rtp_ports\r\nwfd_audio_codecs\r\nwfd_video_formats\r\nwfd_display_edid\r\n"@,
        OutgoingRtsp::SetParameters => announcement_of(source, port),
        OutgoingRtsp::TriggerSetup => "wfd_trigger_method: SETUP\r\n"@,
    }
}

/// What the source requests is read by the sink: the method, the number and the
/// body.
pub proof fn law_source_requests_are_read(
    kind: OutgoingRtsp,
    cseq: u32,
    source: SourceModel,
    port: Option<u16>,
    rest: Seq<u8>,
)
    requires
        utf8::encode_utf8(body_of(kind, source, port)).len() <= usize::MAX,
    ensures
        ({
            let bytes = utf8::encode_utf8(session::request_of(kind, cseq, source, port));
            let (end, size) = reader::read_message(bytes + rest);
            &&& size == bytes.len()
            &&& end matches ReadStep::Message(MessageModel::Request { method, headers, body })
            &&& method == method_of(kind)
            &&& reader::header_value(headers, "cseq"@) == Some(number::decimal(cseq as nat))
            &&& body == body_of(kind, source, port)
        }),
{
    reveal_strlit("OPTIONS");
    reveal_strlit("GET_PARAMETER");
    reveal_strlit("SET_PARAMETER");
    reveal_strlit("RTSP/");
    let method = method_of(kind);
    assert(!text::begins_with(method, "RTSP/"@)) by {
        if text::begins_with(method, "RTSP/"@) {
            assert(method.take(5)[0] == 'R');
        }
    }
    let number = number::decimal(cseq as nat);
    number::lemma_decimal_value(cseq as nat);
    assert forall|i: int| 0 <= i < number.len() implies !text::is_space(#[trigger] number[i]) by {
        assert(number::is_digit(number[i]));
    }
    exchange::lemma_trimmed_same(number);
    let body = body_of(kind, source, port);
    if kind == OutgoingRtsp::Options {
        reveal_strlit("*");
        reveal_strlit("Require");
        reveal_strlit("org.wfa.wfd1.0");
        let headers = seq![("Require"@, "org.wfa.wfd1.0"@)];
        lemma_can_be_added(headers);
        exchange::law_request_is_read_back(method, "*"@, cseq as nat, headers, body, rest);
        exchange::law_cseq_is_read_back(number, headers, body);
    } else {
        reveal_strlit("rtsp://localhost/wfd1.0");
        let headers = session::parameters_header();
        lemma_parameters_header();
        exchange::law_request_is_read_back(
            method,
            "rtsp://localhost/wfd1.0"@,
            cseq as nat,
            headers,
            body,
            rest,
        );
        exchange::law_cseq_is_read_back(number, headers, body);
    }
}

/// A sink that answers the open request of a session with its number takes the
/// session to its next request.
pub proof fn law_answer_takes_the_handshake_further(
    source: SourceModel,
    s: SessionState,
    headers: Seq<(Seq<char>, Seq<char>)>,
    body: Seq<char>,
    rest: Seq<u8>,
    tag: u32,
    offset: u16,
)
    requires
        session::well_formed(s),
        s.pending.len() > 0,
        can_be_added(headers),
        utf8::encode_utf8(body).len() <= usize::MAX,
    ensures
        ({
            let newest = (s.next_cseq - 1) as nat;
            let bytes = utf8::encode_utf8(
                rtsp::response_text(number::decimal(newest), headers, body),
            );
            let (end, size) = reader::read_message(bytes + rest);
            &&& size == bytes.len()
            &&& end matches ReadStep::Message(message)
            &&& {
                let (next, step) = session::step_after_message(source, s, message, tag, offset);
                if newest < 4 {
                    &&& next.next_cseq == s.next_cseq + 1
                    &&& step.send == Some(
                        session::request_of(
                            session::numbered_request(s.next_cseq as int),
                            s.next_cseq,
                            source,
                            next.sink_rtp_port,
                        ),
                    )
                } else {
                    &&& next.pending.len() == 0
                    &&& step.send is None
                }
            }
        }),
{
    let newest = (s.next_cseq - 1) as nat;
    let number = number::decimal(newest);
    lemma_decimal_line(newest);
    number::lemma_decimal_value(newest);
    assert forall|i: int| 0 <= i < number.len() implies !text::is_space(#[trigger] number[i]) by {
        assert(number::is_digit(number[i]));
    }
    exchange::lemma_trimmed_same(number);
    exchange::law_response_is_read_back(number, headers, body, rest);
    exchange::law_cseq_is_read_back(number, headers, body);
    number::law_decimal_is_read_back(newest, u32::MAX as nat);
    let received = exchange::received_headers(exchange::sent_headers(number, headers, body));
    if s.pending == Map::<u32, OutgoingRtsp>::empty() {
        assert(s.pending.len() == 0);
    }
    assert(s.pending.contains_key(newest as u32));
    session::law_handshake_goes_on(source, s, 200, received, body);
}

/// A sink that stays silent for as long as a session may be idle, or closes the
/// connection, ends the session well. It does not count as a teardown.
pub proof fn law_silence_ends_the_session(source: SourceModel, s: SessionState, message: Seq<char>)
    requires
        !s.teardown_received,
    ensures
        reader::step_after_error(reader::new_reader(), true, message).1 == ReadStep::Closed,
        reader::read_message(Seq::empty()) == (ReadStep::Closed, 0nat),
        session::step_after_close(s).1.next == NextStep::Finish,
        !session::report_of(source, session::step_after_close(s).0).teardown_received,
{
    let stream = Seq::<u8>::empty();
    assert(stream.take(0) =~= stream);
    assert(utf8::decode_utf8(stream) =~= Seq::<char>::empty());
    reveal_with_fuel(reader::read_on, 2);
}

/// The lines of a text that starts with a line.
pub proof fn lemma_lines_of(line: Seq<char>, rest: Seq<char>)
    requires
        exchange::one_line(line),
    ensures
        text::lines(line + "\r\n"@ + rest) == seq![line] + text::lines(rest),
{
    reveal_strlit("\r\n");
    let s = line + "\r\n"@ + rest;
    let n = line.len() as int + 1;
    assert(s[n] == '\n');
    assert(s[n - 1] == '\r');
    assert forall|i: int| 0 <= i < n implies s[i] != '\n' by {
        if i < line.len() {
            assert(s[i] == line[i]);
        }
    }
    text::lemma_position_unique(s, '\n', n);
    assert(s.take(n - 1) =~= line);
    assert(s.skip(n + 1) =~= rest);
}

/// The lines of a text whose first part ends with a line.
pub proof fn lemma_lines_concat(a: Seq<char>, b: Seq<char>)
    requires
        a.len() > 0 ==> a.last() == '\n',
    ensures
        text::lines(a + b) == text::lines(a) + text::lines(b),
    decreases a.len(),
{
    if a.len() == 0 {
        assert(a + b =~= b);
        assert(text::lines(a) + text::lines(b) =~= text::lines(b));
    } else {
        let s = a + b;
        text::lemma_position(a, '\n');
        let n = text::position(a, '\n') as int;
        if n == a.len() {
            assert(a[n - 1] != '\n');
        }
        assert forall|i: int| 0 <= i < n implies s[i] != '\n' by {
            assert(s[i] == a[i]);
        }
        text::lemma_position_unique(s, '\n', n);
        let rest = a.skip(n + 1);
        assert(s.take(n) =~= a.take(n));
        if n > 0 {
            assert(s.take(n - 1) =~= a.take(n - 1));
        }
        assert(s.skip(n + 1) =~= rest + b);
        if rest.len() > 0 {
            assert(rest.last() == a.last());
        }
        lemma_lines_concat(rest, b);
        assert(text::lines(s) =~= text::lines(a) + text::lines(b));
    }
}

/// White space at the end is only dropped from behind.
pub proof fn lemma_trimmed_end_after(a: Seq<char>, w: Seq<char>)
    requires
        a.len() > 0,
        !text::is_space(a.last()),
    ensures
        text::trimmed_end(a + w) == a + text::trimmed_end(w),
    decreases w.len(),
{
    if w.len() == 0 {
        assert(a + w =~= a);
    } else {
        assert((a + w).last() == w.last());
        assert((a + w).drop_last() =~= a + w.drop_last());
        lemma_trimmed_end_after(a, w.drop_last());
    }
}

/// White space at the end can be dropped first.
pub proof fn lemma_trimmed_of_trimmed_end(w: Seq<char>)
    ensures
        text::trimmed(text::trimmed_end(w)) == text::trimmed(w),
    decreases w.len(),
{
    if w.len() > 0 && text::is_space(w.last()) {
        let front = w.drop_last();
        lemma_trimmed_of_trimmed_end(front);
        assert(w =~= front.push(w.last()));
        exchange::lemma_trimmed_start_push(front, w.last());
        let start = text::trimmed_start(front);
        if start.len() > 0 {
            assert(start.push(w.last()).drop_last() =~= start);
        }
    }
}

/// A name that is read back from the line of its parameter.
pub open spec fn is_parameter_name(name: Seq<char>) -> bool {
    &&& name.len() > 0
    &&& !text::is_space(name[0])
    &&& !text::is_space(name.last())
    &&& exchange::one_line(name)
    &&& forall|i: int| 0 <= i < name.len() ==> #[trigger] name[i] != ':'
}

/// What is read of the line of a parameter.
pub proof fn lemma_parameter_is_read(
    before: Map<Seq<char>, Seq<char>>,
    name: Seq<char>,
    value: Seq<char>,
)
    requires
        is_parameter_name(name),
    ensures
        params::with_parameter_line(before, name + ": "@ + value) == before.insert(
            name,
            text::trimmed(value),
        ),
{
    reveal_strlit(": ");
    let line = name + ": "@ + value;
    let head = name.push(':');
    let tail = seq![' '] + value;
    assert(line =~= head + tail);
    assert(line[0] == name[0]);
    lemma_trimmed_end_after(head, tail);
    let content = head + text::trimmed_end(tail);
    assert(text::trimmed(line) == content);
    let n = name.len() as int;
    assert(content[n] == ':');
    assert forall|i: int| 0 <= i < n implies content[i] != ':' by {
        assert(content[i] == name[i]);
    }
    text::lemma_position_unique(content, ':', n);
    assert(content.take(n) =~= name);
    assert(content.skip(n + 1) =~= text::trimmed_end(tail));
    assert(text::trimmed(name) == name);
    lemma_trimmed_of_trimmed_end(tail);
    assert(tail.drop_first() =~= value);
}

/// What is read of a parameter that the source answered or announced.
pub open spec fn parameter_value(
    name: Seq<char>,
    c: RtspSourceConfig,
    port: Option<u16>,
    url: Seq<char>,
) -> Seq<char> {
    if name == "wfd_video_formats"@ {
        text::trimmed(c.video_formats@)
    } else if name == "wfd_audio_codecs"@ {
        params::audio_codecs(c.audio)
    } else if name == "wfd_presentation_URL"@ {
        text::trimmed(url + " none"@)
    } else if name == "wfd_client_rtp_ports"@ {
        "RTP/AVP/UDP;unicast "@ + number::decimal(params::port_or_default(port)) + " 0 mode=play"@
    } else {
        "none"@
    }
}

/// The parameters that are read of what the source says about some names.
pub open spec fn read_parameters(
    names: Seq<Seq<char>>,
    c: RtspSourceConfig,
    port: Option<u16>,
    url: Seq<char>,
) -> Map<Seq<char>, Seq<char>> {
    Map::new(
        |name: Seq<char>| names.contains(name),
        |name: Seq<char>| parameter_value(name, c, port, url),
    )
}

/// Whether the source says something about a name that stays on its line.
pub open spec fn stays_on_its_line(
    name: Seq<char>,
    c: RtspSourceConfig,
    url: Seq<char>,
) -> bool {
    &&& name == "wfd_video_formats"@ ==> exchange::one_line(c.video_formats@)
    &&& name == "wfd_presentation_URL"@ ==> exchange::one_line(url)
}

/// The line of a parameter, by its name and its value.
pub proof fn lemma_parameter_line(
    name: Seq<char>,
    c: RtspSourceConfig,
    port: Option<u16>,
    url: Seq<char>,
) -> (value: Seq<char>)
    ensures
        params::parameter_line(name, c, port, url) == name + ": "@ + value + "\r\n"@,
        text::trimmed(value) == parameter_value(name, c, port, url),
        stays_on_its_line(name, c, url) ==> exchange::one_line(value),
{
    reveal_strlit(": ");
    reveal_strlit("\r\n");
    reveal_strlit(" none");
    if name == "wfd_video_formats"@ {
        reveal_strlit("wfd_video_formats");
        reveal_strlit("wfd_video_formats: ");
        let value = c.video_formats@;
        assert(params::parameter_line(name, c, port, url) =~= name + ": "@ + value + "\r\n"@);
        value
    } else if name == "wfd_audio_codecs"@ {
        reveal_strlit("wfd_audio_codecs");
        reveal_strlit("wfd_audio_codecs: ");
        reveal_strlit("AAC 0000000F 00");
        reveal_strlit("none");
        let value = params::audio_codecs(c.audio);
        assert(params::parameter_line(name, c, port, url) =~= name + ": "@ + value + "\r\n"@);
        assert(!text::is_space(value[0]) && !text::is_space(value.last()));
        assert(exchange::one_line(value));
        value
    } else if name == "wfd_presentation_URL"@ {
        reveal_strlit("wfd_presentation_URL");
        reveal_strlit("wfd_presentation_URL: ");
        reveal_strlit(" none\r\n");
        let value = url + " none"@;
        assert(params::parameter_line(name, c, port, url) =~= name + ": "@ + value + "\r\n"@);
        value
    } else if name == "wfd_client_rtp_ports"@ {
        reveal_strlit("wfd_client_rtp_ports");
        reveal_strlit("wfd_client_rtp_ports: RTP/AVP/UDP;unicast ");
        reveal_strlit("RTP/AVP/UDP;unicast ");
        reveal_strlit(" 0 mode=play");
        reveal_strlit(" 0 mode=play\r\n");
        let digits = number::decimal(params::port_or_default(port));
        let value = "RTP/AVP/UDP;unicast "@ + digits + " 0 mode=play"@;
        lemma_decimal_line(params::port_or_default(port));
        lemma_joined_line("RTP/AVP/UDP;unicast "@, digits);
        lemma_joined_line("RTP/AVP/UDP;unicast "@ + digits, " 0 mode=play"@);
        assert(params::parameter_line(name, c, port, url) =~= name + ": "@ + value + "\r\n"@);
        assert(value[0] == 'R' && value.last() == 'y');
        value
    } else {
        reveal_strlit("none");
        reveal_strlit(": none\r\n");
        let value = "none"@;
        assert(params::parameter_line(name, c, port, url) =~= name + ": "@ + value + "\r\n"@);
        assert(value[0] == 'n' && value.last() == 'e');
        assert(exchange::one_line(value));
        value
    }
}

/// What the source says about parameters ends with a line.
pub proof fn lemma_parameter_lines_end(
    names: Seq<Seq<char>>,
    c: RtspSourceConfig,
    port: Option<u16>,
    url: Seq<char>,
)
    ensures
        params::parameter_lines(names, c, port, url).len() > 0 ==> params::parameter_lines(
            names,
            c,
            port,
            url,
        ).last() == '\n',
{
    if names.len() > 0 {
        reveal_strlit("\r\n");
        let value = lemma_parameter_line(names.last(), c, port, url);
    }
}

/// The parameters of a longer list of lines.
pub proof fn lemma_parameters_push(lines: Seq<Seq<char>>, line: Seq<char>)
    ensures
        params::parameters_of(lines + seq![line]) == params::with_parameter_line(
            params::parameters_of(lines),
            line,
        ),
{
    assert((lines + seq![line]).drop_last() =~= lines);
}

/// What is read of one parameter more.
pub proof fn lemma_read_one_more(
    front: Seq<char>,
    name: Seq<char>,
    c: RtspSourceConfig,
    port: Option<u16>,
    url: Seq<char>,
)
    requires
        front.len() > 0 ==> front.last() == '\n',
        is_parameter_name(name),
        stays_on_its_line(name, c, url),
    ensures
        params::parameters_of(
            text::lines(front + params::parameter_line(name, c, port, url)),
        ) == params::parameters_of(text::lines(front)).insert(
            name,
            parameter_value(name, c, port, url),
        ),
{
    let value = lemma_parameter_line(name, c, port, url);
    let content = name + ": "@ + value;
    let line = params::parameter_line(name, c, port, url);
    reveal_strlit(": ");
    lemma_joined_line(name, ": "@);
    lemma_joined_line(name + ": "@, value);
    lemma_lines_of(content, Seq::empty());
    assert(content + "\r\n"@ + Seq::<char>::empty() =~= line);
    assert(text::lines(Seq::<char>::empty()) =~= Seq::<Seq<char>>::empty());
    assert(text::lines(line) =~= seq![content]);
    lemma_lines_concat(front, line);
    lemma_parameters_push(text::lines(front), content);
    lemma_parameter_is_read(params::parameters_of(text::lines(front)), name, value);
}

/// What is read of what the source says about some names.
pub proof fn lemma_read_parameters(
    names: Seq<Seq<char>>,
    c: RtspSourceConfig,
    port: Option<u16>,
    url: Seq<char>,
)
    requires
        forall|k: int|
            0 <= k < names.len() ==> is_parameter_name(#[trigger] names[k]) && stays_on_its_line(
                names[k],
                c,
                url,
            ),
    ensures
        params::parameters_of(text::lines(params::parameter_lines(names, c, port, url)))
            == read_parameters(names, c, port, url),
    decreases names.len(),
{
    let body = params::parameter_lines(names, c, port, url);
    let read = params::parameters_of(text::lines(body));
    if names.len() == 0 {
        assert(read =~= read_parameters(names, c, port, url));
    } else {
        let front = names.drop_last();
        let last = names.last();
        assert forall|k: int| 0 <= k < front.len() implies is_parameter_name(#[trigger] front[k])
            && stays_on_its_line(front[k], c, url) by {
            assert(front[k] == names[k]);
        }
        assert(is_parameter_name(names[names.len() - 1]));
        lemma_read_parameters(front, c, port, url);
        lemma_parameter_lines_end(front, c, port, url);
        lemma_read_one_more(
            params::parameter_lines(front, c, port, url),
            last,
            c,
            port,
            url,
        );
        assert forall|name: Seq<char>| names.contains(name) == (front.contains(name) || name
            == last) by {
            if names.contains(name) {
                let k = choose|k: int| 0 <= k < names.len() && names[k] == name;
                if k < front.len() {
                    assert(front[k] == name);
                }
            }
            if front.contains(name) {
                let k = choose|k: int| 0 <= k < front.len() && front[k] == name;
                assert(names[k] == name);
            }
            if name == last {
                assert(names[names.len() - 1] == name);
            }
        }
        assert(read =~= read_parameters(names, c, port, url));
    }
}

/// The announced parameters have names that are read back.
pub proof fn lemma_announced_names()
    ensures
        forall|k: int|
            0 <= k < 4 ==> is_parameter_name(#[trigger] params::announced_parameters()[k]),
        params::announced_parameters().len() == 4,
{
    reveal_strlit("wfd_video_formats");
    reveal_strlit("wfd_audio_codecs");
    reveal_strlit("wfd_presentation_URL");
    reveal_strlit("wfd_client_rtp_ports");
}

/// Every line is one line.
pub proof fn lemma_lines_are_lines(s: Seq<char>, k: int)
    requires
        0 <= k < text::lines(s).len(),
    ensures
        exchange::one_line(text::lines(s)[k]),
    decreases s.len(),
{
    if s.len() > 0 {
        text::lemma_position(s, '\n');
        if k == 0 {
            let line = text::first_line(s);
            assert forall|i: int| 0 <= i < line.len() implies #[trigger] line[i] != '\n' by {
                assert(line[i] == s[i]);
            }
        } else {
            lemma_lines_are_lines(text::after_line(s), k - 1);
        }
    }
}

/// Whether no line of a request for parameters has a colon.
pub open spec fn names_no_colon(request: Seq<char>) -> bool {
    forall|k: int, i: int|
        #![trigger text::trimmed_lines(request)[k][i]]
        0 <= k < text::trimmed_lines(request).len() && 0 <= i < text::trimmed_lines(
            request,
        )[k].len() ==> text::trimmed_lines(request)[k][i] != ':'
}

/// The names that a request asks for are read back.
proof fn lemma_requested_names(request: Seq<char>, k: int)
    requires
        names_no_colon(request),
        0 <= k < params::requested_parameters(request).len(),
    ensures
        is_parameter_name(params::requested_parameters(request)[k]),
{
    let all = text::trimmed_lines(request);
    let keep = |line: Seq<char>| line.len() > 0;
    let names = all.filter(keep);
    if names.len() == 0 {
        lemma_announced_names();
    } else {
        let name = names[k];
        all.lemma_filter_pred(keep, k);
        all.lemma_filter_contains_rev(keep, name);
        let j = choose|j: int| 0 <= j < all.len() && all[j] == name;
        assert(name == text::trimmed(text::lines(request)[j]));
        lemma_lines_are_lines(request, j);
        exchange::lemma_trimmed_is_part(text::lines(request)[j]);
        assert forall|i: int| 0 <= i < name.len() implies #[trigger] name[i] != ':' by {
            assert(text::trimmed_lines(request)[j][i] != ':');
        }
    }
}

/// The answer to a request for parameters is read back: it has exactly the
/// names that were asked for, or those that the source announces if none was,
/// each with what the source says about it. That is `none` for a name that the
/// source does not know.
pub proof fn law_parameters_are_read_back(
    request: Seq<char>,
    c: RtspSourceConfig,
    port: Option<u16>,
    url: Seq<char>,
)
    requires
        names_no_colon(request),
        params::requested_parameters(request).contains("wfd_video_formats"@)
            ==> exchange::one_line(c.video_formats@),
        params::requested_parameters(request).contains("wfd_presentation_URL"@)
            ==> exchange::one_line(url),
    ensures
        ({
            let names = params::requested_parameters(request);
            let read = params::parameters_of(
                text::lines(params::parameter_lines(names, c, port, url)),
            );
            &&& read == read_parameters(names, c, port, url)
            &&& forall|name: Seq<char>| #[trigger] read.contains_key(name) <==> names.contains(name)
            &&& forall|name: Seq<char>| #[trigger]
                read.contains_key(name) && !params::announced_parameters().contains(name)
                    ==> read[name] == "none"@
        }),
{
    let names = params::requested_parameters(request);
    assert forall|k: int| 0 <= k < names.len() implies is_parameter_name(#[trigger] names[k])
        && stays_on_its_line(names[k], c, url) by {
        lemma_requested_names(request, k);
        assert(names.contains(names[k]));
    }
    lemma_read_parameters(names, c, port, url);
    let all = params::announced_parameters();
    assert(all[0] == "wfd_video_formats"@ && all.contains(all[0]));
    assert(all[1] == "wfd_audio_codecs"@ && all.contains(all[1]));
    assert(all[2] == "wfd_presentation_URL"@ && all.contains(all[2]));
    assert(all[3] == "wfd_client_rtp_ports"@ && all.contains(all[3]));
}

/// The port that the source announces is the one that is read of it: the port
/// of the sink, or the default one as long as that is unknown.
pub proof fn law_announced_port_is_read_back(
    c: RtspSourceConfig,
    port: Option<u16>,
    url: Seq<char>,
)
    ensures
        params::parameter_port(
            params::parameters_of(
                text::lines(
                    params::parameter_lines(params::announced_parameters(), c, port, url),
                ),
            ),
        ) == Some(params::port_or_default(port)),
{
    let names = params::announced_parameters();
    let front = names.drop_last();
    let p = params::port_or_default(port);
    let body = params::parameter_lines(front, c, port, url);
    lemma_announced_names();
    assert(names.last() == names[3]);
    reveal_strlit("wfd_video_formats");
    reveal_strlit("wfd_audio_codecs");
    reveal_strlit("wfd_presentation_URL");
    reveal_strlit("wfd_client_rtp_ports");
    assert("wfd_video_formats"@.len() == 17 && "wfd_client_rtp_ports"@.len() == 20);
    assert("wfd_presentation_URL"@[4] == 'p' && "wfd_client_rtp_ports"@[4] == 'c');
    lemma_parameter_lines_end(front, c, port, url);
    lemma_read_one_more(body, names.last(), c, port, url);
    lemma_port_value(p);
}

/// The second word of the value that names a port.
pub proof fn lemma_port_value(p: nat)
    requires
        p <= u16::MAX,
    ensures
        ({
            let value = "RTP/AVP/UDP;unicast "@ + number::decimal(p) + " 0 mode=play"@;
            &&& text::nth_word(value, 1) == Some(number::decimal(p))
            &&& number::number(number::decimal(p), u16::MAX as nat) == Some(p)
        }),
{
    reveal_strlit("RTP/AVP/UDP;unicast ");
    reveal_strlit("RTP/AVP/UDP;unicast");
    reveal_strlit(" 0 mode=play");
    let digits = number::decimal(p);
    number::lemma_decimal_value(p);
    number::law_decimal_is_read_back(p, u16::MAX as nat);
    let after = seq![' '] + (digits + " 0 mode=play"@);
    assert("RTP/AVP/UDP;unicast "@ + digits + " 0 mode=play"@ =~= "RTP/AVP/UDP;unicast"@ + after);
    exchange::lemma_words_of("RTP/AVP/UDP;unicast"@, after);
    assert(after.drop_first() =~= digits + " 0 mode=play"@);
    assert forall|i: int| 0 <= i < digits.len() implies !text::is_space(#[trigger] digits[i]) by {
        assert(number::is_digit(digits[i]));
    }
    exchange::lemma_words_of(digits, " 0 mode=play"@);
}

/// The port that the answer to a setup names for the client is the one that is
/// read of it: the port of the sink, or the default one as long as that is
/// unknown.
pub proof fn law_transport_port_is_read_back(port: Option<u16>, offset: u16)
    ensures
        params::transport_port(session::transport_text(port, offset)) == Some(
            params::port_or_default(port),
        ),
{
    reveal_strlit("RTP/AVP/UDP;unicast;client_port=");
    reveal_strlit("client_port=");
    reveal_strlit(";server_port=");
    let p = params::port_or_default(port);
    let number = number::decimal(p);
    let s = session::transport_text(port, offset);
    number::lemma_decimal_value(p);
    number::law_decimal_is_read_back(p, u16::MAX as nat);
    // The parts in front name no port.
    let first = s.take(11);
    assert(s[11] == ';');
    text::lemma_position_unique(s, ';', 11);
    assert(first[0] == 'R');
    assert(first.last() == 'P');
    assert(text::trimmed(first) == first);
    assert(!text::begins_with(first, "client_port="@));
    let s2 = s.skip(12);
    let second = s2.take(7);
    assert(s2[7] == ';');
    text::lemma_position_unique(s2, ';', 7);
    assert(second[0] == 'u');
    assert(second.last() == 't');
    assert(text::trimmed(second) == second);
    assert(!text::begins_with(second, "client_port="@));
    // The next one does.
    let s3 = s2.skip(8);
    let part = "client_port="@ + number;
    let n = part.len() as int;
    assert(s3[n] == ';');
    assert forall|i: int| 0 <= i < n implies s3[i] != ';' by {
        assert(s3[i] == part[i]);
        if i >= 12 {
            assert(number::is_digit(number[i - 12]));
        }
    }
    text::lemma_position_unique(s3, ';', n);
    assert(s3.take(n) =~= part);
    assert(part[0] == 'c');
    assert(number::is_digit(number[number.len() - 1]));
    assert(part.last() == number[number.len() - 1]);
    assert(text::trimmed(part) == part);
    assert(part.take(12) =~= "client_port="@);
    assert(part.skip(12) =~= number);
    assert forall|i: int| 0 <= i < number.len() implies number[i] != '-' && number[i] != ',' by {
        assert(number::is_digit(number[i]));
    }
    text::lemma_position_unique(number, '-', number.len() as int);
    text::lemma_position_unique(number, ',', number.len() as int);
    assert(number.take(number.len() as int) =~= number);
    reveal_with_fuel(params::transport_port, 3);
}

} // verus!
