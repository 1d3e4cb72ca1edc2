//! RTSP messages, parameters and sessions.
use miracast::config::RtspSourceConfig;
use miracast::error::ErrorCase;
use miracast::fields::FieldMap;
use miracast::params::{
    announcement, build_get_parameter_response, parse_rtsp_parameters,
    parse_transport_client_port, parse_wfd_client_rtp_port_from_params,
};
use miracast::reader::{header, read_rtsp_message, ReadAction, RtspReader};
use miracast::rtsp::{
    write_error, write_headers_and_body, write_request, write_response, RtspMessage,
};
use miracast::session::{presentation_url, RtspSession, SessionAction, SessionNext};

const URL: &str = "rtsp://192.168.49.1:7236/wfd1.0/streamid=0";

fn config() -> RtspSourceConfig {
    RtspSourceConfig {
        bind: String::from("0.0.0.0"),
        port: 7236,
        accept_timeout: None,
        session_timeout: None,
        output: None,
        framerate: 30,
        bitrate_kbps: 8000,
        codec: String::from("libx264"),
        audio: None,
        no_media: false,
        video_formats: String::from("1 2 3"),
    }
}

fn start(config: RtspSourceConfig) -> (RtspSession, String) {
    let (session, action) =
        RtspSession::start(config, String::from("192.168.49.2"), String::from(URL));
    assert!(matches!(action.next, SessionNext::Read));
    (session, action.send.unwrap())
}

/// Hands a message to the session, with the same random numbers each time.
fn hand(session: &mut RtspSession, text: &str) -> SessionAction {
    let (message, size) = read_rtsp_message(text.as_bytes());
    assert_eq!(size, text.len());
    session.on_message_with(message.unwrap().unwrap(), 0xab, 17)
}

fn reply(session: &mut RtspSession, cseq: &str, body: &str) -> Option<String> {
    let action = hand(session, &write_response(cseq, &[], body));
    assert!(matches!(action.next, SessionNext::Read));
    action.send
}

fn request(session: &mut RtspSession, method: &str, headers: &[(&str, &str)]) -> SessionAction {
    hand(session, &write_request(method, "rtsp://x", 9, headers, ""))
}

fn parts(message: RtspMessage) -> (String, FieldMap, String) {
    match message {
        RtspMessage::Request {
            method,
            headers,
            body,
        } => (method, headers, body),
        RtspMessage::Response {
            code,
            headers,
            body,
        } => (code.to_string(), headers, body),
    }
}

#[test]
fn messages_are_written() {
    assert_eq!(
        write_request("SETUP", "rtsp://x", 3, &[("A", "b"), ("C", "d")], "Größe"),
        "SETUP rtsp://x RTSP/1.0\r\nCSeq: 3\r\nA: b\r\nC: d\r\nContent-Length: 7\r\n\r\nGröße"
    );
    assert_eq!(
        write_response("x1", &[], ""),
        "RTSP/1.0 200 OK\r\nCSeq: x1\r\nContent-Length: 0\r\n\r\n"
    );
    assert_eq!(
        write_error("7", 405, "Method Not Allowed"),
        "RTSP/1.0 405 Method Not Allowed\r\nCSeq: 7\r\nContent-Length: 0\r\n\r\n"
    );
    let mut message = String::from("first\r\n");
    write_headers_and_body(&mut message, &[("A", "b")], "body");
    assert_eq!(message, "first\r\nA: b\r\nContent-Length: 4\r\n\r\nbody");
}

#[test]
fn messages_are_read_back() {
    let mut stream = write_request("SETUP", "rtsp://x y", 3, &[(" A ", " b\r")], "Grö\r\nße");
    stream.push_str(&write_response("12", &[("cseq", "13")], ""));
    stream.push_str(&write_error("14", 599, ""));
    let mut rest = stream.as_bytes();
    let mut read = Vec::new();
    loop {
        let (message, size) = read_rtsp_message(rest);
        let Some(message) = message.unwrap() else {
            break;
        };
        rest = &rest[size..];
        read.push(parts(message));
    }
    assert_eq!(read.len(), 3);
    assert_eq!(read[0].0, "SETUP");
    assert_eq!(read[0].1.keys(), ["a", "content-length", "cseq"]);
    assert_eq!(header(&read[0].1, "A").map(String::as_str), Some("b"));
    assert_eq!(header(&read[0].1, "CSeq").map(String::as_str), Some("3"));
    assert_eq!(read[0].2, "Grö\r\nße");
    assert_eq!(read[1].0, "200");
    assert_eq!(header(&read[1].1, "CSeq").map(String::as_str), Some("13"));
    assert_eq!(read[1].2, "");
    assert_eq!(read[2].0, "599");
    assert_eq!(header(&read[2].1, "CSeq").map(String::as_str), Some("14"));
}

#[test]
fn lenient_messages_are_read() {
    let (message, size) = read_rtsp_message(b"PLAY *\nnonsense\nCSEQ :  5 \r\r\n\nrest");
    assert_eq!(size, 30);
    let (method, headers, body) = parts(message.unwrap().unwrap());
    assert_eq!(method, "PLAY");
    assert_eq!(headers.keys(), ["cseq"]);
    assert_eq!(header(&headers, "cseq").map(String::as_str), Some("5"));
    assert_eq!(body, "");
    // A length that is no number counts as none; the stream may end early.
    let (message, size) = read_rtsp_message(b"RTSP/2 +0200\r\nContent-Length: x");
    assert_eq!(size, 31);
    assert_eq!(parts(message.unwrap().unwrap()).0, "200");
}

#[test]
fn streams_end_where_a_message_could_start() {
    for stream in ["", "\r\n", "\n", "\r\r\n\nrest"] {
        let (message, _) = read_rtsp_message(stream.as_bytes());
        assert!(message.unwrap().is_none());
    }
}

#[test]
fn messages_that_cannot_be_read_are_refused() {
    let cases: [(&[u8], ErrorCase, &str, &[&str]); 9] = [
        (
            b"PLAY\r\n\r\n",
            ErrorCase::RequestLine,
            "invalid RTSP request line: PLAY",
            &[],
        ),
        (
            b"  \r\n\r\n",
            ErrorCase::RequestLine,
            "invalid RTSP request line:   ",
            &[],
        ),
        (
            b"RTSP/1.0\r\n\r\n",
            ErrorCase::ResponseLine,
            "invalid RTSP response line: RTSP/1.0",
            &[],
        ),
        (
            b"RTSP/1.0 OK\r\n\r\n",
            ErrorCase::ResponseLine,
            "invalid RTSP response line: RTSP/1.0 OK",
            &[],
        ),
        (
            b"RTSP/1.0 65536 OK\r\n\r\n",
            ErrorCase::ResponseLine,
            "invalid RTSP response line: RTSP/1.0 65536 OK",
            &[],
        ),
        (
            b"\xff\r\n\r\n",
            ErrorCase::System,
            "stream did not contain valid UTF-8",
            &["error reading RTSP start line"],
        ),
        (
            b"PLAY *\r\nA: \xff\r\n\r\n",
            ErrorCase::System,
            "stream did not contain valid UTF-8",
            &["error reading RTSP header"],
        ),
        (
            b"PLAY *\r\nContent-Length: 3\r\n\r\nab",
            ErrorCase::System,
            "failed to fill whole buffer",
            &["error reading RTSP body"],
        ),
        (
            b"PLAY *\r\nContent-Length: 2\r\n\r\na\xff",
            ErrorCase::BodyNotUtf8,
            "invalid utf-8 sequence of 1 bytes from index 1",
            &["RTSP body was not UTF-8"],
        ),
    ];
    for (stream, case, message, contexts) in cases {
        let e = read_rtsp_message(stream).0.unwrap_err();
        assert_eq!(e.case, case);
        assert_eq!(e.message, message);
        assert_eq!(e.contexts, contexts);
    }
}

#[test]
fn silence_ends_a_session_only_between_messages() {
    let mut reader = RtspReader::new();
    assert!(matches!(
        reader.on_error(true, String::from("timed out")),
        ReadAction::Closed
    ));
    let mut reader = RtspReader::new();
    assert!(matches!(
        reader.on_error(false, String::from("reset")),
        ReadAction::Fail(_)
    ));
    let mut reader = RtspReader::new();
    assert!(matches!(reader.on_line("PLAY *\r\n"), ReadAction::ReadLine));
    let ReadAction::Fail(e) = reader.on_error(true, String::from("timed out")) else {
        panic!("expected an error");
    };
    assert_eq!(e.case, ErrorCase::System);
    assert_eq!(e.contexts, ["error reading RTSP header"]);
    let mut reader = RtspReader::new();
    assert!(matches!(reader.on_line("PLAY *\r\n"), ReadAction::ReadLine));
    assert!(matches!(
        reader.on_line("Content-Length: 2\r\n"),
        ReadAction::ReadLine
    ));
    assert!(matches!(reader.on_line("\r\n"), ReadAction::ReadBody(2)));
    let ReadAction::Message(message) = reader.on_body(b"ab".to_vec()) else {
        panic!("expected a message");
    };
    assert_eq!(parts(message).2, "ab");
}

#[test]
fn bodies_are_taken_decoded() {
    for (decoded, body, error) in [
        (Ok(String::from("Größe")), Some("Größe"), None),
        (Err(String::from("cause")), None, Some("cause")),
    ] {
        let mut reader = RtspReader::new();
        reader.on_line("PLAY *\r\n");
        match reader.on_text(decoded) {
            ReadAction::Message(message) => {
                assert_eq!(Some(parts(message).2.as_str()), body);
            }
            ReadAction::Fail(e) => {
                assert_eq!(e.case, ErrorCase::BodyNotUtf8);
                assert_eq!(Some(e.message.as_str()), error);
                assert_eq!(e.contexts, ["RTSP body was not UTF-8"]);
            }
            other => panic!("unexpected {other:?}"),
        }
    }
}

#[test]
fn parameters_are_read() {
    let params = parse_rtsp_parameters(" a : b: c \r\n\r\nname\n:x\na:d\r\n");
    assert_eq!(params.keys(), ["", "a", "name"]);
    assert_eq!(params.get("a").map(String::as_str), Some("d"));
    assert_eq!(params.get("").map(String::as_str), Some("x"));
    assert_eq!(params.get("name").map(String::as_str), Some(""));
}

#[test]
fn ports_are_read_from_parameters() {
    let cases = [
        ("wfd_client_rtp_ports: RTP/AVP/UDP;unicast 1028 0 mode=play", Some(1028)),
        ("wfd_client_rtp_ports: x 65536", None),
        ("wfd_client_rtp_ports: x", None),
        ("wfd_client_rtp_ports", None),
        ("wfd_video_formats: x 1", None),
    ];
    for (body, port) in cases {
        let params = parse_rtsp_parameters(body);
        assert_eq!(parse_wfd_client_rtp_port_from_params(&params), port);
    }
}

#[test]
fn ports_are_read_from_transports() {
    let cases = [
        ("", None),
        ("client_port=1", Some(1)),
        (" client_port=1,2", Some(1)),
        ("a; client_port=3-4 ;client_port=5", Some(3)),
        ("client_port=x;client_port=5", Some(5)),
        ("client_port=70000", None),
        ("Client_Port=1", None),
        ("client_port= 1", None),
        ("client_port=;;client_port=6;", Some(6)),
    ];
    for (transport, port) in cases {
        assert_eq!(parse_transport_client_port(transport), port, "{transport}");
    }
}

#[test]
fn parameters_are_answered() {
    let mut config = config();
    assert_eq!(
        build_get_parameter_response(
            " wfd_client_rtp_ports \r\n\r\nwfd_content_protection\r\nwfd_display_edid\r\n\
             wfd_coupled_sink\r\nother\r\nwfd_audio_codecs",
            &config,
            None,
            URL,
        ),
        "wfd_client_rtp_ports: RTP/AVP/UDP;unicast 19000 0 mode=play\r\n\
         wfd_content_protection: none\r\n\
         wfd_display_edid: none\r\n\
         wfd_coupled_sink: none\r\n\
         other: none\r\n\
         wfd_audio_codecs: none\r\n"
    );
    config.audio = Some(None);
    let all = "wfd_video_formats: 1 2 3\r\n\
               wfd_audio_codecs: AAC 0000000F 00\r\n\
               wfd_presentation_URL: rtsp://192.168.49.1:7236/wfd1.0/streamid=0 none\r\n\
               wfd_client_rtp_ports: RTP/AVP/UDP;unicast 7 0 mode=play\r\n";
    assert_eq!(build_get_parameter_response(" \r\n", &config, Some(7), URL), all);
    assert_eq!(announcement(&config, Some(7), URL), all);
    let params = parse_rtsp_parameters(all);
    assert_eq!(parse_wfd_client_rtp_port_from_params(&params), Some(7));
}

#[test]
fn answers_about_parameters_are_read_back() {
    let mut config = config();
    config.video_formats = String::from(" 1 2: 3 ");
    let request = "other\r\nwfd_video_formats\r\n\r\n wfd_presentation_URL\r\nother\r\n";
    let answer = build_get_parameter_response(request, &config, None, URL);
    let params = parse_rtsp_parameters(&answer);
    assert_eq!(
        params.keys(),
        ["other", "wfd_presentation_URL", "wfd_video_formats"]
    );
    assert_eq!(params.get("other").map(String::as_str), Some("none"));
    assert_eq!(
        params.get("wfd_video_formats").map(String::as_str),
        Some("1 2: 3")
    );
    assert_eq!(
        params.get("wfd_presentation_URL").map(String::as_str),
        Some("rtsp://192.168.49.1:7236/wfd1.0/streamid=0 none")
    );
    // A name with a colon is cut short.
    let answer = build_get_parameter_response("a:b", &config, None, URL);
    assert_eq!(parse_rtsp_parameters(&answer).keys(), ["a"]);
    // The port comes last, whatever stands before it.
    config.video_formats = String::from("1\nwfd_client_rtp_ports: x 5\n");
    let params = parse_rtsp_parameters(&announcement(&config, Some(7), URL));
    assert_eq!(parse_wfd_client_rtp_port_from_params(&params), Some(7));
}

#[test]
fn the_stream_is_presented_under_the_own_address() {
    assert_eq!(presentation_url("192.168.49.1", 7236), URL);
}

#[test]
fn the_handshake_goes_through_all_requests() {
    let (mut session, options) = start(config());
    assert_eq!(
        options,
        "OPTIONS * RTSP/1.0\r\nCSeq: 1\r\nRequire: org.wfa.wfd1.0\r\nContent-Length: 0\r\n\r\n"
    );
    assert_eq!(
        reply(&mut session, "1", "").unwrap(),
        write_request(
            "GET_PARAMETER",
            "rtsp://localhost/wfd1.0",
            2,
            &[("Content-Type", "text/parameters")],
            "wfd_client_rtp_ports\r\nwfd_audio_codecs\r\nwfd_video_formats\r\nwfd_display_edid\r\n",
        )
    );
    assert_eq!(
        reply(&mut session, "2", "wfd_client_rtp_ports: x 1028 0\r\n").unwrap(),
        write_request(
            "SET_PARAMETER",
            "rtsp://localhost/wfd1.0",
            3,
            &[("Content-Type", "text/parameters")],
            &announcement(&config(), Some(1028), URL),
        )
    );
    assert_eq!(
        reply(&mut session, "3", "").unwrap(),
        write_request(
            "SET_PARAMETER",
            "rtsp://localhost/wfd1.0",
            4,
            &[("Content-Type", "text/parameters")],
            "wfd_trigger_method: SETUP\r\n",
        )
    );
    assert_eq!(reply(&mut session, "4", ""), None);
    assert_eq!(reply(&mut session, "4", ""), None);
    assert!(!session.is_finished());
}

#[test]
fn the_handshake_is_not_disturbed() {
    let (mut session, options) = start(config());
    let mut sent = vec![options];
    for cseq in ["2", "1", "1", "3", "2", "4", "3", "x", "4", "5"] {
        request(&mut session, "OPTIONS", &[]);
        request(&mut session, "SETUP", &[]);
        sent.extend(reply(&mut session, cseq, ""));
    }
    let numbers: Vec<String> = sent
        .iter()
        .map(|text| {
            let message = read_rtsp_message(text.as_bytes()).0.unwrap().unwrap();
            let (method, headers, _) = parts(message);
            format!("{method} {}", header(&headers, "cseq").unwrap())
        })
        .collect();
    assert_eq!(
        numbers,
        [
            "OPTIONS 1",
            "GET_PARAMETER 2",
            "SET_PARAMETER 3",
            "SET_PARAMETER 4"
        ]
    );
    request(&mut session, "TEARDOWN", &[]);
    assert!(session.is_finished());
    assert!(session.into_result().teardown_received);
}

#[test]
fn stray_responses_are_passed_over() {
    let (mut session, _) = start(config());
    for cseq in ["0", "2", "x", "", "4294967297"] {
        assert_eq!(reply(&mut session, cseq, ""), None);
    }
    let action = hand(&mut session, "RTSP/1.0 204 x\r\n\r\n");
    assert!(action.send.is_none());
    assert!(reply(&mut session, " +1 ", "").is_some());
}

#[test]
fn refusals_end_the_session() {
    for code in ["199", "300", "404"] {
        let (mut session, _) = start(config());
        let text = format!("RTSP/1.0 {code} x\r\nCSeq: 1\r\nContent-Length: 2\r\n\r\nno");
        let action = hand(&mut session, &text);
        assert!(action.send.is_none());
        let SessionNext::Fail(e) = action.next else {
            panic!("expected an error");
        };
        assert_eq!(e.case, ErrorCase::SinkError);
        assert_eq!(
            e.message,
            format!("Miracast sink returned RTSP error {code}: no")
        );
        assert!(session.is_finished());
    }
}

#[test]
fn requests_are_answered() {
    let (mut session, _) = start(config());
    let action = request(&mut session, "OPTIONS", &[]);
    assert_eq!(
        action.send.unwrap(),
        "RTSP/1.0 200 OK\r\nCSeq: 9\r\nPublic: org.wfa.wfd1.0, OPTIONS, GET_PARAMETER, \
         SET_PARAMETER, SETUP, PLAY, PAUSE, TEARDOWN\r\nContent-Length: 0\r\n\r\n"
    );
    let action = hand(
        &mut session,
        &write_request("SET_PARAMETER", "x", 10, &[], "b: 1\r\na\r\nb: 2\r\n"),
    );
    assert_eq!(
        action.send.unwrap(),
        write_response("10", &[("Content-Type", "text/parameters")], "a\r\nb\r\n")
    );
    let action = hand(&mut session, &write_request("SET_PARAMETER", "x", 11, &[], ":\r\n"));
    assert_eq!(
        action.send.unwrap(),
        write_response("11", &[("Content-Type", "text/parameters")], "")
    );
    let action = hand(&mut session, &write_request("GET_PARAMETER", "x", 12, &[], "a\r\n"));
    assert_eq!(
        action.send.unwrap(),
        write_response("12", &[("Content-Type", "text/parameters")], "a: none\r\n")
    );
    let action = request(&mut session, "DESCRIBE", &[]);
    assert_eq!(action.send.unwrap(), write_error("9", 405, "Method Not Allowed"));
    assert!(matches!(action.next, SessionNext::Read));
    let action = hand(&mut session, "pause x\r\n\r\n");
    assert_eq!(action.send.unwrap(), write_error("0", 405, "Method Not Allowed"));
}

#[test]
fn setups_name_the_session_and_the_ports() {
    let (mut session, _) = start(config());
    let action = request(&mut session, "SETUP", &[]);
    let transport = "RTP/AVP/UDP;unicast;client_port=19000;server_port=50034-50035";
    assert_eq!(
        action.send.unwrap(),
        write_response("9", &[("Session", "niri000000ab"), ("Transport", transport)], "")
    );
    assert_eq!(parse_transport_client_port(transport), Some(19000));
    let action = request(&mut session, "SETUP", &[("Transport", "x;client_port=7-8")]);
    assert_eq!(
        action.send.unwrap(),
        write_response(
            "9",
            &[
                ("Session", "niri000000ab"),
                ("Transport", "RTP/AVP/UDP;unicast;client_port=7;server_port=50034-50035"),
            ],
            "",
        )
    );
    let action = request(&mut session, "PAUSE", &[]);
    assert_eq!(
        action.send.unwrap(),
        write_response("9", &[("Session", "niri000000ab")], "")
    );
}

#[test]
fn setups_draw_their_numbers_from_the_ranges() {
    let mut names = Vec::new();
    for _ in 0..50 {
        let (mut session, _) = start(config());
        let text = write_request("SETUP", "x", 1, &[], "");
        let message = read_rtsp_message(text.as_bytes()).0.unwrap().unwrap();
        let answer = session.on_message(message).send.unwrap();
        let message = read_rtsp_message(answer.as_bytes()).0.unwrap().unwrap();
        let (_, headers, _) = parts(message);
        let name = header(&headers, "session").unwrap().clone();
        assert_eq!(name.len(), 12);
        assert!(name.starts_with("niri"));
        let transport = header(&headers, "transport").unwrap();
        let (_, ports) = transport.split_once("server_port=").unwrap();
        let (first, second) = ports.split_once('-').unwrap();
        let first: u16 = first.parse().unwrap();
        assert!(50000 <= first && first < 52000 && first % 2 == 0);
        assert_eq!(second.parse(), Ok(first + 1));
        names.push((name, first));
    }
    names.sort();
    names.dedup();
    assert!(names.len() > 1);
}

#[test]
fn playing_starts_the_media_pipeline_once() {
    let (mut session, _) = start(config());
    request(&mut session, "SETUP", &[("Transport", "client_port=1028")]);
    let action = request(&mut session, "PLAY", &[]);
    assert_eq!(
        action.send.unwrap(),
        write_response("9", &[("Session", "niri000000ab")], "")
    );
    let SessionNext::StartMedia(command) = action.next else {
        panic!("expected media");
    };
    assert_eq!(command[0], "wf-recorder");
    assert_eq!(
        command.last().map(String::as_str),
        Some("rtp://192.168.49.2:1028?pkt_size=1316")
    );
    assert!(matches!(request(&mut session, "PLAY", &[]).next, SessionNext::Read));
    assert!(matches!(request(&mut session, "PAUSE", &[]).next, SessionNext::StopMedia));
    assert!(matches!(request(&mut session, "PLAY", &[]).next, SessionNext::StartMedia(_)));
    let action = session.on_closed();
    assert!(action.send.is_none());
    assert!(matches!(action.next, SessionNext::Finish));
    assert!(session.is_finished());
    let result = session.into_result();
    assert_eq!(result.peer, "192.168.49.2");
    assert_eq!(result.presentation_url, URL);
    assert_eq!(result.sink_rtp_port, Some(1028));
    assert!(result.media_started);
    assert_eq!(result.media_command, Some(command));
    assert!(!result.teardown_received);
}

#[test]
fn playing_needs_a_port() {
    let (mut session, _) = start(config());
    let action = request(&mut session, "PLAY", &[]);
    assert_eq!(action.send.unwrap(), write_response("9", &[("Session", "niri")], ""));
    let SessionNext::Fail(e) = action.next else {
        panic!("expected an error");
    };
    assert_eq!(e.case, ErrorCase::NoRtpPort);
    assert_eq!(e.message, "sink did not provide an RTP port");
    assert!(session.is_finished());
}

#[test]
fn nothing_is_played_without_media() {
    let mut config = config();
    config.no_media = true;
    let (mut session, _) = start(config);
    assert!(matches!(request(&mut session, "PLAY", &[]).next, SessionNext::Read));
    request(&mut session, "SETUP", &[("Transport", "client_port=1028")]);
    assert!(matches!(request(&mut session, "PLAY", &[]).next, SessionNext::Read));
    assert!(matches!(request(&mut session, "TEARDOWN", &[]).next, SessionNext::Finish));
    let result = session.into_result();
    assert!(!result.media_started);
    assert_eq!(result.media_command, None);
    assert!(result.teardown_received);
}
