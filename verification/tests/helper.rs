//! The parsers and builders of the helper, on typical input.
use miracast::config::{build_wf_recorder_args, validate_video_formats, RtspSourceConfig};
use miracast::connect::{build_connect_command, ConnectOptions};
use miracast::device::parse_wfd_rtsp_port;
use miracast::fields::FieldMap;
use miracast::params::{
    build_get_parameter_response, parse_rtsp_parameters, parse_transport_client_port,
    parse_wfd_client_rtp_port_from_params,
};
use miracast::peer::{parse_peer_addresses, parse_peer_details};
use miracast::reader::{header, read_rtsp_message};
use miracast::rtsp::{write_response, RtspMessage};
use miracast::session::{presentation_url, RtspSession, SessionNext};
use miracast::wpa::parse_interfaces;

fn test_rtsp_config() -> RtspSourceConfig {
    RtspSourceConfig {
        bind: String::from("127.0.0.1"),
        port: 7236,
        accept_timeout: Some(1),
        session_timeout: Some(1),
        output: Some(String::from("eDP-1")),
        framerate: 30,
        bitrate_kbps: 6000,
        codec: String::from("libx264"),
        audio: None,
        no_media: true,
        video_formats: String::from(
            "00 00 01 01 00000020 00000000 00000000 00 0000 0000 00 none none",
        ),
    }
}

#[test]
fn parses_peer_addresses() {
    let peers = parse_peer_addresses(
        r#"
            aa:bb:cc:dd:ee:ff
            selected interface 'wlan0'
            12:34:56:78:9a:bc
            "#,
    );

    assert_eq!(peers, ["aa:bb:cc:dd:ee:ff", "12:34:56:78:9a:bc"]);
}

#[test]
fn parses_wpa_cli_interfaces() {
    let interfaces = parse_interfaces(
        r#"
            Selected interface 'wlan0'
            Available interfaces:
            wlan0
            p2p-dev-wlan0
            p2p-wlan0-0
            "#,
    );

    assert_eq!(interfaces, ["wlan0", "p2p-dev-wlan0", "p2p-wlan0-0"]);
}

#[test]
fn parses_rtsp_parameters_and_transport_ports() {
    let params = parse_rtsp_parameters(
        "wfd_client_rtp_ports: RTP/AVP/UDP;unicast 19000 0 mode=play\r\n\
         wfd_video_formats\r\n",
    );

    assert_eq!(parse_wfd_client_rtp_port_from_params(&params), Some(19000));
    assert_eq!(
        parse_transport_client_port("RTP/AVP/UDP;unicast;client_port=19000-19001;server_port=0-0"),
        Some(19000)
    );
}

#[test]
fn builds_get_parameter_response() {
    let config = test_rtsp_config();
    let body = build_get_parameter_response(
        "wfd_video_formats\r\nwfd_audio_codecs\r\nwfd_presentation_URL\r\n",
        &config,
        Some(19000),
        "rtsp://192.168.49.1:7236/wfd1.0/streamid=0",
    );

    assert!(body.contains("wfd_video_formats: 00 00 01 01"));
    assert!(body.contains("wfd_audio_codecs: none"));
    assert!(body.contains("wfd_presentation_URL: rtsp://192.168.49.1:7236/wfd1.0/streamid=0 none"));
}

#[test]
fn parses_wfd_peer_details() {
    let peer = parse_peer_details(
        "aa:bb:cc:dd:ee:ff",
        r#"
            device_name=Living Room TV
            pri_dev_type=7-0050F204-1
            config_methods=0x188
            manufacturer=Example
            model_name=Sink
            wfd_rtsp_ctrlport=7236
            wfd_session_avail=1
            "#,
    );

    assert_eq!(peer.name.as_deref(), Some("Living Room TV"));
    assert!(peer.is_miracast);
    assert_eq!(peer.rtsp_port, Some(7236));
    assert_eq!(peer.model_name.as_deref(), Some("Sink"));
}

#[test]
fn parses_rtsp_port_from_wfd_subelements() {
    // Subelement id 0, length 6, WFD device info 0x0011, RTSP port 7236,
    // throughput 50.
    assert_eq!(parse_wfd_rtsp_port("00000600111c440032"), Some(7236));
    // `wfd_subelem_get 0` omits the subelement id but keeps the length.
    assert_eq!(parse_wfd_rtsp_port("000600111c440032"), Some(7236));
    // Some command outputs omit both the subelement id and length.
    assert_eq!(parse_wfd_rtsp_port("00111c440032"), Some(7236));
}

#[test]
fn builds_pbc_connect_command() {
    let options = ConnectOptions {
        peer: String::from("aa:bb:cc:dd:ee:ff"),
        timeout: 1,
        pin: None,
        display_pin: false,
        persistent: true,
        join: false,
        provdisc: true,
        auto: true,
        go_intent: Some(0),
        freq: Some(2412),
        no_wfd: false,
        wfd_device_info: String::from("000600111c440032"),
    };

    assert_eq!(
        build_connect_command(&options),
        [
            "p2p_connect",
            "aa:bb:cc:dd:ee:ff",
            "pbc",
            "persistent",
            "provdisc",
            "auto",
            "go_intent=0",
            "freq=2412"
        ]
    );
}

#[test]
fn builds_pin_connect_command() {
    let options = ConnectOptions {
        peer: String::from("aa:bb:cc:dd:ee:ff"),
        timeout: 1,
        pin: Some(String::from("12345670")),
        display_pin: false,
        persistent: false,
        join: true,
        provdisc: false,
        auto: false,
        go_intent: None,
        freq: None,
        no_wfd: false,
        wfd_device_info: String::from("000600111c440032"),
    };

    assert_eq!(
        build_connect_command(&options),
        [
            "p2p_connect",
            "aa:bb:cc:dd:ee:ff",
            "12345670",
            "keypad",
            "join"
        ]
    );
}

#[test]
fn builds_wf_recorder_rtp_command() {
    let config = test_rtsp_config();
    let args = build_wf_recorder_args(&config, "192.168.49.2", 19000);

    assert!(args.contains(&String::from("--output")));
    assert!(args.contains(&String::from("eDP-1")));
    assert!(args.contains(&String::from("rtp_mpegts")));
    assert!(args.contains(&String::from("libx264")));
    assert!(args.contains(&String::from("b=6000k")));
    assert_eq!(
        args.last().map(String::as_str),
        Some("rtp://192.168.49.2:19000?pkt_size=1316")
    );
}

#[test]
fn validates_video_format_field_count() {
    assert!(validate_video_formats(
        "00 00 01 01 00000020 00000000 00000000 00 0000 0000 00 none none"
    )
    .is_ok());
    assert!(validate_video_formats("00 00 01").is_err());
}

/// A sink that reads what the source sends and answers it, without a network
/// in between.
struct Sink {
    session: RtspSession,
    finished: bool,
    /// What the source sent and the sink did not read yet.
    received: Vec<u8>,
}

impl Sink {
    fn connect(config: RtspSourceConfig) -> Sink {
        let url = presentation_url("127.0.0.1", config.port);
        let (session, action) = RtspSession::start(config, String::from("127.0.0.1"), url);
        assert!(matches!(action.next, SessionNext::Read));
        Sink {
            session,
            finished: false,
            received: action.send.unwrap().into_bytes(),
        }
    }

    /// Sends some text to the source, which then reads its messages.
    fn send(&mut self, text: &str) {
        let mut stream = text.as_bytes();
        while !self.finished {
            let (message, size) = read_rtsp_message(stream);
            let Some(message) = message.unwrap() else {
                break;
            };
            stream = &stream[size..];
            let action = self.session.on_message(message);
            if let Some(text) = action.send {
                self.received.extend_from_slice(text.as_bytes());
            }
            match action.next {
                SessionNext::Read | SessionNext::StopMedia => (),
                SessionNext::Finish => self.finished = true,
                next => panic!("unexpected {next:?}"),
            }
        }
    }

    fn read(&mut self) -> RtspMessage {
        let (message, size) = read_rtsp_message(&self.received);
        self.received.drain(..size);
        message.unwrap().unwrap()
    }
}

fn expect_request(msg: &RtspMessage, method: &str) -> String {
    let RtspMessage::Request {
        method: actual,
        headers,
        ..
    } = msg
    else {
        panic!("expected request");
    };
    assert_eq!(actual, method);
    header(headers, "cseq").cloned().unwrap()
}

fn expect_response(msg: &RtspMessage, code: u16) {
    let RtspMessage::Response { code: actual, .. } = msg else {
        panic!("expected response");
    };
    assert_eq!(*actual, code);
}

#[test]
fn rtsp_source_completes_no_media_session() {
    let mut config = test_rtsp_config();
    config.no_media = true;
    let mut sink = Sink::connect(config);

    let msg = sink.read();
    let cseq = expect_request(&msg, "OPTIONS");
    sink.send(&write_response(&cseq, &[], ""));

    let msg = sink.read();
    let cseq = expect_request(&msg, "GET_PARAMETER");
    sink.send(&write_response(
        &cseq,
        &[("Content-Type", "text/parameters")],
        "wfd_client_rtp_ports: RTP/AVP/UDP;unicast 19000 0 mode=play\r\n\
         wfd_video_formats: 00 00 01 01 00000020 00000000 00000000 00 0000 0000 00 none none\r\n\
         wfd_audio_codecs: none\r\n",
    ));

    let msg = sink.read();
    let cseq = expect_request(&msg, "SET_PARAMETER");
    sink.send(&write_response(&cseq, &[], ""));

    let msg = sink.read();
    let cseq = expect_request(&msg, "SET_PARAMETER");
    sink.send(&write_response(&cseq, &[], ""));

    sink.send(
        "SETUP rtsp://localhost/wfd1.0/streamid=0 RTSP/1.0\r\n\
         CSeq: 101\r\n\
         Transport: RTP/AVP/UDP;unicast;client_port=19000-19001\r\n\
         \r\n",
    );
    let msg = sink.read();
    expect_response(&msg, 200);

    sink.send(
        "PLAY rtsp://localhost/wfd1.0/streamid=0 RTSP/1.0\r\n\
         CSeq: 102\r\n\
         Session: test\r\n\
         \r\n",
    );
    let msg = sink.read();
    expect_response(&msg, 200);

    sink.send(
        "TEARDOWN rtsp://localhost/wfd1.0/streamid=0 RTSP/1.0\r\n\
         CSeq: 103\r\n\
         Session: test\r\n\
         \r\n",
    );
    let msg = sink.read();
    expect_response(&msg, 200);

    assert!(sink.finished);
    let result = sink.session.into_result();
    assert_eq!(result.sink_rtp_port, Some(19000));
    assert!(!result.media_started);
    assert!(result.teardown_received);
}

#[test]
fn headers_are_found_whatever_their_case() {
    let mut headers = FieldMap::new();
    headers.insert(String::from("cseq"), String::from("7"));
    assert_eq!(header(&headers, "CSeq").map(String::as_str), Some("7"));
    assert_eq!(header(&headers, "Session"), None);
}
