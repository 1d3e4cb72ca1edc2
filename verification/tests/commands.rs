//! Commands of the user, waiting for a sink, and what is shown.
use miracast::cli::{
    handle_miracast, CompletionShell, MiracastCommand, MiracastPlan, StandardShell,
};
use miracast::config::{
    build_wf_recorder_args, duration_arg, validate_video_formats, RtspSourceConfig,
};
use miracast::connect::{ConnectOptions, MiracastConnectResult, MiracastDisconnectResult};
use miracast::error::ErrorCase;
use miracast::peer::parse_peer_details;
use miracast::report::{media_message, print_connect, print_disconnect, print_scan, print_serve};
use miracast::scan::ScanOptions;
use miracast::serve::{accept, bind_context, waiting_message, AcceptAction, AcceptEvent};
use miracast::session::MiracastServeResult;
use miracast::wpa::WpaCli;

const FORMATS: &str = "00 00 01 01 00000020 00000000 00000000 00 0000 0000 00 none none";

fn connect(peer: &str, info: &str, go_intent: Option<u8>) -> MiracastCommand {
    MiracastCommand::Connect {
        peer: peer.to_owned(),
        ifname: Some(String::from("wlan0")),
        timeout: 45,
        json: true,
        pin: Some(String::from("1")),
        display_pin: false,
        persistent: true,
        join: false,
        provdisc: true,
        no_auto: true,
        go_intent,
        freq: Some(2412),
        no_wfd: false,
        wfd_device_info: info.to_owned(),
    }
}

fn serve(audio: bool, audio_device: Option<&str>, video_formats: &str) -> MiracastCommand {
    MiracastCommand::Serve {
        bind: String::from("0.0.0.0"),
        port: 7236,
        accept_timeout: 0,
        session_timeout: 60,
        output: Some(String::from("eDP-1")),
        framerate: 30,
        bitrate_kbps: 8000,
        codec: String::from("libx264"),
        audio,
        audio_device: audio_device.map(str::to_owned),
        no_media: false,
        video_formats: video_formats.to_owned(),
        json: false,
    }
}

fn served(command: MiracastCommand) -> RtspSourceConfig {
    match handle_miracast(command) {
        Ok(MiracastPlan::Serve { config, .. }) => config,
        other => panic!("unexpected {other:?}"),
    }
}

#[test]
fn scans_are_planned() {
    let command = |info: &str| MiracastCommand::Scan {
        ifname: None,
        timeout: 8,
        json: true,
        miracast_only: true,
        flush: false,
        no_wfd: true,
        wfd_device_info: info.to_owned(),
    };
    assert_eq!(
        handle_miracast(command("0006")),
        Ok(MiracastPlan::Scan {
            cli: WpaCli { ifname: None },
            options: ScanOptions {
                timeout: 8,
                miracast_only: true,
                flush: false,
                no_wfd: true,
                wfd_device_info: String::from("0006"),
            },
            json: true,
        })
    );
    let e = handle_miracast(command("00063")).unwrap_err();
    assert_eq!(e.case, ErrorCase::DeviceInfoLength);
}

#[test]
fn links_are_planned() {
    assert_eq!(
        handle_miracast(connect("aa:bb:cc:dd:ee:ff", "0006", Some(15))),
        Ok(MiracastPlan::Connect {
            cli: WpaCli {
                ifname: Some(String::from("wlan0")),
            },
            options: ConnectOptions {
                peer: String::from("aa:bb:cc:dd:ee:ff"),
                timeout: 45,
                pin: Some(String::from("1")),
                display_pin: false,
                persistent: true,
                join: false,
                provdisc: true,
                auto: false,
                go_intent: Some(15),
                freq: Some(2412),
                no_wfd: false,
                wfd_device_info: String::from("0006"),
            },
            json: true,
        })
    );
}

#[test]
fn the_first_fault_of_a_command_counts() {
    let e = handle_miracast(connect("x", "000", Some(16))).unwrap_err();
    assert_eq!(e.case, ErrorCase::PeerAddress);
    let e = handle_miracast(connect("aa:bb:cc:dd:ee:ff", "zz", Some(16))).unwrap_err();
    assert_eq!(e.case, ErrorCase::DeviceInfoDigits);
    let e = handle_miracast(connect("aa:bb:cc:dd:ee:ff", "00", Some(16))).unwrap_err();
    assert_eq!(e.case, ErrorCase::GoIntent);
    assert_eq!(e.message, "--go-intent must be between 0 and 15");
    assert!(handle_miracast(connect("aa:bb:cc:dd:ee:ff", "00", None)).is_ok());
}

#[test]
fn removals_are_planned() {
    let command = MiracastCommand::Disconnect {
        group_ifname: String::from("p2p-wlan0-0"),
        ifname: None,
        json: false,
    };
    assert_eq!(
        handle_miracast(command),
        Ok(MiracastPlan::Disconnect {
            cli: WpaCli { ifname: None },
            group_ifname: String::from("p2p-wlan0-0"),
            json: false,
        })
    );
}

#[test]
fn sessions_are_planned() {
    let config = served(serve(false, None, FORMATS));
    assert_eq!(config.accept_timeout, None);
    assert_eq!(config.session_timeout, Some(60));
    assert_eq!(config.output.as_deref(), Some("eDP-1"));
    assert_eq!(config.audio, None);
    assert_eq!(config.video_formats, FORMATS);
    assert_eq!(served(serve(true, None, FORMATS)).audio, Some(None));
    let device = Some(Some(String::from("mic")));
    assert_eq!(served(serve(false, Some("mic"), FORMATS)).audio, device);
    assert_eq!(served(serve(true, Some("mic"), FORMATS)).audio, device);
    let e = handle_miracast(serve(false, None, "00 00 01")).unwrap_err();
    assert_eq!(e.case, ErrorCase::VideoFormats);
}

#[test]
fn limits_of_zero_are_none() {
    assert_eq!(duration_arg(0), None);
    assert_eq!(duration_arg(1), Some(1));
    assert_eq!(duration_arg(u64::MAX), Some(u64::MAX));
}

#[test]
fn video_formats_are_counted() {
    let e = validate_video_formats(" 00\t00\u{a0}01 ").unwrap_err();
    assert_eq!(
        e.message,
        "WFD video format string must contain 13 whitespace-separated fields, got 3"
    );
    assert!(validate_video_formats("1 2 3 4 5 6 7 8 9 10 11 12 13 14").is_err());
}

#[test]
fn recorders_get_their_arguments_in_order() {
    let mut config = served(serve(false, None, FORMATS));
    config.output = None;
    let video = [
        "--no-damage",
        "--muxer",
        "rtp_mpegts",
        "--codec",
        "libx264",
        "--framerate",
        "30",
        "--pixel-format",
        "yuv420p",
        "--codec-param",
        "preset=ultrafast",
        "--codec-param",
        "tune=zerolatency",
        "--codec-param",
        "b=8000k",
    ];
    let mut expected = video.to_vec();
    expected.extend(["-f", "rtp://h:1?pkt_size=1316"]);
    assert_eq!(build_wf_recorder_args(&config, "h", 1), expected);
    config.audio = Some(None);
    let mut expected = video.to_vec();
    expected.extend(["--audio", "--audio-codec", "aac", "-f", "rtp://h:1?pkt_size=1316"]);
    assert_eq!(build_wf_recorder_args(&config, "h", 1), expected);
    config.audio = Some(Some(String::from("mic")));
    let mut expected = video.to_vec();
    expected.extend(["--audio=mic", "--audio-codec", "aac", "-f", "rtp://h:1?pkt_size=1316"]);
    assert_eq!(build_wf_recorder_args(&config, "h", 1), expected);
}

#[test]
fn waiting_has_an_end_only_with_a_limit() {
    let mut config = served(serve(false, None, FORMATS));
    assert!(matches!(accept(&config, AcceptEvent::Connected), AcceptAction::Run));
    assert!(matches!(
        accept(&config, AcceptEvent::Pending(u64::MAX)),
        AcceptAction::Sleep(100)
    ));
    config.accept_timeout = Some(5);
    assert!(matches!(
        accept(&config, AcceptEvent::Pending(4)),
        AcceptAction::Sleep(100)
    ));
    let AcceptAction::Fail(e) = accept(&config, AcceptEvent::Pending(5)) else {
        panic!("expected an error");
    };
    assert_eq!(e.case, ErrorCase::AcceptTimedOut);
    assert_eq!(e.message, "timed out waiting for Miracast sink RTSP connection");
    let AcceptAction::Fail(e) = accept(&config, AcceptEvent::Failed(String::from("no"))) else {
        panic!("expected an error");
    };
    assert_eq!(e.case, ErrorCase::System);
    assert_eq!(e.message, "no");
    assert_eq!(e.contexts, ["error accepting RTSP connection"]);
    assert_eq!(bind_context(&config), "error binding RTSP listener on 0.0.0.0:7236");
    assert_eq!(
        waiting_message(&config),
        "Waiting for Miracast sink RTSP connection on 0.0.0.0:7236 ..."
    );
}

#[test]
fn shells_are_known_but_for_one() {
    let known = [
        (CompletionShell::Bash, StandardShell::Bash),
        (CompletionShell::Elvish, StandardShell::Elvish),
        (CompletionShell::Fish, StandardShell::Fish),
        (CompletionShell::PowerShell, StandardShell::PowerShell),
        (CompletionShell::Zsh, StandardShell::Zsh),
    ];
    for (shell, standard) in known {
        assert_eq!(StandardShell::try_from(shell), Ok(standard));
    }
    assert_eq!(
        StandardShell::try_from(CompletionShell::Nushell),
        Err("Nushell should be handled separately")
    );
}

#[test]
fn peers_are_shown() {
    assert_eq!(print_scan(&[]), "No Wi-Fi Direct peers found.\n");
    let peers = [
        parse_peer_details("01", "x=1"),
        parse_peer_details(
            "02",
            "name=TV\nwfd_rtsp_port=7236\nconfig_methods=0x188\ndevice_type=7\nmodel_name=M\n\
             manufacturer=X",
        ),
    ];
    assert_eq!(
        print_scan(&peers),
        "01\n  Miracast/Wi-Fi Display: unknown/no\n\n02  TV\n  Miracast/Wi-Fi Display: yes\n  \
         RTSP control port: 7236\n  Config methods: 0x188\n  Device type: 7\n  Model: M\n\n"
    );
}

#[test]
fn links_are_shown() {
    let mut result = MiracastConnectResult {
        peer: String::from("aa"),
        started: true,
        group_ifname: None,
        wpa_cli_response: String::from("OK"),
        command: vec![],
        note: String::from("note"),
    };
    assert_eq!(
        print_connect(&result),
        "Submitted Miracast/Wi-Fi Direct link request to aa.\nwpa_cli response: OK\nP2P group \
         interface was not observed before timeout.\n\nnote\n"
    );
    result.group_ifname = Some(String::from("p2p-wlan0-0"));
    assert_eq!(
        print_connect(&result),
        "Submitted Miracast/Wi-Fi Direct link request to aa.\nwpa_cli response: OK\nP2P group \
         interface: p2p-wlan0-0\n\nnote\n"
    );
    let result = MiracastDisconnectResult {
        group_ifname: String::from("p2p-wlan0-0"),
        removed: true,
        wpa_cli_response: String::from("OK"),
    };
    assert_eq!(
        print_disconnect(&result),
        "Removed P2P group interface p2p-wlan0-0.\n"
    );
}

#[test]
fn sessions_are_shown() {
    let mut result = MiracastServeResult {
        peer: String::from("192.168.49.2"),
        presentation_url: String::from("rtsp://x"),
        sink_rtp_port: None,
        media_started: false,
        media_command: None,
        teardown_received: false,
    };
    assert_eq!(
        print_serve(&result),
        "Miracast RTSP session ended.\n  Peer: 192.168.49.2\n  Presentation URL: rtsp://x\n  \
         Media pipeline: not started\n  Teardown: not received\n"
    );
    let command = vec![String::from("wf-recorder"), String::from("-f")];
    assert_eq!(media_message(&command), "Starting media pipeline: wf-recorder -f");
    result.sink_rtp_port = Some(7);
    result.media_started = true;
    result.media_command = Some(command);
    result.teardown_received = true;
    assert_eq!(
        print_serve(&result),
        "Miracast RTSP session ended.\n  Peer: 192.168.49.2\n  Presentation URL: rtsp://x\n  Sink \
         RTP port: 7\n  Media pipeline: started\n  Command: wf-recorder -f\n  Teardown: received\n"
    );
}
