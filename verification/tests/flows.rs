//! Scanning, linking and the processes behind them.
use miracast::connect::{
    connect, disconnect, disconnect_command, ConnectAction, ConnectEvent, ConnectFlow,
    ConnectOptions, MiracastConnectResult,
};
use miracast::error::{ErrorCase, MiracastError};
use miracast::peer::MiracastPeer;
use miracast::process::{child_ended, child_killed, exit_report, poll_child, PollAction};
use miracast::scan::{scan, ScanAction, ScanEvent, ScanFlow, ScanOptions};
use miracast::wpa::{
    configure_wfd_source, is_wpa_cli_failure, list_interfaces, parse_interfaces, strings, WpaCli,
};

fn scan_options() -> ScanOptions {
    ScanOptions {
        timeout: 8,
        miracast_only: false,
        flush: true,
        no_wfd: false,
        wfd_device_info: String::from("000600111c440032"),
    }
}

fn connect_options() -> ConnectOptions {
    ConnectOptions {
        peer: String::from("aa:bb:cc:dd:ee:ff"),
        timeout: 45,
        pin: None,
        display_pin: false,
        persistent: false,
        join: false,
        provdisc: false,
        auto: true,
        go_intent: None,
        freq: None,
        no_wfd: false,
        wfd_device_info: String::from("000600111c440032"),
    }
}

/// Runs a scan against a `wpa_cli` that replies by `reply`, and notes what is
/// done.
fn run_scan(
    options: ScanOptions,
    reply: impl Fn(&str) -> Result<String, MiracastError>,
) -> (Vec<String>, Result<Vec<MiracastPeer>, MiracastError>) {
    let mut log = Vec::new();
    let (mut flow, mut action) = ScanFlow::start(options);
    loop {
        let event = match action {
            ScanAction::Run(args) => {
                let command = args.join(" ");
                let reply = reply(&command);
                log.push(command);
                assert!(flow.accepts(&reply));
                ScanEvent::Reply(reply)
            }
            ScanAction::Sleep(seconds) => {
                log.push(format!("sleep {seconds}"));
                ScanEvent::Woke
            }
            ScanAction::Done(peers) => return (log, Ok(peers)),
            ScanAction::Fail(e) => return (log, Err(e)),
        };
        action = scan(&mut flow, event);
    }
}

fn run_connect(
    options: ConnectOptions,
    mut looks: u32,
    reply: impl Fn(&str, u32) -> Result<String, MiracastError>,
) -> (Vec<String>, Result<MiracastConnectResult, MiracastError>) {
    let mut log: Vec<String> = Vec::new();
    let (mut flow, mut action) = ConnectFlow::start(options);
    assert!(!flow.waits_for_group());
    loop {
        let event = match action {
            ConnectAction::Run(args) => {
                let command = args.join(" ");
                let seen = log.iter().filter(|c| **c == command).count();
                let reply = reply(&command, seen as u32);
                log.push(command);
                ConnectEvent::Reply(reply)
            }
            ConnectAction::CheckDeadline => {
                assert!(flow.waits_for_group());
                let expired = looks == 0;
                looks = looks.saturating_sub(1);
                ConnectEvent::Deadline(expired)
            }
            ConnectAction::Sleep(millis) => {
                log.push(format!("sleep {millis}"));
                ConnectEvent::Woke
            }
            ConnectAction::Done(result) => return (log, Ok(result)),
            ConnectAction::Fail(e) => return (log, Err(e)),
        };
        action = connect(&mut flow, event);
    }
}

fn failure() -> MiracastError {
    MiracastError::new(ErrorCase::CommandFailed, String::from("gone"))
}

fn two_peers(command: &str) -> Result<String, MiracastError> {
    let reply = match command {
        "p2p_peers discovered" => "aa:bb:cc:dd:ee:02\naa:bb:cc:dd:ee:01\n",
        "p2p_peer aa:bb:cc:dd:ee:01" => "device_name=TV\nwfd_subelems=00000600111c440032\n",
        "p2p_peer aa:bb:cc:dd:ee:02" => "device_name=Phone\n",
        "p2p_stop_find" => return Err(failure()),
        _ => "OK\n",
    };
    Ok(reply.to_owned())
}

#[test]
fn a_scan_goes_through_all_steps() {
    let (log, peers) = run_scan(scan_options(), two_peers);
    assert_eq!(
        log,
        [
            "wfd_subelem_set 0 000600111c440032",
            "p2p_flush",
            "p2p_find 8",
            "sleep 8",
            "p2p_stop_find",
            "p2p_peers discovered",
            "p2p_peer aa:bb:cc:dd:ee:02",
            "p2p_peer aa:bb:cc:dd:ee:01",
        ]
    );
    let peers = peers.unwrap();
    assert_eq!(peers.len(), 2);
    assert_eq!(peers[0].name.as_deref(), Some("Phone"));
    assert_eq!(peers[1].name.as_deref(), Some("TV"));
    assert_eq!(peers[1].rtsp_port, Some(7236));
}

#[test]
fn a_scan_leaves_out_what_is_not_wanted() {
    let options = ScanOptions {
        timeout: 0,
        miracast_only: true,
        flush: false,
        no_wfd: true,
        ..scan_options()
    };
    let (log, peers) = run_scan(options, two_peers);
    assert_eq!(
        log,
        [
            "p2p_peers discovered",
            "p2p_peer aa:bb:cc:dd:ee:02",
            "p2p_peer aa:bb:cc:dd:ee:01",
        ]
    );
    let peers = peers.unwrap();
    assert_eq!(peers.len(), 1);
    assert_eq!(peers[0].address, "aa:bb:cc:dd:ee:01");
}

#[test]
fn a_peer_that_is_listed_twice_is_described_twice() {
    let asked = std::cell::Cell::new(0);
    let (log, peers) = run_scan(scan_options(), |command| {
        let reply = match command {
            "p2p_peers discovered" => "aa:bb:cc:dd:ee:01\naa:bb:cc:dd:ee:01\n",
            "p2p_peer aa:bb:cc:dd:ee:01" => {
                asked.set(asked.get() + 1);
                if asked.get() == 1 {
                    "device_name=TV\n"
                } else {
                    "device_name=Beamer\nwfd_rtsp_port=1\n"
                }
            }
            _ => "OK",
        };
        Ok(reply.to_owned())
    });
    assert_eq!(log.len(), 8);
    let peers = peers.unwrap();
    assert_eq!(peers.len(), 2);
    assert_eq!(peers[0].name.as_deref(), Some("Beamer"));
    assert!(peers[0].is_miracast);
    assert_eq!(peers[1].name.as_deref(), Some("TV"));
    assert!(!peers[1].is_miracast);
}

#[test]
fn a_scan_can_find_nobody() {
    let (_, peers) = run_scan(scan_options(), |_| Ok(String::from("OK")));
    assert_eq!(peers, Ok(vec![]));
}

#[test]
fn a_scan_fails_with_its_commands() {
    for bad in [
        "wfd_subelem_set 0 000600111c440032",
        "p2p_flush",
        "p2p_find 8",
        "p2p_peers discovered",
        "p2p_peer aa:bb:cc:dd:ee:01",
    ] {
        let (log, peers) = run_scan(scan_options(), |command| {
            if command == bad {
                Ok(String::from("FAIL\n"))
            } else {
                two_peers(command)
            }
        });
        let e = peers.unwrap_err();
        assert_eq!(e.case, ErrorCase::WpaCliFailure);
        assert_eq!(e.message, "wpa_cli returned failure: FAIL");
        assert_eq!(e.contexts.is_empty(), !bad.starts_with("wfd_"));
        assert_eq!(log.last().map(String::as_str), Some(bad));
    }
}

#[test]
fn a_link_reports_the_new_group() {
    let (log, result) = run_connect(connect_options(), 5, |command, seen| {
        let reply = match (command, seen) {
            ("interface", 0) => "Available interfaces:\nwlan0\np2p-wlan0-3\n",
            ("interface", 1) => return Err(failure()),
            ("interface", 2) => "p2p-wlan0-3\nwlan0\nother\n",
            ("interface", _) => "p2p-wlan0-3\nwlan0\nDIRECT-ab\np2p-wlan0-4\n",
            ("p2p_stop_find", _) => return Err(failure()),
            _ => " OK\n",
        };
        Ok(reply.to_owned())
    });
    assert_eq!(
        log,
        [
            "wfd_subelem_set 0 000600111c440032",
            "interface",
            "p2p_stop_find",
            "p2p_connect aa:bb:cc:dd:ee:ff pbc auto",
            "interface",
            "sleep 500",
            "interface",
            "sleep 500",
            "interface",
        ]
    );
    let result = result.unwrap();
    assert!(result.started);
    assert_eq!(result.peer, "aa:bb:cc:dd:ee:ff");
    assert_eq!(result.group_ifname.as_deref(), Some("DIRECT-ab"));
    assert_eq!(result.wpa_cli_response, "OK");
    assert_eq!(result.command, ["p2p_connect", "aa:bb:cc:dd:ee:ff", "pbc", "auto"]);
    assert_eq!(
        result.note,
        "Wi-Fi Direct group formation was submitted to wpa_supplicant. Keep `niri miracast serve` \
         running so the sink can complete the WFD/RTSP control session and receive the RTP/MPEG-TS \
         media stream."
    );
}

#[test]
fn a_link_can_go_without_a_group() {
    let options = ConnectOptions {
        no_wfd: true,
        display_pin: true,
        pin: Some(String::from("12345670")),
        ..connect_options()
    };
    let (log, result) = run_connect(options, 0, |_, _| Ok(String::from("OK")));
    assert_eq!(
        log,
        [
            "interface",
            "p2p_stop_find",
            "p2p_connect aa:bb:cc:dd:ee:ff pin display auto",
            "interface",
        ]
    );
    let result = result.unwrap();
    assert!(result.started);
    assert_eq!(result.group_ifname, None);
}

#[test]
fn a_link_that_is_refused_fails() {
    let (log, result) = run_connect(connect_options(), 0, |command, _| {
        if command.starts_with("p2p_connect") {
            Ok(String::from("FAIL\nbusy"))
        } else {
            Ok(String::from("OK"))
        }
    });
    assert_eq!(log.len(), 4);
    let e = result.unwrap_err();
    assert_eq!(e.message, "wpa_cli returned failure: FAIL\nbusy");
}

#[test]
fn a_link_is_removed() {
    assert_eq!(disconnect_command("p2p-wlan0-0"), ["p2p_group_remove", "p2p-wlan0-0"]);
    let result = disconnect(String::from("p2p-wlan0-0"), Ok(String::from("OK\n"))).unwrap();
    assert_eq!(result.group_ifname, "p2p-wlan0-0");
    assert!(result.removed);
    assert_eq!(result.wpa_cli_response, "OK");
    let e = disconnect(String::from("p2p-wlan0-0"), Ok(String::from("FAIL"))).unwrap_err();
    assert_eq!(e.case, ErrorCase::WpaCliFailure);
    let e = disconnect(String::from("p2p-wlan0-0"), Err(failure())).unwrap_err();
    assert_eq!(e, failure());
}

#[test]
fn failures_are_recognised() {
    for s in ["FAIL", " FAIL\n", "FAIL\nreason"] {
        assert!(is_wpa_cli_failure(s));
    }
    for s in ["", "OK", "FAIL reason", "FAILED", "FAIL\rreason", "fail", "OK\nFAIL"] {
        assert!(!is_wpa_cli_failure(s));
    }
}

#[test]
fn commands_are_named_in_their_errors() {
    let cli = WpaCli::new(Some(String::from("wlan0")));
    let args = strings(["p2p_find", "8"]);
    assert_eq!(cli.arguments(&args), ["-i", "wlan0", "p2p_find", "8"]);
    let e = cli.run(&args, Err(failure())).unwrap_err();
    assert_eq!(e.message, "gone");
    assert_eq!(e.contexts, ["error running `wpa_cli -i wlan0 p2p_find 8`"]);
    let cli = WpaCli::new(None);
    assert_eq!(cli.arguments(&args), ["p2p_find", "8"]);
    let e = cli.run(&args, Err(failure())).unwrap_err();
    assert_eq!(e.contexts, ["error running `wpa_cli p2p_find 8`"]);
    assert_eq!(cli.run(&args, Ok(String::from("OK"))), Ok(String::from("OK")));
    assert_eq!(WpaCli::run_ok(Ok(String::from("OK\n"))), Ok(String::from("OK\n")));
}

#[test]
fn advertising_explains_its_failure() {
    assert_eq!(configure_wfd_source(Ok(String::from("OK"))), Ok(()));
    let e = configure_wfd_source(Ok(String::from("FAIL"))).unwrap_err();
    assert_eq!(e.case, ErrorCase::WpaCliFailure);
    assert_eq!(
        e.contexts,
        [
            "error advertising Wi-Fi Display source capabilities; try --no-wfd if this \
             wpa_supplicant build does not support WFD"
        ]
    );
}

#[test]
fn interfaces_are_listed() {
    assert_eq!(parse_interfaces(""), [""; 0]);
    assert_eq!(list_interfaces(Ok(String::from(" wlan0 \n\np2p0"))), Ok(strings(["wlan0", "p2p0"])));
    assert_eq!(list_interfaces(Err(failure())), Err(failure()));
    assert_eq!(
        list_interfaces(Ok(String::from("FAIL"))).unwrap_err().case,
        ErrorCase::WpaCliFailure
    );
}

#[test]
fn children_are_polled() {
    assert_eq!(poll_child(false, false), PollAction::Sleep(50));
    assert_eq!(poll_child(false, true), PollAction::Kill);
    assert_eq!(poll_child(true, false), PollAction::Collect);
    assert_eq!(poll_child(true, true), PollAction::Collect);
}

#[test]
fn children_are_reported_on() {
    assert_eq!(
        child_ended(true, "exit status: 0", "Größe\n".as_bytes().to_vec(), vec![0xff]),
        Ok(String::from("Größe\n"))
    );
    let e = child_ended(true, "exit status: 0", vec![b'a', 0xff], vec![]).unwrap_err();
    assert_eq!(e.case, ErrorCase::CommandNotUtf8);
    assert_eq!(e.message, "invalid utf-8 sequence of 1 bytes from index 1");
    assert_eq!(e.contexts, ["wpa_cli returned invalid UTF-8"]);
    let cause = Err(String::from("cause"));
    let e = exit_report(true, "exit status: 0", cause, "", "").unwrap_err();
    assert_eq!(e.message, "cause");
    assert_eq!(e.contexts, ["wpa_cli returned invalid UTF-8"]);
    let e = child_ended(false, "exit status: 1", vec![b'a', 0xff], b"bad".to_vec()).unwrap_err();
    assert_eq!(e.case, ErrorCase::CommandFailed);
    assert_eq!(e.message, "command exited with exit status: 1: a\u{fffd}bad");
    let e = child_killed(10, b"out".to_vec(), vec![0xc3]);
    assert_eq!(e.case, ErrorCase::CommandTimedOut);
    assert_eq!(e.message, "command timed out after 10s: out\u{fffd}");
}
