//! What the user is shown when a command is done.
use crate::connect::{ConnectReport, MiracastConnectResult, MiracastDisconnectResult};
use crate::dialogue;
use crate::exchange;
use crate::number::{self, push_decimal};
use crate::peer::{self, MiracastPeer, PeerModel};
use crate::session::{MiracastServeResult, ServeReport};
use crate::text::{self, join};
use vstd::prelude::*;

verus! {

/// A line that is shown if there is something to show in it.
pub open spec fn optional_line(label: Seq<char>, value: Option<Seq<char>>) -> Seq<char> {
    match value {
        Some(value) => label + value + "\n"@,
        None => Seq::empty(),
    }
}

/// A port as text.
pub open spec fn port_text(port: Option<u16>) -> Option<Seq<char>> {
    match port {
        Some(port) => Some(number::decimal(port as nat)),
        None => None,
    }
}

/// Appends a line if there is something to show in it.
fn push_optional_line(s: &mut String, label: &str, value: &Option<String>)
    ensures
        final(s)@ == old(s)@ + optional_line(label@, text::opt_text(*value)),
{
    if let Some(value) = value {
        s.append(label);
        s.append(value.as_str());
        s.append("\n");
    }
    assert(s@ =~= old(s)@ + optional_line(label@, text::opt_text(*value)));
}

/// Appends a line that names a port, if there is one.
fn push_port_line(s: &mut String, label: &str, port: Option<u16>)
    ensures
        final(s)@ == old(s)@ + optional_line(label@, port_text(port)),
{
    if let Some(port) = port {
        s.append(label);
        push_decimal(s, port as u64);
        s.append("\n");
    }
    assert(s@ =~= old(s)@ + optional_line(label@, port_text(port)));
}

/// What is shown of a peer.
pub open spec fn peer_lines(p: PeerModel) -> Seq<char> {
    p.address + (match p.name {
        Some(name) => "  "@ + name,
        None => Seq::empty(),
    }) + "\n  Miracast/Wi-Fi Display: "@ + (if p.is_miracast {
        "yes"@
    } else {
        "unknown/no"@
    }) + "\n"@ + optional_line("  RTSP control port: "@, port_text(p.rtsp_port)) + optional_line(
        "  Config methods: "@,
        p.config_methods,
    ) + optional_line("  Device type: "@, p.device_type) + optional_line(
        "  Model: "@,
        p.model_name,
    ) + "\n"@
}

/// What is shown of some peers, one after the other.
pub open spec fn peers_lines(list: Seq<PeerModel>) -> Seq<char>
    decreases list.len(),
{
    if list.len() == 0 {
        Seq::empty()
    } else {
        peers_lines(list.drop_last()) + peer_lines(list.last())
    }
}

/// What is shown of a scan.
pub open spec fn scan_text(list: Seq<PeerModel>) -> Seq<char> {
    if list.len() == 0 {
        "No Wi-Fi Direct peers found.\n"@
    } else {
        peers_lines(list)
    }
}

/// Describes a peer.
fn print_peer(p: &MiracastPeer) -> (s: String)
    ensures
        s@ == peer_lines(p@),
{
    let mut s: String = p.address.clone();
    match &p.name {
        Some(name) => {
            s.append("  ");
            s.append(name.as_str());
            assert(s@ =~= p.address@ + ("  "@ + name@));
        },
        None => {
            assert(s@ =~= p.address@ + Seq::<char>::empty());
        },
    }
    s.append("\n  Miracast/Wi-Fi Display: ");
    if p.is_miracast {
        s.append("yes");
    } else {
        s.append("unknown/no");
    }
    s.append("\n");
    push_port_line(&mut s, "  RTSP control port: ", p.rtsp_port);
    push_optional_line(&mut s, "  Config methods: ", &p.config_methods);
    push_optional_line(&mut s, "  Device type: ", &p.device_type);
    push_optional_line(&mut s, "  Model: ", &p.model_name);
    s.append("\n");
    s
}

/// Describes the peers that a scan found.
pub fn print_scan(list: &[MiracastPeer]) -> (s: String)
    ensures
        s@ == scan_text(peer::peers(list@)),
{
    if list.len() == 0 {
        return "No Wi-Fi Direct peers found.\n".to_owned();
    }
    let ghost all = peer::peers(list@);
    let mut s: String = String::new();
    let mut i: usize = 0;
    assert(s@ =~= peers_lines(all.take(0)));
    while i < list.len()
        invariant
            i <= list@.len(),
            all == peer::peers(list@),
            s@ == peers_lines(all.take(i as int)),
        decreases list@.len() - i,
    {
        s.append(print_peer(&list[i]).as_str());
        assert(all.take(i + 1).drop_last() =~= all.take(i as int));
        i = i + 1;
    }
    assert(all.take(i as int) =~= all);
    s
}

/// What is shown of a link.
pub open spec fn connect_text(r: ConnectReport) -> Seq<char> {
    "Submitted Miracast/Wi-Fi Direct link request to "@ + r.peer + ".\nwpa_cli response: "@
        + r.wpa_cli_response + "\n"@ + (match r.group_ifname {
        Some(name) => "P2P group interface: "@ + name + "\n"@,
        None => "P2P group interface was not observed before timeout.\n"@,
    }) + "\n"@ + r.note + "\n"@
}

/// Describes a link.
pub fn print_connect(result: &MiracastConnectResult) -> (s: String)
    ensures
        s@ == connect_text(result@),
{
    let mut s: String = "Submitted Miracast/Wi-Fi Direct link request to ".to_owned();
    s.append(result.peer.as_str());
    s.append(".\nwpa_cli response: ");
    s.append(result.wpa_cli_response.as_str());
    s.append("\n");
    match &result.group_ifname {
        Some(name) => {
            s.append("P2P group interface: ");
            s.append(name.as_str());
            s.append("\n");
        },
        None => {
            s.append("P2P group interface was not observed before timeout.\n");
        },
    }
    s.append("\n");
    s.append(result.note.as_str());
    s.append("\n");
    assert(s@ =~= connect_text(result@));
    s
}

/// Describes the removal of a link.
pub fn print_disconnect(result: &MiracastDisconnectResult) -> (s: String)
    ensures
        s@ == "Removed P2P group interface "@ + result.group_ifname@ + ".\n"@,
{
    let mut s: String = "Removed P2P group interface ".to_owned();
    s.append(result.group_ifname.as_str());
    s.append(".\n");
    s
}

/// What is shown of a session.
pub open spec fn serve_text(r: ServeReport) -> Seq<char> {
    "Miracast RTSP session ended.\n  Peer: "@ + r.peer + "\n  Presentation URL: "@
        + r.presentation_url + "\n"@ + optional_line(
        "  Sink RTP port: "@,
        port_text(r.sink_rtp_port),
    ) + "  Media pipeline: "@ + (if r.media_started {
        "started"@
    } else {
        "not started"@
    }) + "\n"@ + optional_line(
        "  Command: "@,
        (match r.media_command {
            Some(command) => Some(text::joined(command, " "@)),
            None => None,
        }),
    ) + "  Teardown: "@ + (if r.teardown_received {
        "received"@
    } else {
        "not received"@
    }) + "\n"@
}

/// Describes a session.
pub fn print_serve(result: &MiracastServeResult) -> (s: String)
    ensures
        s@ == serve_text(result@),
{
    let mut s: String = "Miracast RTSP session ended.\n  Peer: ".to_owned();
    s.append(result.peer.as_str());
    s.append("\n  Presentation URL: ");
    s.append(result.presentation_url.as_str());
    s.append("\n");
    push_port_line(&mut s, "  Sink RTP port: ", result.sink_rtp_port);
    s.append("  Media pipeline: ");
    if result.media_started {
        s.append("started");
    } else {
        s.append("not started");
    }
    s.append("\n");
    let command: Option<String> = match &result.media_command {
        Some(command) => Some(join(command.as_slice(), " ")),
        None => None,
    };
    push_optional_line(&mut s, "  Command: ", &command);
    s.append("  Teardown: ");
    if result.teardown_received {
        s.append("received");
    } else {
        s.append("not received");
    }
    s.append("\n");
    assert(s@ =~= serve_text(result@));
    s
}

/// What the user is told when the media pipeline is started.
pub fn media_message(command: &[String]) -> (s: String)
    ensures
        s@ == "Starting media pipeline: "@ + text::joined(text::texts(command@), " "@),
{
    let mut s: String = "Starting media pipeline: ".to_owned();
    s.append(join(command, " ").as_str());
    s
}

/// Another line is shown behind the others.
proof fn lemma_line_more(before: Seq<char>, line: Seq<char>)
    requires
        before.len() > 0 ==> before.last() == '\n',
        exchange::one_line(line),
        line.len() > 0 ==> line.last() != '\r',
    ensures
        text::lines(before + line + "\n"@) == text::lines(before).push(line),
        (before + line + "\n"@).last() == '\n',
{
    reveal_strlit("\n");
    dialogue::lemma_lines_concat(before, line.push('\n'));
    text::law_lines(line, Seq::empty());
    assert(line.push('\n') + Seq::<char>::empty() =~= line.push('\n'));
    assert(before + line + "\n"@ =~= before + line.push('\n'));
    assert(text::lines(Seq::<char>::empty()) =~= Seq::<Seq<char>>::empty());
    assert(text::lines(before + line + "\n"@) =~= text::lines(before).push(line));
}

/// A text that can be shown on a line of its own.
pub open spec fn fits_a_line(s: Seq<char>) -> bool {
    &&& exchange::one_line(s)
    &&& s.len() > 0 ==> s.last() != '\r'
}

/// An optional text that can be shown on a line of its own.
pub open spec fn may_fit_a_line(s: Option<Seq<char>>) -> bool {
    s matches Some(text) ==> fits_a_line(text)
}

/// The line for something, if it is there.
pub open spec fn line_for(label: Seq<char>, value: Option<Seq<char>>) -> Seq<Seq<char>> {
    if value is Some {
        seq![label + value->Some_0]
    } else {
        Seq::empty()
    }
}

/// An optional line is shown behind the others if there is something to show.
proof fn lemma_optional_line_more(before: Seq<char>, label: Seq<char>, value: Option<Seq<char>>)
    requires
        before.len() > 0 ==> before.last() == '\n',
        fits_a_line(label),
        may_fit_a_line(value),
    ensures
        text::lines(before + optional_line(label, value)) == text::lines(before) + line_for(
            label,
            value,
        ),
        before.len() > 0 ==> (before + optional_line(label, value)).last() == '\n',
{
    match value {
        Some(v) => {
            dialogue::lemma_joined_line(label, v);
            if v.len() == 0 {
                assert(label + v =~= label);
            }
            lemma_line_more(before, label + v);
            assert(before + optional_line(label, value) =~= before + (label + v) + "\n"@);
            assert(text::lines(before + optional_line(label, value)) =~= text::lines(before)
                + line_for(label, value));
        },
        None => {
            assert(before + optional_line(label, value) =~= before);
            assert(text::lines(before) + line_for(label, value) =~= text::lines(before));
        },
    }
}

/// The digits of a port fit on a line.
proof fn lemma_port_fits(port: Option<u16>)
    ensures
        may_fit_a_line(port_text(port)),
        port_text(port) is Some <==> port is Some,
        port is Some ==> number::number(port_text(port)->Some_0, 65535) == Some(
            port->Some_0 as nat,
        ),
{
    if let Some(p) = port {
        dialogue::lemma_decimal_line(p as nat);
        number::lemma_decimal_value(p as nat);
        number::law_decimal_is_read_back(p as nat, 65535);
        let digits = number::decimal(p as nat);
        assert(number::is_digit(digits[digits.len() - 1]));
    }
}

/// What is shown of a peer, line by line: its address and its name, whether it
/// is a Wi-Fi Display peer, and what is known of its port, the methods to
/// configure it, its type and its model, with an empty line at the end.
#[verifier::spinoff_prover]
#[verifier::rlimit(60)]
pub proof fn law_peer_is_shown(p: PeerModel) -> (port: Option<Seq<char>>)
    requires
        fits_a_line(p.address),
        may_fit_a_line(p.name),
        may_fit_a_line(p.config_methods),
        may_fit_a_line(p.device_type),
        may_fit_a_line(p.model_name),
    ensures
        port is Some <==> p.rtsp_port is Some,
        port is Some ==> number::number(port->Some_0, 65535) == Some(p.rtsp_port->Some_0 as nat),
        text::lines(peer_lines(p)) == seq![
            if p.name is Some {
                p.address + "  "@ + p.name->Some_0
            } else {
                p.address
            },
            if p.is_miracast {
                "  Miracast/Wi-Fi Display: yes"@
            } else {
                "  Miracast/Wi-Fi Display: unknown/no"@
            },
        ] + line_for("  RTSP control port: "@, port) + line_for(
            "  Config methods: "@,
            p.config_methods,
        ) + line_for("  Device type: "@, p.device_type) + line_for("  Model: "@, p.model_name)
            + seq![Seq::<char>::empty()],
{
    let title = peer_title(p);
    let flag = if p.is_miracast {
        "  Miracast/Wi-Fi Display: yes"@
    } else {
        "  Miracast/Wi-Fi Display: unknown/no"@
    };
    let none = Seq::<char>::empty();
    let port = port_text(p.rtsp_port);
    lemma_peer_head(p);
    lemma_labels();
    lemma_line_more(none, title);
    let t1 = none + title + "\n"@;
    lemma_line_more(t1, flag);
    let t2 = t1 + flag + "\n"@;
    lemma_port_fits(p.rtsp_port);
    lemma_optional_line_more(t2, "  RTSP control port: "@, port);
    let t3 = t2 + optional_line("  RTSP control port: "@, port);
    lemma_optional_line_more(t3, "  Config methods: "@, p.config_methods);
    let t4 = t3 + optional_line("  Config methods: "@, p.config_methods);
    lemma_optional_line_more(t4, "  Device type: "@, p.device_type);
    let t5 = t4 + optional_line("  Device type: "@, p.device_type);
    lemma_optional_line_more(t5, "  Model: "@, p.model_name);
    let t6 = t5 + optional_line("  Model: "@, p.model_name);
    lemma_line_more(t6, none);
    assert(t6 + none =~= t6);
    assert(none + title =~= title);
    assert(peer_lines(p) == t6 + "\n"@);
    assert(text::lines(none) =~= Seq::<Seq<char>>::empty());
    assert(text::lines(t2) =~= seq![title, flag]);
    assert(text::lines(peer_lines(p)) =~= seq![title, flag] + line_for(
        "  RTSP control port: "@,
        port,
    ) + line_for("  Config methods: "@, p.config_methods) + line_for(
        "  Device type: "@,
        p.device_type,
    ) + line_for("  Model: "@, p.model_name) + seq![none]);
    port
}

/// The line that names a peer.
spec fn peer_title(p: PeerModel) -> Seq<char> {
    if p.name is Some {
        p.address + "  "@ + p.name->Some_0
    } else {
        p.address
    }
}

/// The labels fit on a line.
proof fn lemma_labels()
    ensures
        fits_a_line("  RTSP control port: "@),
        fits_a_line("  Config methods: "@),
        fits_a_line("  Device type: "@),
        fits_a_line("  Model: "@),
        fits_a_line("  Sink RTP port: "@),
        fits_a_line("  Command: "@),
{
    reveal_strlit("  RTSP control port: ");
    reveal_strlit("  Config methods: ");
    reveal_strlit("  Device type: ");
    reveal_strlit("  Model: ");
    reveal_strlit("  Sink RTP port: ");
    reveal_strlit("  Command: ");
}

/// The first two lines about a peer.
proof fn lemma_peer_head(p: PeerModel)
    requires
        fits_a_line(p.address),
        may_fit_a_line(p.name),
    ensures
        fits_a_line(peer_title(p)),
        fits_a_line("  Miracast/Wi-Fi Display: yes"@),
        fits_a_line("  Miracast/Wi-Fi Display: unknown/no"@),
        p.address + (match p.name {
            Some(name) => "  "@ + name,
            None => Seq::empty(),
        }) + "\n  Miracast/Wi-Fi Display: "@ + (if p.is_miracast {
            "yes"@
        } else {
            "unknown/no"@
        }) + "\n"@ == peer_title(p) + "\n"@ + (if p.is_miracast {
            "  Miracast/Wi-Fi Display: yes"@
        } else {
            "  Miracast/Wi-Fi Display: unknown/no"@
        }) + "\n"@,
{
    reveal_strlit("  ");
    reveal_strlit("\n");
    reveal_strlit("\n  Miracast/Wi-Fi Display: ");
    reveal_strlit("  Miracast/Wi-Fi Display: yes");
    reveal_strlit("  Miracast/Wi-Fi Display: unknown/no");
    reveal_strlit("yes");
    reveal_strlit("unknown/no");
    let title = peer_title(p);
    if let Some(name) = p.name {
        dialogue::lemma_joined_line(p.address, "  "@);
        dialogue::lemma_joined_line(p.address + "  "@, name);
        if name.len() > 0 {
            assert(title.last() == name.last());
        } else {
            assert(title.last() == ' ');
        }
    }
    let start = p.address + (match p.name {
        Some(name) => "  "@ + name,
        None => Seq::empty(),
    });
    assert(start =~= title);
    let answer = if p.is_miracast {
        "yes"@
    } else {
        "unknown/no"@
    };
    let flag = if p.is_miracast {
        "  Miracast/Wi-Fi Display: yes"@
    } else {
        "  Miracast/Wi-Fi Display: unknown/no"@
    };
    assert("\n  Miracast/Wi-Fi Display: "@ + answer =~= "\n"@ + flag);
    assert(start + "\n  Miracast/Wi-Fi Display: "@ + answer =~= start + (
    "\n  Miracast/Wi-Fi Display: "@ + answer));
    assert(title + "\n"@ + flag =~= title + ("\n"@ + flag));
}

/// The peers of a scan are shown one after the other. If there are none, that
/// is said.
pub proof fn law_scan_is_shown(a: Seq<PeerModel>, p: PeerModel)
    ensures
        scan_text(seq![p]) == peer_lines(p),
        a.len() > 0 ==> scan_text(a.push(p)) == scan_text(a) + peer_lines(p),
        scan_text(Seq::empty()) == "No Wi-Fi Direct peers found.\n"@,
{
    assert(seq![p].drop_last() =~= Seq::<PeerModel>::empty());
    assert(peers_lines(Seq::empty()) + peer_lines(p) =~= peer_lines(p));
    assert(a.push(p).drop_last() =~= a);
}

/// What is shown of a link, line by line: the peer, the answer, the group if
/// one was seen, and the note.
pub proof fn law_link_is_shown(r: ConnectReport)
    requires
        fits_a_line(r.peer),
        fits_a_line(r.wpa_cli_response),
        may_fit_a_line(r.group_ifname),
        fits_a_line(r.note),
    ensures
        text::lines(connect_text(r)) == seq![
            "Submitted Miracast/Wi-Fi Direct link request to "@ + r.peer + "."@,
            "wpa_cli response: "@ + r.wpa_cli_response,
            if r.group_ifname is Some {
                "P2P group interface: "@ + r.group_ifname->Some_0
            } else {
                "P2P group interface was not observed before timeout."@
            },
            Seq::empty(),
            r.note,
        ],
{
    reveal_strlit("Submitted Miracast/Wi-Fi Direct link request to ");
    reveal_strlit(".");
    reveal_strlit(".\nwpa_cli response: ");
    reveal_strlit("wpa_cli response: ");
    reveal_strlit("\n");
    reveal_strlit("P2P group interface: ");
    reveal_strlit("P2P group interface was not observed before timeout.");
    reveal_strlit("P2P group interface was not observed before timeout.\n");
    let none = Seq::<char>::empty();
    let l1 = "Submitted Miracast/Wi-Fi Direct link request to "@ + r.peer + "."@;
    let l2 = "wpa_cli response: "@ + r.wpa_cli_response;
    let l3 = if r.group_ifname is Some {
        "P2P group interface: "@ + r.group_ifname->Some_0
    } else {
        "P2P group interface was not observed before timeout."@
    };
    dialogue::lemma_joined_line("Submitted Miracast/Wi-Fi Direct link request to "@, r.peer);
    dialogue::lemma_joined_line(
        "Submitted Miracast/Wi-Fi Direct link request to "@ + r.peer,
        "."@,
    );
    assert(l1.last() == '.');
    dialogue::lemma_joined_line("wpa_cli response: "@, r.wpa_cli_response);
    assert(l2.last() != '\r') by {
        if r.wpa_cli_response.len() == 0 {
            assert(l2.last() == ' ');
        } else {
            assert(l2.last() == r.wpa_cli_response.last());
        }
    }
    assert(exchange::one_line(l3) && l3.last() != '\r') by {
        if let Some(name) = r.group_ifname {
            dialogue::lemma_joined_line("P2P group interface: "@, name);
            if name.len() == 0 {
                assert(l3.last() == ' ');
            } else {
                assert(l3.last() == name.last());
            }
        }
    }
    lemma_line_more(none, l1);
    let t1 = none + l1 + "\n"@;
    lemma_line_more(t1, l2);
    let t2 = t1 + l2 + "\n"@;
    lemma_line_more(t2, l3);
    let t3 = t2 + l3 + "\n"@;
    lemma_line_more(t3, none);
    let t4 = t3 + none + "\n"@;
    lemma_line_more(t4, r.note);
    let t5 = t4 + r.note + "\n"@;
    assert("Submitted Miracast/Wi-Fi Direct link request to "@ + r.peer + ".\nwpa_cli response: "@
        + r.wpa_cli_response + "\n"@ =~= t2);
    assert((match r.group_ifname {
        Some(name) => "P2P group interface: "@ + name + "\n"@,
        None => "P2P group interface was not observed before timeout.\n"@,
    }) =~= l3 + "\n"@);
    assert(connect_text(r) =~= t5);
    assert(text::lines(none) =~= Seq::<Seq<char>>::empty());
    assert(text::lines(t5) =~= seq![l1, l2, l3, none, r.note]);
}

/// What is shown of a session, line by line: the sink, where the stream was
/// presented, the port if it was named, whether media was started and with
/// which command, and whether there was a teardown.
#[verifier::spinoff_prover]
#[verifier::rlimit(60)]
pub proof fn law_session_is_shown(r: ServeReport) -> (port: Option<Seq<char>>)
    requires
        fits_a_line(r.peer),
        fits_a_line(r.presentation_url),
        r.media_command matches Some(command) ==> fits_a_line(text::joined(command, " "@)),
    ensures
        port is Some <==> r.sink_rtp_port is Some,
        port is Some ==> number::number(port->Some_0, 65535) == Some(
            r.sink_rtp_port->Some_0 as nat,
        ),
        text::lines(serve_text(r)) == seq![
            "Miracast RTSP session ended."@,
            "  Peer: "@ + r.peer,
            "  Presentation URL: "@ + r.presentation_url,
        ] + line_for("  Sink RTP port: "@, port) + seq![
            if r.media_started {
                "  Media pipeline: started"@
            } else {
                "  Media pipeline: not started"@
            },
        ] + (if r.media_command is Some {
            seq!["  Command: "@ + text::joined(r.media_command->Some_0, " "@)]
        } else {
            Seq::empty()
        }) + seq![
            if r.teardown_received {
                "  Teardown: received"@
            } else {
                "  Teardown: not received"@
            },
        ],
{
    let none = Seq::<char>::empty();
    let l1 = "Miracast RTSP session ended."@;
    let l2 = "  Peer: "@ + r.peer;
    let l3 = "  Presentation URL: "@ + r.presentation_url;
    let l4 = if r.media_started {
        "  Media pipeline: started"@
    } else {
        "  Media pipeline: not started"@
    };
    let l5 = if r.teardown_received {
        "  Teardown: received"@
    } else {
        "  Teardown: not received"@
    };
    let command = match r.media_command {
        Some(command) => Some(text::joined(command, " "@)),
        None => None,
    };
    lemma_session_head(r);
    lemma_session_flags();
    lemma_labels();
    lemma_line_more(none, l1);
    let t1 = none + l1 + "\n"@;
    lemma_line_more(t1, l2);
    let t2 = t1 + l2 + "\n"@;
    lemma_line_more(t2, l3);
    let t3 = t2 + l3 + "\n"@;
    lemma_port_fits(r.sink_rtp_port);
    let port = port_text(r.sink_rtp_port);
    lemma_optional_line_more(t3, "  Sink RTP port: "@, port);
    let t4 = t3 + optional_line("  Sink RTP port: "@, port);
    lemma_line_more(t4, l4);
    let t5 = t4 + l4 + "\n"@;
    lemma_optional_line_more(t5, "  Command: "@, command);
    let t6 = t5 + optional_line("  Command: "@, command);
    lemma_line_more(t6, l5);
    let t7 = t6 + l5 + "\n"@;
    assert(none + l1 =~= l1);
    let started = if r.media_started {
        "started"@
    } else {
        "not started"@
    };
    let received = if r.teardown_received {
        "received"@
    } else {
        "not received"@
    };
    assert(t4 + "  Media pipeline: "@ + started =~= t4 + l4);
    assert(t6 + "  Teardown: "@ + received =~= t6 + l5);
    assert(serve_text(r) == t7);
    assert(text::lines(none) =~= Seq::<Seq<char>>::empty());
    assert(text::lines(t3) =~= seq![l1, l2, l3]);
    assert(text::lines(t7) =~= seq![l1, l2, l3] + line_for("  Sink RTP port: "@, port) + seq![l4]
        + line_for("  Command: "@, command) + seq![l5]);
    port
}

/// The first lines about a session.
proof fn lemma_session_head(r: ServeReport)
    requires
        fits_a_line(r.peer),
        fits_a_line(r.presentation_url),
    ensures
        fits_a_line("Miracast RTSP session ended."@),
        fits_a_line("  Peer: "@ + r.peer),
        fits_a_line("  Presentation URL: "@ + r.presentation_url),
        "Miracast RTSP session ended.\n  Peer: "@ + r.peer + "\n  Presentation URL: "@
            + r.presentation_url + "\n"@ == "Miracast RTSP session ended."@ + "\n"@ + ("  Peer: "@
            + r.peer) + "\n"@ + ("  Presentation URL: "@ + r.presentation_url) + "\n"@,
{
    reveal_strlit("Miracast RTSP session ended.");
    reveal_strlit("Miracast RTSP session ended.\n  Peer: ");
    reveal_strlit("  Peer: ");
    reveal_strlit("\n  Presentation URL: ");
    reveal_strlit("  Presentation URL: ");
    reveal_strlit("\n");
    dialogue::lemma_joined_line("  Peer: "@, r.peer);
    dialogue::lemma_joined_line("  Presentation URL: "@, r.presentation_url);
    if r.peer.len() > 0 {
        assert(("  Peer: "@ + r.peer).last() == r.peer.last());
    }
    if r.presentation_url.len() > 0 {
        assert(("  Presentation URL: "@ + r.presentation_url).last() == r.presentation_url.last());
    }
    assert("Miracast RTSP session ended.\n  Peer: "@ =~= "Miracast RTSP session ended."@ + "\n"@
        + "  Peer: "@);
    assert("\n  Presentation URL: "@ =~= "\n"@ + "  Presentation URL: "@);
    let a = "Miracast RTSP session ended."@ + "\n"@;
    let b = "  Peer: "@;
    let c = "  Presentation URL: "@;
    assert(a + b + r.peer =~= a + (b + r.peer));
    assert(a + (b + r.peer) + ("\n"@ + c) + r.presentation_url =~= a + (b + r.peer) + "\n"@ + (c
        + r.presentation_url));
}

/// The lines that tell what was done.
proof fn lemma_session_flags()
    ensures
        fits_a_line("  Media pipeline: started"@),
        fits_a_line("  Media pipeline: not started"@),
        fits_a_line("  Teardown: received"@),
        fits_a_line("  Teardown: not received"@),
        "  Media pipeline: "@ + "started"@ == "  Media pipeline: started"@,
        "  Media pipeline: "@ + "not started"@ == "  Media pipeline: not started"@,
        "  Teardown: "@ + "received"@ == "  Teardown: received"@,
        "  Teardown: "@ + "not received"@ == "  Teardown: not received"@,
{
    reveal_strlit("  Media pipeline: ");
    reveal_strlit("  Media pipeline: started");
    reveal_strlit("  Media pipeline: not started");
    reveal_strlit("started");
    reveal_strlit("not started");
    reveal_strlit("  Teardown: ");
    reveal_strlit("  Teardown: received");
    reveal_strlit("  Teardown: not received");
    reveal_strlit("received");
    reveal_strlit("not received");
    assert("  Media pipeline: "@ + "started"@ =~= "  Media pipeline: started"@);
    assert("  Media pipeline: "@ + "not started"@ =~= "  Media pipeline: not started"@);
    assert("  Teardown: "@ + "received"@ =~= "  Teardown: received"@);
    assert("  Teardown: "@ + "not received"@ =~= "  Teardown: not received"@);
}

} // verus!
