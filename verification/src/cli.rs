//! The commands of the tool and what they ask for.
use crate::config::{self, duration_arg, validate_video_formats, RtspSourceConfig};
use crate::connect::ConnectOptions;
use crate::device::{self, validate_peer_address, validate_wfd_device_info};
use crate::error::{self, ErrorCase, ErrorModel, MiracastError};
use crate::scan::ScanOptions;
use crate::text;
use crate::wpa::WpaCli;
use vstd::prelude::*;

verus! {

/// A command of the user.
#[derive(Clone, Debug, PartialEq, Eq)]
pub enum MiracastCommand {
    /// Scan for Wi-Fi Direct peers, including Miracast sinks.
    Scan {
        /// Wi-Fi interface controlled by wpa_supplicant.
        ifname: Option<String>,
        /// How long to scan for, in seconds.
        timeout: u64,
        /// Print machine-readable JSON.
        json: bool,
        /// Show only peers that advertise Wi-Fi Display / Miracast capabilities.
        miracast_only: bool,
        /// Flush wpa_supplicant's P2P peer cache before scanning.
        flush: bool,
        /// Do not advertise local Wi-Fi Display source capabilities before scanning.
        no_wfd: bool,
        /// Wi-Fi Display Device Information subelement payload passed to wpa_cli.
        wfd_device_info: String,
    },
    /// Establish a Wi-Fi Direct link to a discovered Miracast sink.
    Connect {
        /// Peer P2P device address from a scan.
        peer: String,
        /// Wi-Fi interface controlled by wpa_supplicant.
        ifname: Option<String>,
        /// How long to wait for command completion, in seconds.
        timeout: u64,
        /// Print machine-readable JSON.
        json: bool,
        /// Use this PIN with the peer's keypad method instead of PBC.
        pin: Option<String>,
        /// Ask wpa_supplicant to generate and display a PIN instead of PBC.
        display_pin: bool,
        /// Request a persistent P2P group.
        persistent: bool,
        /// Force join-client behavior for an already-running Group Owner.
        join: bool,
        /// Request a Provision Discovery exchange before group formation.
        provdisc: bool,
        /// Do not let wpa_supplicant automatically decide whether to join an existing GO.
        no_auto: bool,
        /// Override P2P GO intent, 0..15.
        go_intent: Option<u8>,
        /// Force an operating frequency in MHz.
        freq: Option<u32>,
        /// Do not advertise local Wi-Fi Display source capabilities before connecting.
        no_wfd: bool,
        /// Wi-Fi Display Device Information subelement payload passed to wpa_cli.
        wfd_device_info: String,
    },
    /// Remove a P2P group interface.
    Disconnect {
        /// P2P group interface to remove, for example `p2p-wlan0-0`.
        group_ifname: String,
        /// Wi-Fi interface controlled by wpa_supplicant.
        ifname: Option<String>,
        /// Print machine-readable JSON.
        json: bool,
    },
    /// Run a Wi-Fi Display RTSP source and stream the current Wayland output.
    Serve {
        /// Address to listen on for the sink RTSP connection.
        bind: String,
        /// RTSP port to listen on.
        port: u16,
        /// Stop waiting for the sink after this many seconds; 0 means forever.
        accept_timeout: u64,
        /// Stop a connected RTSP session after this many idle seconds; 0 means forever.
        session_timeout: u64,
        /// Output name to capture with wf-recorder.
        output: Option<String>,
        /// Video framerate to request from wf-recorder.
        framerate: u32,
        /// Video bitrate to request from wf-recorder, in kbit/s.
        bitrate_kbps: u32,
        /// Video codec to request from wf-recorder.
        codec: String,
        /// Include audio using wf-recorder's default audio source.
        audio: bool,
        /// Include audio from the specified PipeWire/Pulse source.
        audio_device: Option<String>,
        /// Do the RTSP handshake but do not launch wf-recorder.
        no_media: bool,
        /// Override the selected WFD H.264 video format string.
        video_formats: String,
        /// Print machine-readable JSON after the session ends.
        json: bool,
    },
}

/// A command that was found to be in order, with what it takes to carry it out
/// and whether to print the result as JSON.
#[derive(Clone, Debug, PartialEq, Eq)]
pub enum MiracastPlan {
    Scan { cli: WpaCli, options: ScanOptions, json: bool },
    Connect { cli: WpaCli, options: ConnectOptions, json: bool },
    Disconnect { cli: WpaCli, group_ifname: String, json: bool },
    Serve { config: RtspSourceConfig, json: bool },
}

/// The error for an intent that is out of range.
pub open spec fn go_intent_error() -> ErrorModel {
    error::plain(ErrorCase::GoIntent, "--go-intent must be between 0 and 15"@)
}

/// What is wrong with a command, if anything is. Of several faults the first
/// one counts.
pub open spec fn command_error(command: MiracastCommand) -> Option<ErrorModel> {
    match command {
        MiracastCommand::Scan { wfd_device_info, .. } => device::device_info_error(
            wfd_device_info@,
        ),
        MiracastCommand::Connect { peer, go_intent, wfd_device_info, .. } => {
            if !device::is_mac(peer@) {
                Some(device::address_error(peer@))
            } else if device::device_info_error(wfd_device_info@) is Some {
                device::device_info_error(wfd_device_info@)
            } else if go_intent is Some && go_intent->Some_0 > 15 {
                Some(go_intent_error())
            } else {
                None
            }
        },
        MiracastCommand::Disconnect { .. } => None,
        MiracastCommand::Serve { video_formats, .. } => {
            let count = text::words(video_formats@).len();
            if count == 13 {
                None
            } else {
                Some(config::video_formats_error(count))
            }
        },
    }
}

/// Which audio is streamed: that of the device, if one is named, or else that
/// of the default device, if audio is wanted.
pub open spec fn audio_choice(audio: bool, device: Option<String>) -> Option<Option<String>> {
    if device is Some {
        Some(device)
    } else if audio {
        Some(None)
    } else {
        None
    }
}

/// What a command asks for.
pub open spec fn plan_of(command: MiracastCommand) -> MiracastPlan {
    match command {
        MiracastCommand::Scan {
            ifname,
            timeout,
            json,
            miracast_only,
            flush,
            no_wfd,
            wfd_device_info,
        } => MiracastPlan::Scan {
            cli: WpaCli { ifname },
            options: ScanOptions { timeout, miracast_only, flush, no_wfd, wfd_device_info },
            json,
        },
        MiracastCommand::Connect {
            peer,
            ifname,
            timeout,
            json,
            pin,
            display_pin,
            persistent,
            join,
            provdisc,
            no_auto,
            go_intent,
            freq,
            no_wfd,
            wfd_device_info,
        } => MiracastPlan::Connect {
            cli: WpaCli { ifname },
            options: ConnectOptions {
                peer,
                timeout,
                pin,
                display_pin,
                persistent,
                join,
                provdisc,
                auto: !no_auto,
                go_intent,
                freq,
                no_wfd,
                wfd_device_info,
            },
            json,
        },
        MiracastCommand::Disconnect { group_ifname, ifname, json } => MiracastPlan::Disconnect {
            cli: WpaCli { ifname },
            group_ifname,
            json,
        },
        MiracastCommand::Serve {
            bind,
            port,
            accept_timeout,
            session_timeout,
            output,
            framerate,
            bitrate_kbps,
            codec,
            audio,
            audio_device,
            no_media,
            video_formats,
            json,
        } => MiracastPlan::Serve {
            config: RtspSourceConfig {
                bind,
                port,
                accept_timeout: config::limit(accept_timeout),
                session_timeout: config::limit(session_timeout),
                output,
                framerate,
                bitrate_kbps,
                codec,
                audio: audio_choice(audio, audio_device),
                no_media,
                video_formats,
            },
            json,
        },
    }
}

/// Checks a command and says what it asks for.
pub fn handle_miracast(command: MiracastCommand) -> (r: Result<MiracastPlan, MiracastError>)
    ensures
        match r {
            Ok(plan) => command_error(command) is None && plan == plan_of(command),
            Err(e) => command_error(command) == Some(e@),
        },
{
    match command {
        MiracastCommand::Scan {
            ifname,
            timeout,
            json,
            miracast_only,
            flush,
            no_wfd,
            wfd_device_info,
        } => {
            if let Err(e) = validate_wfd_device_info(wfd_device_info.as_str()) {
                return Err(e);
            }
            Ok(
                MiracastPlan::Scan {
                    cli: WpaCli::new(ifname),
                    options: ScanOptions {
                        timeout,
                        miracast_only,
                        flush,
                        no_wfd,
                        wfd_device_info,
                    },
                    json,
                },
            )
        },
        MiracastCommand::Connect {
            peer,
            ifname,
            timeout,
            json,
            pin,
            display_pin,
            persistent,
            join,
            provdisc,
            no_auto,
            go_intent,
            freq,
            no_wfd,
            wfd_device_info,
        } => {
            if let Err(e) = validate_peer_address(peer.as_str()) {
                return Err(e);
            }
            if let Err(e) = validate_wfd_device_info(wfd_device_info.as_str()) {
                return Err(e);
            }
            if let Some(intent) = go_intent {
                if intent > 15 {
                    return Err(
                        MiracastError::new(
                            ErrorCase::GoIntent,
                            "--go-intent must be between 0 and 15".to_owned(),
                        ),
                    );
                }
            }
            Ok(
                MiracastPlan::Connect {
                    cli: WpaCli::new(ifname),
                    options: ConnectOptions {
                        peer,
                        timeout,
                        pin,
                        display_pin,
                        persistent,
                        join,
                        provdisc,
                        auto: !no_auto,
                        go_intent,
                        freq,
                        no_wfd,
                        wfd_device_info,
                    },
                    json,
                },
            )
        },
        MiracastCommand::Disconnect { group_ifname, ifname, json } => Ok(
            MiracastPlan::Disconnect { cli: WpaCli::new(ifname), group_ifname, json },
        ),
        MiracastCommand::Serve {
            bind,
            port,
            accept_timeout,
            session_timeout,
            output,
            framerate,
            bitrate_kbps,
            codec,
            audio,
            audio_device,
            no_media,
            video_formats,
            json,
        } => {
            if let Err(e) = validate_video_formats(video_formats.as_str()) {
                return Err(e);
            }
            let audio: Option<Option<String>> = match audio_device {
                Some(device) => Some(Some(device)),
                None => if audio {
                    Some(None)
                } else {
                    None
                },
            };
            Ok(
                MiracastPlan::Serve {
                    config: RtspSourceConfig {
                        bind,
                        port,
                        accept_timeout: duration_arg(accept_timeout),
                        session_timeout: duration_arg(session_timeout),
                        output,
                        framerate,
                        bitrate_kbps,
                        codec,
                        audio,
                        no_media,
                        video_formats,
                    },
                    json,
                },
            )
        },
    }
}

/// A shell to complete commands for.
#[derive(Clone, Copy, PartialEq, Eq, Structural, Debug)]
pub enum CompletionShell {
    Bash,
    Elvish,
    Fish,
    PowerShell,
    Zsh,
    Nushell,
}

/// A shell that the completion generator knows by itself.
#[derive(Clone, Copy, PartialEq, Eq, Structural, Debug)]
pub enum StandardShell {
    Bash,
    Elvish,
    Fish,
    PowerShell,
    Zsh,
}

/// The shell as the completion generator knows it. Nushell takes a generator of
/// its own.
pub open spec fn standard_shell(shell: CompletionShell) -> Option<StandardShell> {
    match shell {
        CompletionShell::Bash => Some(StandardShell::Bash),
        CompletionShell::Elvish => Some(StandardShell::Elvish),
        CompletionShell::Fish => Some(StandardShell::Fish),
        CompletionShell::PowerShell => Some(StandardShell::PowerShell),
        CompletionShell::Zsh => Some(StandardShell::Zsh),
        CompletionShell::Nushell => None,
    }
}

impl StandardShell {
    /// The shell as the completion generator knows it.
    pub fn try_from(shell: CompletionShell) -> (r: Result<StandardShell, &'static str>)
        ensures
            match r {
                Ok(s) => standard_shell(shell) == Some(s),
                Err(e) => {
                    &&& standard_shell(shell) is None
                    &&& e@ == "Nushell should be handled separately"@
                },
            },
    {
        match shell {
            CompletionShell::Bash => Ok(StandardShell::Bash),
            CompletionShell::Elvish => Ok(StandardShell::Elvish),
            CompletionShell::Fish => Ok(StandardShell::Fish),
            CompletionShell::PowerShell => Ok(StandardShell::PowerShell),
            CompletionShell::Zsh => Ok(StandardShell::Zsh),
            CompletionShell::Nushell => Err("Nushell should be handled separately"),
        }
    }
}

/// A scan is refused exactly if its device information is not an even number of
/// hexadecimal digits. Otherwise it is carried out as it was asked for.
pub proof fn law_scan_command(command: MiracastCommand)
    requires
        command is Scan,
    ensures
        command_error(command) is None <==> device::is_even_hex(command->Scan_wfd_device_info@),
        plan_of(command) matches MiracastPlan::Scan { cli, options, json } && {
            &&& cli.ifname == command->Scan_ifname
            &&& options.timeout == command->Scan_timeout
            &&& options.miracast_only == command->miracast_only
            &&& options.flush == command->flush
            &&& options.no_wfd == command->Scan_no_wfd
            &&& options.wfd_device_info == command->Scan_wfd_device_info
            &&& json == command->Scan_json
        },
{
    device::law_device_info(command->Scan_wfd_device_info@);
}

/// A link is refused exactly if the peer is not given by a MAC address, the
/// device information is not an even number of hexadecimal digits, or the
/// intent is larger than fifteen, and the error tells the first of these that
/// holds. Otherwise it is asked for as the command says.
pub proof fn law_connect_command_line(command: MiracastCommand)
    requires
        command is Connect,
    ensures
        ({
            let mac = device::is_mac(command->peer@);
            let hex = device::is_even_hex(command->Connect_wfd_device_info@);
            let small = command->go_intent is None || command->go_intent->Some_0 <= 15;
            let e = command_error(command);
            &&& e is None <==> mac && hex && small
            &&& !mac ==> e->Some_0.case == ErrorCase::PeerAddress && e->Some_0.message
                == "peer must be a P2P device MAC address, got `"@ + command->peer@ + "`"@
            &&& mac && !hex ==> e->Some_0.case == ErrorCase::DeviceInfoLength || e->Some_0.case
                == ErrorCase::DeviceInfoDigits
            &&& mac && hex && !small ==> e->Some_0.case == ErrorCase::GoIntent
        }),
        plan_of(command) matches MiracastPlan::Connect { cli, options, json } && {
            &&& cli.ifname == command->Connect_ifname
            &&& options.peer == command->peer
            &&& options.timeout == command->Connect_timeout
            &&& options.pin == command->pin
            &&& options.display_pin == command->display_pin
            &&& options.persistent == command->persistent
            &&& options.join == command->join
            &&& options.provdisc == command->provdisc
            &&& options.auto != command->no_auto
            &&& options.go_intent == command->go_intent
            &&& options.freq == command->freq
            &&& options.no_wfd == command->Connect_no_wfd
            &&& options.wfd_device_info == command->Connect_wfd_device_info
            &&& json == command->Connect_json
        },
{
    device::law_device_info(command->Connect_wfd_device_info@);
}

/// A link is removed as the command says, and it is never refused.
pub proof fn law_disconnect_command_line(command: MiracastCommand)
    requires
        command is Disconnect,
    ensures
        command_error(command) is None,
        plan_of(command) matches MiracastPlan::Disconnect { cli, group_ifname, json } && {
            &&& cli.ifname == command->Disconnect_ifname
            &&& group_ifname == command->group_ifname
            &&& json == command->Disconnect_json
        },
{
}

/// A session is refused exactly if the video formats do not have thirteen
/// words. Otherwise the source is set up as the command says: a limit of zero
/// is none, and a named audio device counts as a wish for audio.
pub proof fn law_serve_command(command: MiracastCommand)
    requires
        command is Serve,
    ensures
        command_error(command) is None <==> text::words(command->video_formats@).len() == 13,
        plan_of(command) matches MiracastPlan::Serve { config: c, json } && {
            &&& c.bind == command->bind
            &&& c.port == command->port
            &&& c.accept_timeout == (if command->accept_timeout == 0 {
                None
            } else {
                Some(command->accept_timeout)
            })
            &&& c.session_timeout == (if command->session_timeout == 0 {
                None
            } else {
                Some(command->session_timeout)
            })
            &&& c.output == command->output
            &&& c.framerate == command->framerate
            &&& c.bitrate_kbps == command->bitrate_kbps
            &&& c.codec == command->codec
            &&& c.audio is Some <==> command->audio || command->audio_device is Some
            &&& c.audio is Some ==> c.audio->Some_0 == command->audio_device
            &&& c.no_media == command->no_media
            &&& c.video_formats == command->video_formats
            &&& json == command->Serve_json
        },
{
}

/// Every shell but Nushell is one that the completion generator knows, and no
/// two of them are the same to it.
pub proof fn law_shells(a: CompletionShell, b: CompletionShell)
    ensures
        standard_shell(a) is None <==> a == CompletionShell::Nushell,
        standard_shell(a) == standard_shell(b) ==> a == b,
        a == CompletionShell::Bash <==> standard_shell(a) == Some(StandardShell::Bash),
        a == CompletionShell::Elvish <==> standard_shell(a) == Some(StandardShell::Elvish),
        a == CompletionShell::Fish <==> standard_shell(a) == Some(StandardShell::Fish),
        a == CompletionShell::PowerShell <==> standard_shell(a) == Some(StandardShell::PowerShell),
        a == CompletionShell::Zsh <==> standard_shell(a) == Some(StandardShell::Zsh),
{
}

} // verus!
