//! The control session with a sink.
//!
//! The source asks the sink what it can do, tells it what will be streamed and
//! triggers the setup of the stream. In between and afterwards it answers what
//! the sink asks for. [`RtspSession`] decides what to send and when the media
//! pipeline runs.
use crate::config::{self, build_wf_recorder_args, RtspSourceConfig};
use crate::error::{self, ErrorCase, ErrorModel, MiracastError};
use crate::fields::{self, FieldMap};
use crate::number::{self, parse_u32, push_decimal, push_hex};
use crate::params::{
    self, announcement, build_get_parameter_response, parse_rtsp_parameters,
    parse_transport_client_port, parse_wfd_client_rtp_port_from_params, DEFAULT_RTP_PORT,
};
use crate::random::{random_below, random_u32};
use crate::reader::{self, header};
use crate::rtsp::{self, write_error, write_request, write_response, MessageModel, RtspMessage};
use crate::text::{self, chars_of, join, same_text};
use std::collections::BTreeMap;
use vstd::prelude::*;

verus! {

/// The number of ports that a stream can come from.
pub const SERVER_PORTS: u16 = 1000;

/// What the source asks a sink.
#[derive(Clone, Copy, PartialEq, Eq, Structural, Debug)]
pub enum OutgoingRtsp {
    Options,
    GetParameters,
    SetParameters,
    TriggerSetup,
}

/// The requests of the source: the number of the next one, and those that wait
/// for a response.
#[derive(Debug)]
pub struct OutgoingRtspState {
    pub next_cseq: u32,
    pub pending: BTreeMap<u32, OutgoingRtsp>,
}

/// What came of a session.
#[derive(Clone, Debug, PartialEq, Eq)]
pub struct MiracastServeResult {
    pub peer: String,
    pub presentation_url: String,
    pub sink_rtp_port: Option<u16>,
    pub media_started: bool,
    pub media_command: Option<Vec<String>>,
    pub teardown_received: bool,
}

/// What is said about a session.
pub struct ServeReport {
    pub peer: Seq<char>,
    pub presentation_url: Seq<char>,
    pub sink_rtp_port: Option<u16>,
    pub media_started: bool,
    pub media_command: Option<Seq<Seq<char>>>,
    pub teardown_received: bool,
}

/// The texts of an optional list.
pub open spec fn opt_texts(list: Option<Vec<String>>) -> Option<Seq<Seq<char>>> {
    match list {
        Some(list) => Some(text::texts(list@)),
        None => None,
    }
}

impl View for MiracastServeResult {
    type V = ServeReport;

    open spec fn view(&self) -> ServeReport {
        ServeReport {
            peer: self.peer@,
            presentation_url: self.presentation_url@,
            sink_rtp_port: self.sink_rtp_port,
            media_started: self.media_started,
            media_command: opt_texts(self.media_command),
            teardown_received: self.teardown_received,
        }
    }
}

/// What follows once an answer was sent.
#[derive(Debug)]
pub enum SessionNext {
    /// Read the next message.
    Read,
    /// Start the media pipeline with this command, then read on.
    StartMedia(Vec<String>),
    /// Stop the media pipeline if it runs, then read on.
    StopMedia,
    /// The session is over.
    Finish,
    /// The session failed.
    Fail(MiracastError),
}

/// What a session wants done: a text to send first, and what follows.
#[derive(Debug)]
pub struct SessionAction {
    pub send: Option<String>,
    pub next: SessionNext,
}

/// What follows once an answer was sent.
pub enum NextStep {
    Read,
    StartMedia(Seq<Seq<char>>),
    StopMedia,
    Finish,
    Fail(ErrorModel),
}

/// What an action stands for.
pub struct SessionStep {
    pub send: Option<Seq<char>>,
    pub next: NextStep,
}

impl View for SessionNext {
    type V = NextStep;

    open spec fn view(&self) -> NextStep {
        match self {
            SessionNext::Read => NextStep::Read,
            SessionNext::StartMedia(command) => NextStep::StartMedia(text::texts(command@)),
            SessionNext::StopMedia => NextStep::StopMedia,
            SessionNext::Finish => NextStep::Finish,
            SessionNext::Fail(e) => NextStep::Fail(e@),
        }
    }
}

impl View for SessionAction {
    type V = SessionStep;

    open spec fn view(&self) -> SessionStep {
        SessionStep { send: text::opt_text(self.send), next: self.next@ }
    }
}

/// A session under way.
#[derive(Debug)]
pub struct RtspSession {
    config: RtspSourceConfig,
    peer: String,
    presentation_url: String,
    outgoing: OutgoingRtspState,
    session_id: String,
    sink_rtp_port: Option<u16>,
    media: bool,
    media_command: Option<Vec<String>>,
    teardown_received: bool,
    finished: bool,
}

/// What a session is about: how the source is configured, the address of the
/// sink and where the stream is presented.
pub struct SourceModel {
    pub config: RtspSourceConfig,
    pub peer: Seq<char>,
    pub presentation_url: Seq<char>,
}

/// Where a session stands.
pub struct SessionState {
    /// The number of the next request.
    pub next_cseq: u32,
    /// The requests that wait for a response.
    pub pending: Map<u32, OutgoingRtsp>,
    pub session_id: Seq<char>,
    pub sink_rtp_port: Option<u16>,
    /// Whether the media pipeline runs.
    pub media: bool,
    /// The command of the media pipeline that was started last.
    pub media_command: Option<Seq<Seq<char>>>,
    pub teardown_received: bool,
    pub finished: bool,
}

impl View for RtspSession {
    type V = SessionState;

    closed spec fn view(&self) -> SessionState {
        SessionState {
            next_cseq: self.outgoing.next_cseq,
            pending: self.outgoing.pending@,
            session_id: self.session_id@,
            sink_rtp_port: self.sink_rtp_port,
            media: self.media,
            media_command: opt_texts(self.media_command),
            teardown_received: self.teardown_received,
            finished: self.finished,
        }
    }
}

/// Where the stream is presented by a source with this address.
pub open spec fn url_of(ip: Seq<char>, port: u16) -> Seq<char> {
    "rtsp://"@ + ip + ":"@ + number::decimal(port as nat) + "/wfd1.0/streamid=0"@
}

/// Where the stream is presented by a source with this address.
pub fn presentation_url(ip: &str, port: u16) -> (url: String)
    ensures
        url@ == url_of(ip@, port),
{
    let mut url: String = "rtsp://".to_owned();
    url.append(ip);
    url.append(":");
    push_decimal(&mut url, port as u64);
    url.append("/wfd1.0/streamid=0");
    url
}

/// The header of a body that holds parameters.
pub open spec fn parameters_header() -> Seq<(Seq<char>, Seq<char>)> {
    seq![("Content-Type"@, "text/parameters"@)]
}

/// A request of the source.
pub open spec fn request_of(
    kind: OutgoingRtsp,
    cseq: u32,
    source: SourceModel,
    port: Option<u16>,
) -> Seq<char> {
    match kind {
        OutgoingRtsp::Options => rtsp::request_text(
            "OPTIONS"@,
            "*"@,
            cseq as nat,
            seq![("Require"@, "org.wfa.wfd1.0"@)],
            ""@,
        ),
        OutgoingRtsp::GetParameters => rtsp::request_text(
            "GET_PARAMETER"@,
            "rtsp://localhost/wfd1.0"@,
            cseq as nat,
            parameters_header(),
            "wfd_client_rtp_ports\r\nwfd_audio_codecs\r\nwfd_video_formats\r\nwfd_display_edid\r\n"@,
        ),
        OutgoingRtsp::SetParameters => rtsp::request_text(
            "SET_PARAMETER"@,
            "rtsp://localhost/wfd1.0"@,
            cseq as nat,
            parameters_header(),
            params::parameter_lines(
                params::announced_parameters(),
                source.config,
                port,
                source.presentation_url,
            ),
        ),
        OutgoingRtsp::TriggerSetup => rtsp::request_text(
            "SET_PARAMETER"@,
            "rtsp://localhost/wfd1.0"@,
            cseq as nat,
            parameters_header(),
            "wfd_trigger_method: SETUP\r\n"@,
        ),
    }
}

/// Nothing is sent and the next message is read.
pub open spec fn step_to_read(s: SessionState) -> (SessionState, SessionStep) {
    (s, SessionStep { send: None, next: NextStep::Read })
}

/// A request is sent, with the next number.
pub open spec fn step_to_request(source: SourceModel, s: SessionState, kind: OutgoingRtsp) -> (
    SessionState,
    SessionStep,
) {
    (
        SessionState {
            next_cseq: (s.next_cseq + 1) as u32,
            pending: s.pending.insert(s.next_cseq, kind),
            ..s
        },
        SessionStep {
            send: Some(request_of(kind, s.next_cseq, source, s.sink_rtp_port)),
            next: NextStep::Read,
        },
    )
}

/// The start of a session.
pub open spec fn first_step(source: SourceModel) -> (SessionState, SessionStep) {
    step_to_request(
        source,
        SessionState {
            next_cseq: 1,
            pending: Map::empty(),
            session_id: "niri"@,
            sink_rtp_port: None,
            media: false,
            media_command: None,
            teardown_received: false,
            finished: false,
        },
        OutgoingRtsp::Options,
    )
}

/// The error for a response that reports one.
pub open spec fn sink_error(code: u16, body: Seq<char>) -> ErrorModel {
    error::plain(
        ErrorCase::SinkError,
        "Miracast sink returned RTSP error "@ + number::decimal(code as nat) + ": "@ + body,
    )
}

/// The request that a response belongs to, by its number.
pub open spec fn answered_request(
    pending: Map<u32, OutgoingRtsp>,
    headers: Map<Seq<char>, Seq<char>>,
) -> Option<u32> {
    match reader::header_value(headers, "cseq"@) {
        Some(value) => match number::number(value, u32::MAX as nat) {
            Some(n) => if pending.contains_key(n as u32) {
                Some(n as u32)
            } else {
                None
            },
            None => None,
        },
        None => None,
    }
}

/// The newest word on the port of the sink.
pub open spec fn updated_port(known: Option<u16>, named: Option<nat>) -> Option<u16> {
    match named {
        Some(n) => Some(n as u16),
        None => known,
    }
}

/// What follows a response. Each request but the last is followed by the next
/// one; responses to nothing are passed over.
pub open spec fn step_after_response(
    source: SourceModel,
    s: SessionState,
    code: u16,
    headers: Map<Seq<char>, Seq<char>>,
    body: Seq<char>,
) -> (SessionState, SessionStep) {
    if !(200 <= code < 300) {
        (
            SessionState { finished: true, ..s },
            SessionStep { send: None, next: NextStep::Fail(sink_error(code, body)) },
        )
    } else {
        match answered_request(s.pending, headers) {
            Some(cseq) => {
                let rest = SessionState { pending: s.pending.remove(cseq), ..s };
                match s.pending[cseq] {
                    OutgoingRtsp::Options => step_to_request(
                        source,
                        rest,
                        OutgoingRtsp::GetParameters,
                    ),
                    OutgoingRtsp::GetParameters => step_to_request(
                        source,
                        SessionState {
                            sink_rtp_port: updated_port(
                                s.sink_rtp_port,
                                params::parameter_port(params::parameters_of(text::lines(body))),
                            ),
                            ..rest
                        },
                        OutgoingRtsp::SetParameters,
                    ),
                    OutgoingRtsp::SetParameters => step_to_request(
                        source,
                        rest,
                        OutgoingRtsp::TriggerSetup,
                    ),
                    OutgoingRtsp::TriggerSetup => step_to_read(rest),
                }
            },
            None => step_to_read(s),
        }
    }
}

/// The number that an answer repeats.
pub open spec fn request_cseq(headers: Map<Seq<char>, Seq<char>>) -> Seq<char> {
    match reader::header_value(headers, "cseq"@) {
        Some(value) => value,
        None => "0"@,
    }
}

/// A request is answered.
pub open spec fn answer(
    cseq: Seq<char>,
    headers: Seq<(Seq<char>, Seq<char>)>,
    body: Seq<char>,
    next: NextStep,
) -> SessionStep {
    SessionStep { send: Some(rtsp::response_text(cseq, headers, body)), next }
}

/// The header that names the session.
pub open spec fn session_header(s: SessionState) -> Seq<(Seq<char>, Seq<char>)> {
    seq![("Session"@, s.session_id)]
}

/// The parameters that were set, one on each line.
pub open spec fn names_text(params: Map<Seq<char>, Seq<char>>) -> Seq<char> {
    let names = text::joined(fields::sorted_names(params), "\r\n"@);
    if names.len() == 0 {
        names
    } else {
        names + "\r\n"@
    }
}

/// The name of a session.
pub open spec fn session_name(tag: u32) -> Seq<char> {
    "niri"@ + number::hex_digits(tag as nat, 8)
}

/// A name that a session can have.
pub open spec fn is_session_name(name: Seq<char>) -> bool {
    name == "niri"@ || exists|tag: u32| name == #[trigger] session_name(tag)
}

/// How the media goes to the sink.
pub open spec fn transport_text(port: Option<u16>, offset: u16) -> Seq<char> {
    "RTP/AVP/UDP;unicast;client_port="@ + number::decimal(params::port_or_default(port))
        + ";server_port="@ + number::decimal((50000 + offset * 2) as nat) + "-"@ + number::decimal(
        (50001 + offset * 2) as nat,
    )
}

/// The port that the headers of a setup name.
pub open spec fn setup_port(headers: Map<Seq<char>, Seq<char>>) -> Option<nat> {
    match reader::header_value(headers, "transport"@) {
        Some(transport) => params::transport_port(transport),
        None => None,
    }
}

/// The command of the media pipeline.
pub open spec fn media_command_of(source: SourceModel, port: u16) -> Seq<Seq<char>> {
    seq!["wf-recorder"@] + config::recorder_args(source.config, source.peer, port)
}

/// What follows a request to play. The media pipeline is started unless it runs
/// or there is to be none.
pub open spec fn step_to_play(source: SourceModel, s: SessionState, cseq: Seq<char>) -> (
    SessionState,
    SessionStep,
) {
    if s.media || source.config.no_media {
        (s, answer(cseq, session_header(s), ""@, NextStep::Read))
    } else {
        match s.sink_rtp_port {
            Some(port) => {
                let command = media_command_of(source, port);
                (
                    SessionState { media: true, media_command: Some(command), ..s },
                    answer(cseq, session_header(s), ""@, NextStep::StartMedia(command)),
                )
            },
            None => (
                SessionState { finished: true, ..s },
                answer(
                    cseq,
                    session_header(s),
                    ""@,
                    NextStep::Fail(
                        error::plain(
                            ErrorCase::NoRtpPort,
                            "sink did not provide an RTP port"@,
                        ),
                    ),
                ),
            ),
        }
    }
}

/// What the source lets a sink do.
pub open spec fn public_methods() -> Seq<char> {
    "org.wfa.wfd1.0, OPTIONS, GET_PARAMETER, SET_PARAMETER, SETUP, PLAY, PAUSE, TEARDOWN"@
}

/// What follows a request. `tag` and `offset` are random numbers for the name
/// of the session and for the port that the stream comes from.
pub open spec fn step_after_request(
    source: SourceModel,
    s: SessionState,
    method: Seq<char>,
    headers: Map<Seq<char>, Seq<char>>,
    body: Seq<char>,
    tag: u32,
    offset: u16,
) -> (SessionState, SessionStep) {
    let cseq = request_cseq(headers);
    if method == "OPTIONS"@ {
        (s, answer(cseq, seq![("Public"@, public_methods())], ""@, NextStep::Read))
    } else if method == "GET_PARAMETER"@ {
        (
            s,
            answer(
                cseq,
                parameters_header(),
                params::parameter_lines(
                    params::requested_parameters(body),
                    source.config,
                    s.sink_rtp_port,
                    source.presentation_url,
                ),
                NextStep::Read,
            ),
        )
    } else if method == "SET_PARAMETER"@ {
        (
            s,
            answer(
                cseq,
                parameters_header(),
                names_text(params::parameters_of(text::lines(body))),
                NextStep::Read,
            ),
        )
    } else if method == "SETUP"@ {
        let next = SessionState {
            sink_rtp_port: updated_port(s.sink_rtp_port, setup_port(headers)),
            session_id: session_name(tag),
            ..s
        };
        (
            next,
            answer(
                cseq,
                seq![
                    ("Session"@, next.session_id),
                    ("Transport"@, transport_text(next.sink_rtp_port, offset)),
                ],
                ""@,
                NextStep::Read,
            ),
        )
    } else if method == "PLAY"@ {
        step_to_play(source, s, cseq)
    } else if method == "PAUSE"@ {
        (
            SessionState { media: false, ..s },
            answer(cseq, session_header(s), ""@, NextStep::StopMedia),
        )
    } else if method == "TEARDOWN"@ {
        (
            SessionState { teardown_received: true, finished: true, ..s },
            answer(cseq, session_header(s), ""@, NextStep::Finish),
        )
    } else {
        (
            s,
            SessionStep {
                send: Some(rtsp::error_text(cseq, 405, "Method Not Allowed"@)),
                next: NextStep::Read,
            },
        )
    }
}

/// What follows a message.
pub open spec fn step_after_message(
    source: SourceModel,
    s: SessionState,
    message: MessageModel,
    tag: u32,
    offset: u16,
) -> (SessionState, SessionStep) {
    match message {
        MessageModel::Response { code, headers, body } => step_after_response(
            source,
            s,
            code,
            headers,
            body,
        ),
        MessageModel::Request { method, headers, body } => step_after_request(
            source,
            s,
            method,
            headers,
            body,
            tag,
            offset,
        ),
    }
}

/// What follows when the sink has nothing more to say.
pub open spec fn step_after_close(s: SessionState) -> (SessionState, SessionStep) {
    (SessionState { finished: true, ..s }, SessionStep { send: None, next: NextStep::Finish })
}

/// What is reported about a session.
pub open spec fn report_of(source: SourceModel, s: SessionState) -> ServeReport {
    ServeReport {
        peer: source.peer,
        presentation_url: source.presentation_url,
        sink_rtp_port: s.sink_rtp_port,
        media_started: s.media_command is Some,
        media_command: s.media_command,
        teardown_received: s.teardown_received,
    }
}

/// The requests of a source, by their numbers.
pub open spec fn numbered_request(cseq: int) -> OutgoingRtsp {
    if cseq == 1 {
        OutgoingRtsp::Options
    } else if cseq == 2 {
        OutgoingRtsp::GetParameters
    } else if cseq == 3 {
        OutgoingRtsp::SetParameters
    } else {
        OutgoingRtsp::TriggerSetup
    }
}

/// What holds of a session at any time: requests have the numbers one to four,
/// in the order of the handshake, and only the newest one can wait for a
/// response. Once the last one is answered, none does. The media pipeline that
/// runs was started with a command.
pub open spec fn well_formed(s: SessionState) -> bool {
    &&& 2 <= s.next_cseq <= 5
    &&& {
        ||| s.pending == Map::<u32, OutgoingRtsp>::empty().insert(
            (s.next_cseq - 1) as u32,
            numbered_request(s.next_cseq - 1),
        )
        ||| s.next_cseq == 5 && s.pending == Map::<u32, OutgoingRtsp>::empty()
    }
    &&& is_session_name(s.session_id)
    &&& s.media ==> s.media_command is Some
}

impl RtspSession {
    /// What this session is about.
    pub closed spec fn source(&self) -> SourceModel {
        SourceModel {
            config: self.config,
            peer: self.peer@,
            presentation_url: self.presentation_url@,
        }
    }

    /// Writes a request with the next number.
    fn request(
        &mut self,
        kind: OutgoingRtsp,
        method: &str,
        uri: &str,
        headers: &[(&str, &str)],
        body: &str,
    ) -> (action: SessionAction)
        requires
            old(self)@.next_cseq < u32::MAX,
        ensures
            final(self).source() == old(self).source(),
            final(self)@ == (SessionState {
                next_cseq: (old(self)@.next_cseq + 1) as u32,
                pending: old(self)@.pending.insert(old(self)@.next_cseq, kind),
                ..old(self)@
            }),
            action@ == (SessionStep {
                send: Some(
                    rtsp::request_text(
                        method@,
                        uri@,
                        old(self)@.next_cseq as nat,
                        rtsp::header_texts(headers@),
                        body@,
                    ),
                ),
                next: NextStep::Read,
            }),
    {
        let cseq: u32 = self.outgoing.next_cseq;
        self.outgoing.next_cseq = cseq + 1;
        self.outgoing.pending.insert(cseq, kind);
        SessionAction {
            send: Some(write_request(method, uri, cseq, headers, body)),
            next: SessionNext::Read,
        }
    }

    /// Asks for the capabilities of the sink.
    fn send_m3_get_parameters(&mut self) -> (action: SessionAction)
        requires
            old(self)@.next_cseq < u32::MAX,
        ensures
            final(self).source() == old(self).source(),
            (final(self)@, action@) == step_to_request(
                old(self).source(),
                old(self)@,
                OutgoingRtsp::GetParameters,
            ),
    {
        let headers: [(&str, &str); 1] = [("Content-Type", "text/parameters")];
        assert(rtsp::header_texts(headers@) =~= parameters_header());
        self.request(
            OutgoingRtsp::GetParameters,
            "GET_PARAMETER",
            "rtsp://localhost/wfd1.0",
            headers.as_slice(),
            "wfd_client_rtp_ports\r\nwfd_audio_codecs\r\nwfd_video_formats\r\nwfd_display_edid\r\n",
        )
    }

    /// Tells the sink what will be streamed.
    fn send_m4_set_parameters(&mut self) -> (action: SessionAction)
        requires
            old(self)@.next_cseq < u32::MAX,
        ensures
            final(self).source() == old(self).source(),
            (final(self)@, action@) == step_to_request(
                old(self).source(),
                old(self)@,
                OutgoingRtsp::SetParameters,
            ),
    {
        let headers: [(&str, &str); 1] = [("Content-Type", "text/parameters")];
        assert(rtsp::header_texts(headers@) =~= parameters_header());
        let body: String = announcement(
            &self.config,
            self.sink_rtp_port,
            self.presentation_url.as_str(),
        );
        self.request(
            OutgoingRtsp::SetParameters,
            "SET_PARAMETER",
            "rtsp://localhost/wfd1.0",
            headers.as_slice(),
            body.as_str(),
        )
    }

    /// Triggers the setup of the stream.
    fn send_trigger_setup(&mut self) -> (action: SessionAction)
        requires
            old(self)@.next_cseq < u32::MAX,
        ensures
            final(self).source() == old(self).source(),
            (final(self)@, action@) == step_to_request(
                old(self).source(),
                old(self)@,
                OutgoingRtsp::TriggerSetup,
            ),
    {
        let headers: [(&str, &str); 1] = [("Content-Type", "text/parameters")];
        assert(rtsp::header_texts(headers@) =~= parameters_header());
        self.request(
            OutgoingRtsp::TriggerSetup,
            "SET_PARAMETER",
            "rtsp://localhost/wfd1.0",
            headers.as_slice(),
            "wfd_trigger_method: SETUP\r\n",
        )
    }

    /// Starts a session with a sink at the address `peer`.
    pub fn start(config: RtspSourceConfig, peer: String, presentation_url: String) -> (r: (
        RtspSession,
        SessionAction,
    ))
        ensures
            r.0.source() == (SourceModel {
                config,
                peer: peer@,
                presentation_url: presentation_url@,
            }),
            (r.0@, r.1@) == first_step(r.0.source()),
            well_formed(r.0@),
    {
        let mut session: RtspSession = RtspSession {
            config,
            peer,
            presentation_url,
            outgoing: OutgoingRtspState { next_cseq: 1, pending: BTreeMap::new() },
            session_id: "niri".to_owned(),
            sink_rtp_port: None,
            media: false,
            media_command: None,
            teardown_received: false,
            finished: false,
        };
        let headers: [(&str, &str); 1] = [("Require", "org.wfa.wfd1.0")];
        assert(rtsp::header_texts(headers@) =~= seq![("Require"@, "org.wfa.wfd1.0"@)]);
        let action: SessionAction = session.request(
            OutgoingRtsp::Options,
            "OPTIONS",
            "*",
            headers.as_slice(),
            "",
        );
        (session, action)
    }

    /// Takes a response.
    fn on_response(&mut self, code: u16, headers: FieldMap, body: String) -> (action: SessionAction)
        requires
            well_formed(old(self)@),
        ensures
            final(self).source() == old(self).source(),
            (final(self)@, action@) == step_after_response(
                old(self).source(),
                old(self)@,
                code,
                headers@,
                body@,
            ),
            well_formed(final(self)@),
    {
        proof {
            law_session_stays_well_formed(self.source(), self@, MessageModel::Response {
                code,
                headers: headers@,
                body: body@,
            }, 0, 0);
        }
        if code < 200 || 300 <= code {
            let mut message: String = "Miracast sink returned RTSP error ".to_owned();
            push_decimal(&mut message, code as u64);
            message.append(": ");
            message.append(body.as_str());
            self.finished = true;
            return SessionAction {
                send: None,
                next: SessionNext::Fail(MiracastError::new(ErrorCase::SinkError, message)),
            };
        }
        let cseq: u32 = match header(&headers, "cseq") {
            Some(value) => {
                let chars: Vec<char> = chars_of(value.as_str());
                match parse_u32(chars.as_slice()) {
                    Some(n) => n,
                    None => {
                        return SessionAction { send: None, next: SessionNext::Read };
                    },
                }
            },
            None => {
                return SessionAction { send: None, next: SessionNext::Read };
            },
        };
        match self.outgoing.pending.remove(&cseq) {
            Some(OutgoingRtsp::Options) => self.send_m3_get_parameters(),
            Some(OutgoingRtsp::GetParameters) => {
                let params: FieldMap = parse_rtsp_parameters(body.as_str());
                let port: Option<u16> = parse_wfd_client_rtp_port_from_params(&params);
                if port.is_some() {
                    self.sink_rtp_port = port;
                }
                self.send_m4_set_parameters()
            },
            Some(OutgoingRtsp::SetParameters) => self.send_trigger_setup(),
            Some(OutgoingRtsp::TriggerSetup) => SessionAction {
                send: None,
                next: SessionNext::Read,
            },
            None => {
                assert(self@.pending =~= old(self)@.pending);
                SessionAction { send: None, next: SessionNext::Read }
            },
        }
    }

    /// Answers with the name of the session.
    fn answer_with_session(&self, cseq: &str, next: SessionNext) -> (action: SessionAction)
        ensures
            action@ == answer(cseq@, session_header(self@), ""@, next@),
    {
        let headers: [(&str, &str); 1] = [("Session", self.session_id.as_str())];
        assert(rtsp::header_texts(headers@) =~= session_header(self@));
        SessionAction { send: Some(write_response(cseq, headers.as_slice(), "")), next }
    }

    /// Answers with parameters.
    fn answer_with_parameters(&self, cseq: &str, body: &str) -> (action: SessionAction)
        ensures
            action@ == answer(cseq@, parameters_header(), body@, NextStep::Read),
    {
        let headers: [(&str, &str); 1] = [("Content-Type", "text/parameters")];
        assert(rtsp::header_texts(headers@) =~= parameters_header());
        SessionAction {
            send: Some(write_response(cseq, headers.as_slice(), body)),
            next: SessionNext::Read,
        }
    }

    /// The command of the media pipeline.
    fn media_command_for(&self, port: u16) -> (command: Vec<String>)
        ensures
            text::texts(command@) == media_command_of(self.source(), port),
    {
        broadcast use text::lemma_texts_push;

        let mut command: Vec<String> = Vec::new();
        command.push("wf-recorder".to_owned());
        let mut args: Vec<String> = build_wf_recorder_args(&self.config, self.peer.as_str(), port);
        let ghost head = command@;
        let ghost tail = args@;
        command.append(&mut args);
        proof {
            assert(text::texts(head) =~= seq!["wf-recorder"@]);
            assert(text::texts(command@) =~= text::texts(head) + text::texts(tail));
        }
        command
    }

    /// Answers a request to set up the stream.
    fn on_setup(&mut self, cseq: &str, headers: &FieldMap, tag: u32, offset: u16) -> (action:
        SessionAction)
        requires
            offset < SERVER_PORTS,
        ensures
            final(self).source() == old(self).source(),
            (final(self)@, action@) == ({
                let next = SessionState {
                    sink_rtp_port: updated_port(old(self)@.sink_rtp_port, setup_port(headers@)),
                    session_id: session_name(tag),
                    ..old(self)@
                };
                (
                    next,
                    answer(
                        cseq@,
                        seq![
                            ("Session"@, next.session_id),
                            ("Transport"@, transport_text(next.sink_rtp_port, offset)),
                        ],
                        ""@,
                        NextStep::Read,
                    ),
                )
            }),
    {
        if let Some(transport) = header(headers, "transport") {
            let port: Option<u16> = parse_transport_client_port(transport.as_str());
            if port.is_some() {
                self.sink_rtp_port = port;
            }
        }
        let mut name: String = "niri".to_owned();
        push_hex(&mut name, tag as u64, 8);
        self.session_id = name;
        let client_port: u16 = match self.sink_rtp_port {
            Some(port) => port,
            None => DEFAULT_RTP_PORT,
        };
        let server_port: u16 = 50000 + offset * 2;
        let mut transport: String = "RTP/AVP/UDP;unicast;client_port=".to_owned();
        push_decimal(&mut transport, client_port as u64);
        transport.append(";server_port=");
        push_decimal(&mut transport, server_port as u64);
        transport.append("-");
        push_decimal(&mut transport, (server_port + 1) as u64);
        let headers: [(&str, &str); 2] = [
            ("Session", self.session_id.as_str()),
            ("Transport", transport.as_str()),
        ];
        assert(transport@ =~= transport_text(self.sink_rtp_port, offset));
        assert(rtsp::header_texts(headers@) =~= seq![
            ("Session"@, self@.session_id),
            ("Transport"@, transport@),
        ]);
        SessionAction {
            send: Some(write_response(cseq, headers.as_slice(), "")),
            next: SessionNext::Read,
        }
    }

    /// Answers a request to play.
    fn on_play(&mut self, cseq: &str) -> (action: SessionAction)
        ensures
            final(self).source() == old(self).source(),
            (final(self)@, action@) == step_to_play(old(self).source(), old(self)@, cseq@),
    {
        if self.media || self.config.no_media {
            return self.answer_with_session(cseq, SessionNext::Read);
        }
        match self.sink_rtp_port {
            Some(port) => {
                let command: Vec<String> = self.media_command_for(port);
                self.media_command = Some(self.media_command_for(port));
                self.media = true;
                self.answer_with_session(cseq, SessionNext::StartMedia(command))
            },
            None => {
                let e: MiracastError = MiracastError::new(
                    ErrorCase::NoRtpPort,
                    "sink did not provide an RTP port".to_owned(),
                );
                self.finished = true;
                self.answer_with_session(cseq, SessionNext::Fail(e))
            },
        }
    }

    /// Takes a request.
    fn on_request(
        &mut self,
        method: String,
        headers: FieldMap,
        body: String,
        tag: u32,
        offset: u16,
    ) -> (action: SessionAction)
        requires
            offset < SERVER_PORTS,
        ensures
            final(self).source() == old(self).source(),
            (final(self)@, action@) == step_after_request(
                old(self).source(),
                old(self)@,
                method@,
                headers@,
                body@,
                tag,
                offset,
            ),
    {
        let number: String = match header(&headers, "cseq") {
            Some(value) => value.clone(),
            None => "0".to_owned(),
        };
        let cseq: &str = number.as_str();
        let chars: Vec<char> = chars_of(method.as_str());
        let m: &[char] = chars.as_slice();
        if same_text(m, "OPTIONS") {
            let headers: [(&str, &str); 1] = [
                (
                    "Public",
                    "org.wfa.wfd1.0, OPTIONS, GET_PARAMETER, SET_PARAMETER, SETUP, PLAY, PAUSE, TEARDOWN",
                ),
            ];
            assert(rtsp::header_texts(headers@) =~= seq![("Public"@, public_methods())]);
            SessionAction {
                send: Some(write_response(cseq, headers.as_slice(), "")),
                next: SessionNext::Read,
            }
        } else if same_text(m, "GET_PARAMETER") {
            let answer_body: String = build_get_parameter_response(
                body.as_str(),
                &self.config,
                self.sink_rtp_port,
                self.presentation_url.as_str(),
            );
            self.answer_with_parameters(cseq, answer_body.as_str())
        } else if same_text(m, "SET_PARAMETER") {
            let params: FieldMap = parse_rtsp_parameters(body.as_str());
            let names: Vec<String> = params.keys();
            let mut answer_body: String = join(names.as_slice(), "\r\n");
            if answer_body.as_str().unicode_len() > 0 {
                answer_body.append("\r\n");
            }
            self.answer_with_parameters(cseq, answer_body.as_str())
        } else if same_text(m, "SETUP") {
            self.on_setup(cseq, &headers, tag, offset)
        } else if same_text(m, "PLAY") {
            self.on_play(cseq)
        } else if same_text(m, "PAUSE") {
            self.media = false;
            self.answer_with_session(cseq, SessionNext::StopMedia)
        } else if same_text(m, "TEARDOWN") {
            self.teardown_received = true;
            self.finished = true;
            self.answer_with_session(cseq, SessionNext::Finish)
        } else {
            SessionAction {
                send: Some(write_error(cseq, 405, "Method Not Allowed")),
                next: SessionNext::Read,
            }
        }
    }

    /// Takes a message. `tag` and `offset` are random numbers, which only a
    /// setup of the stream makes use of.
    pub fn on_message_with(&mut self, message: RtspMessage, tag: u32, offset: u16) -> (action:
        SessionAction)
        requires
            well_formed(old(self)@),
            !old(self)@.finished,
            offset < SERVER_PORTS,
        ensures
            final(self).source() == old(self).source(),
            (final(self)@, action@) == step_after_message(
                old(self).source(),
                old(self)@,
                message@,
                tag,
                offset,
            ),
            well_formed(final(self)@),
    {
        proof {
            law_session_stays_well_formed(self.source(), self@, message@, tag, offset);
        }
        match message {
            RtspMessage::Response { code, headers, body } => self.on_response(code, headers, body),
            RtspMessage::Request { method, headers, body } => self.on_request(
                method,
                headers,
                body,
                tag,
                offset,
            ),
        }
    }

    /// Takes a message, and draws the random numbers that a setup of the stream
    /// needs.
    pub fn on_message(&mut self, message: RtspMessage) -> (action: SessionAction)
        requires
            well_formed(old(self)@),
            !old(self)@.finished,
        ensures
            final(self).source() == old(self).source(),
            exists|tag: u32, offset: u16|
                offset < SERVER_PORTS && (final(self)@, action@) == #[trigger] step_after_message(
                    old(self).source(),
                    old(self)@,
                    message@,
                    tag,
                    offset,
                ),
            well_formed(final(self)@),
    {
        let setup: bool = match &message {
            RtspMessage::Request { method, .. } => {
                let chars: Vec<char> = chars_of(method.as_str());
                same_text(chars.as_slice(), "SETUP")
            },
            RtspMessage::Response { .. } => false,
        };
        if setup {
            let tag: u32 = random_u32();
            let offset: u16 = random_below(SERVER_PORTS);
            self.on_message_with(message, tag, offset)
        } else {
            self.on_message_with(message, 0, 0)
        }
    }

    /// Takes note that the sink has nothing more to say.
    pub fn on_closed(&mut self) -> (action: SessionAction)
        requires
            well_formed(old(self)@),
            !old(self)@.finished,
        ensures
            final(self).source() == old(self).source(),
            (final(self)@, action@) == step_after_close(old(self)@),
            well_formed(final(self)@),
    {
        self.finished = true;
        SessionAction { send: None, next: SessionNext::Finish }
    }

    /// Whether the session is over.
    pub fn is_finished(&self) -> (r: bool)
        ensures
            r == self@.finished,
    {
        self.finished
    }

    /// Reports what came of the session.
    pub fn into_result(self) -> (r: MiracastServeResult)
        ensures
            r@ == report_of(self.source(), self@),
    {
        MiracastServeResult {
            peer: self.peer,
            presentation_url: self.presentation_url,
            sink_rtp_port: self.sink_rtp_port,
            media_started: self.media_command.is_some(),
            media_command: self.media_command,
            teardown_received: self.teardown_received,
        }
    }
}

/// Whatever the sink sends, the session stays well-formed: it never has more
/// than one request open, and its requests are numbered one to four.
pub proof fn law_session_stays_well_formed(
    source: SourceModel,
    s: SessionState,
    message: MessageModel,
    tag: u32,
    offset: u16,
)
    requires
        well_formed(s),
    ensures
        well_formed(first_step(source).0),
        well_formed(step_after_message(source, s, message, tag, offset).0),
        well_formed(step_after_close(s).0),
{
    if let MessageModel::Response { code, headers, body } = message {
        if let Some(cseq) = answered_request(s.pending, headers) {
            assert(cseq == s.next_cseq - 1);
            assert(s.pending.remove(cseq) =~= Map::<u32, OutgoingRtsp>::empty());
        }
    }
}

/// A response to the newest request takes the handshake one request further,
/// and the response to the last one completes it.
pub proof fn law_handshake_goes_on(
    source: SourceModel,
    s: SessionState,
    code: u16,
    headers: Map<Seq<char>, Seq<char>>,
    body: Seq<char>,
)
    requires
        well_formed(s),
        200 <= code < 300,
        answered_request(s.pending, headers) is Some,
    ensures
        ({
            let (next, step) = step_after_response(source, s, code, headers, body);
            let newest = (s.next_cseq - 1) as u32;
            let kind = numbered_request(s.next_cseq as int);
            &&& answered_request(s.pending, headers) == Some(newest)
            &&& step.next == NextStep::Read
            &&& newest < 4 ==> {
                &&& step.send == Some(request_of(kind, s.next_cseq, source, next.sink_rtp_port))
                &&& next.next_cseq == s.next_cseq + 1
                &&& next.pending == Map::<u32, OutgoingRtsp>::empty().insert(s.next_cseq, kind)
            }
            &&& newest == 4 ==> {
                &&& step.send is None
                &&& next == (SessionState { pending: Map::empty(), ..s })
            }
        }),
{
    let cseq = answered_request(s.pending, headers)->Some_0;
    assert(cseq == s.next_cseq - 1);
    assert(s.pending.remove(cseq) =~= Map::<u32, OutgoingRtsp>::empty());
}

/// A response that belongs to no request of the source changes nothing.
pub proof fn law_stray_responses_are_passed_over(
    source: SourceModel,
    s: SessionState,
    code: u16,
    headers: Map<Seq<char>, Seq<char>>,
    body: Seq<char>,
)
    requires
        200 <= code < 300,
        answered_request(s.pending, headers) is None,
    ensures
        step_after_response(source, s, code, headers, body) == (
            s,
            (SessionStep { send: None, next: NextStep::Read }),
        ),
{
}

/// What the sink requests does not disturb the handshake.
pub proof fn law_requests_leave_the_handshake(
    source: SourceModel,
    s: SessionState,
    method: Seq<char>,
    headers: Map<Seq<char>, Seq<char>>,
    body: Seq<char>,
    tag: u32,
    offset: u16,
)
    ensures
        ({
            let next = step_after_request(source, s, method, headers, body, tag, offset).0;
            next.next_cseq == s.next_cseq && next.pending == s.pending
        }),
{
}

/// The media pipeline is only started by a request to play, only where media is
/// wanted, and streams to the port that the sink named. It is then what the
/// report says.
pub proof fn law_media_is_started_by_play(
    source: SourceModel,
    s: SessionState,
    message: MessageModel,
    tag: u32,
    offset: u16,
    command: Seq<Seq<char>>,
)
    requires
        step_after_message(source, s, message, tag, offset).1.next == NextStep::StartMedia(command),
    ensures
        message matches MessageModel::Request { method, .. } && method == "PLAY"@,
        !s.media,
        !source.config.no_media,
        s.sink_rtp_port matches Some(port) && {
            &&& command == media_command_of(source, port)
            &&& command.first() == "wf-recorder"@
            &&& command.last() == config::media_url(source.peer, port)
        },
        ({
            let next = step_after_message(source, s, message, tag, offset).0;
            &&& next.media
            &&& report_of(source, next).media_started
            &&& report_of(source, next).media_command == Some(command)
        }),
{
}

/// A request to play starts the media pipeline if the sink named its port,
/// media is wanted and the pipeline does not run. The request is answered in
/// any case.
pub proof fn law_play_starts_media(
    source: SourceModel,
    s: SessionState,
    headers: Map<Seq<char>, Seq<char>>,
    body: Seq<char>,
    tag: u32,
    offset: u16,
    port: u16,
)
    requires
        s.sink_rtp_port == Some(port),
    ensures
        ({
            let step = step_after_request(source, s, "PLAY"@, headers, body, tag, offset).1;
            let starts = !s.media && !source.config.no_media;
            &&& step.send == Some(
                rtsp::response_text(request_cseq(headers), session_header(s), ""@),
            )
            &&& step.next == (if starts {
                NextStep::StartMedia(media_command_of(source, port))
            } else {
                NextStep::Read
            })
        }),
{
    lemma_methods();
}

/// The methods differ.
proof fn lemma_methods()
    ensures
        "PLAY"@ != "OPTIONS"@,
        "PLAY"@ != "GET_PARAMETER"@,
        "PLAY"@ != "SET_PARAMETER"@,
        "PLAY"@ != "SETUP"@,
        "PAUSE"@ != "OPTIONS"@,
        "PAUSE"@ != "GET_PARAMETER"@,
        "PAUSE"@ != "SET_PARAMETER"@,
        "PAUSE"@ != "SETUP"@,
        "PAUSE"@ != "PLAY"@,
{
    reveal_strlit("OPTIONS");
    reveal_strlit("GET_PARAMETER");
    reveal_strlit("SET_PARAMETER");
    reveal_strlit("SETUP");
    reveal_strlit("PLAY");
    reveal_strlit("PAUSE");
    assert("PLAY"@.len() == 4);
    assert("PAUSE"@.len() == 5 && "PAUSE"@[0] == 'P');
    assert("SETUP"@[0] == 'S');
}

/// Where no media is wanted, none is ever started, whatever the sink sends.
pub proof fn law_no_media(
    source: SourceModel,
    s: SessionState,
    message: MessageModel,
    tag: u32,
    offset: u16,
)
    requires
        source.config.no_media,
        s.media_command is None,
        !s.media,
    ensures
        first_step(source).0.media_command is None,
        !first_step(source).0.media,
        ({
            let (next, step) = step_after_message(source, s, message, tag, offset);
            &&& next.media_command is None
            &&& !next.media
            &&& !(step.next is StartMedia)
            &&& !report_of(source, next).media_started
        }),
{
}

/// A request to play that follows a pause starts the media pipeline again.
pub proof fn law_play_after_pause(
    source: SourceModel,
    s: SessionState,
    headers: Map<Seq<char>, Seq<char>>,
    body: Seq<char>,
    tag: u32,
    offset: u16,
    port: u16,
)
    requires
        s.sink_rtp_port == Some(port),
        !source.config.no_media,
    ensures
        ({
            let (paused, stop) = step_after_request(
                source,
                s,
                "PAUSE"@,
                headers,
                body,
                tag,
                offset,
            );
            let (playing, start) = step_after_request(
                source,
                paused,
                "PLAY"@,
                headers,
                body,
                tag,
                offset,
            );
            &&& !paused.media
            &&& stop.next == NextStep::StopMedia
            &&& playing.media
            &&& start.next == NextStep::StartMedia(media_command_of(source, port))
        }),
{
    lemma_methods();
}

/// A session ends well only by a teardown or when the sink has nothing more to
/// say, and the report tells which. It fails only on a response that reports an
/// error, and on a request to play while the port of the sink is unknown.
pub proof fn law_session_end(
    source: SourceModel,
    s: SessionState,
    message: MessageModel,
    tag: u32,
    offset: u16,
)
    requires
        !s.finished,
    ensures
        ({
            let (next, step) = step_after_message(source, s, message, tag, offset);
            &&& next.finished <==> step.next is Finish || step.next is Fail
            &&& step.next is Finish ==> {
                &&& message matches MessageModel::Request { method, .. } && method == "TEARDOWN"@
                &&& report_of(source, next).teardown_received
            }
            &&& !(step.next is Finish) ==> report_of(source, next).teardown_received
                == s.teardown_received
            &&& step.next is Fail ==> match message {
                MessageModel::Response { code, .. } => !(200 <= code < 300),
                MessageModel::Request { method, .. } => {
                    method == "PLAY"@ && s.sink_rtp_port is None && !source.config.no_media
                },
            }
        }),
        step_after_close(s).1 == (SessionStep { send: None, next: NextStep::Finish }),
        report_of(source, step_after_close(s).0).teardown_received == s.teardown_received,
{
}

/// A response that reports an error ends the session, with nothing sent.
pub proof fn law_refusal_ends_the_session(
    source: SourceModel,
    s: SessionState,
    code: u16,
    headers: Map<Seq<char>, Seq<char>>,
    body: Seq<char>,
)
    requires
        !(200 <= code < 300),
    ensures
        ({
            let (next, step) = step_after_response(source, s, code, headers, body);
            &&& next.finished
            &&& step.send is None
            &&& step.next == NextStep::Fail(sink_error(code, body))
        }),
{
}

/// A message that was received, with the random numbers that were drawn for it.
pub struct Received {
    pub message: MessageModel,
    pub tag: u32,
    pub offset: u16,
}

/// Where a session stands after some messages, and what it wanted done last.
pub open spec fn session_after(source: SourceModel, received: Seq<Received>) -> (
    SessionState,
    SessionStep,
)
    decreases received.len(),
{
    if received.len() == 0 {
        first_step(source)
    } else {
        let before = session_after(source, received.drop_last());
        let last = received.last();
        if before.0.finished {
            before
        } else {
            step_after_message(source, before.0, last.message, last.tag, last.offset)
        }
    }
}

/// Every session is well-formed at any time.
proof fn lemma_every_session_well_formed(source: SourceModel, received: Seq<Received>)
    ensures
        well_formed(session_after(source, received).0),
    decreases received.len(),
{
    if received.len() == 0 {
        assert(session_after(source, received) == first_step(source));
    } else {
        let before = session_after(source, received.drop_last()).0;
        let last = received.last();
        lemma_every_session_well_formed(source, received.drop_last());
        law_session_stays_well_formed(source, before, last.message, last.tag, last.offset);
    }
}

/// How a message changes what is known of media: a start of it is noted, where
/// it is wanted, and nothing else is.
proof fn lemma_media_noted(
    source: SourceModel,
    s: SessionState,
    message: MessageModel,
    tag: u32,
    offset: u16,
)
    ensures
        ({
            let (next, step) = step_after_message(source, s, message, tag, offset);
            &&& next.media_command is Some <==> s.media_command is Some || step.next is StartMedia
            &&& step.next is StartMedia ==> !source.config.no_media && next.finished == s.finished
        }),
{
}

/// Whether media was started by one of the first `n` messages.
spec fn started_within(source: SourceModel, received: Seq<Received>, n: int) -> bool {
    exists|k: int|
        0 <= k <= n && (#[trigger] session_after(source, received.take(k))).1.next is StartMedia
}

/// What is known of media after `n` messages.
#[verifier::spinoff_prover]
proof fn lemma_every_session_media(source: SourceModel, received: Seq<Received>, n: int)
    requires
        0 <= n <= received.len(),
    ensures
        ({
            let (s, step) = session_after(source, received.take(n));
            &&& s.media_command is Some <==> started_within(source, received, n)
            &&& s.media_command is Some ==> !source.config.no_media
            &&& step.next is StartMedia ==> !s.finished
        }),
    decreases n,
{
    let (s, step) = session_after(source, received.take(n));
    if n == 0 {
        assert(received.take(0).len() == 0);
        assert((s, step) == first_step(source));
        assert(!started_within(source, received, 0));
    } else {
        lemma_every_session_media(source, received, n - 1);
        let before = session_after(source, received.take(n - 1));
        let last = received[n - 1];
        assert(received.take(n).drop_last() =~= received.take(n - 1));
        assert(received.take(n).last() == last);
        lemma_media_noted(source, before.0, last.message, last.tag, last.offset);
        if started_within(source, received, n - 1) {
            let k = choose|k: int|
                0 <= k <= n - 1 && (#[trigger] session_after(
                    source,
                    received.take(k),
                )).1.next is StartMedia;
            assert(0 <= k <= n && session_after(source, received.take(k)).1.next is StartMedia);
        } else if !(step.next is StartMedia) {
            assert forall|k: int| 0 <= k <= n implies !((#[trigger] session_after(
                source,
                received.take(k),
            )).1.next is StartMedia) by {
                if k < n {
                    assert(0 <= k <= n - 1);
                }
            }
        }
    }
}

/// Every session is well-formed at any time, whatever was received. The report
/// says that media was started if and only if it was at some time, and says it
/// never where no media is wanted.
pub proof fn law_every_session(source: SourceModel, received: Seq<Received>)
    ensures
        well_formed(session_after(source, received).0),
        report_of(source, session_after(source, received).0).media_started <==> exists|n: int|
            0 <= n <= received.len() && (#[trigger] session_after(
                source,
                received.take(n),
            )).1.next is StartMedia,
        source.config.no_media ==> !report_of(
            source,
            session_after(source, received).0,
        ).media_started,
{
    lemma_every_session_well_formed(source, received);
    lemma_every_session_media(source, received, received.len() as int);
    assert(received.take(received.len() as int) =~= received);
}

/// Whether a message asks for the end of the session.
pub open spec fn is_teardown(message: MessageModel) -> bool {
    message matches MessageModel::Request { method, .. } && method == "TEARDOWN"@
}

/// Whether the message number `n`, counted from zero, is a teardown that a
/// session still under way receives.
pub open spec fn torn_down_by(source: SourceModel, received: Seq<Received>, n: int) -> bool {
    &&& 0 <= n < received.len()
    &&& is_teardown(received[n].message)
    &&& !session_after(source, received.take(n)).0.finished
}

/// How a message changes what is known of a teardown.
proof fn lemma_teardown_noted(
    source: SourceModel,
    s: SessionState,
    message: MessageModel,
    tag: u32,
    offset: u16,
)
    ensures
        step_after_message(source, s, message, tag, offset).0.teardown_received <==> (
        s.teardown_received || is_teardown(message)),
{
    if is_teardown(message) {
        reveal_strlit("OPTIONS");
        reveal_strlit("GET_PARAMETER");
        reveal_strlit("SET_PARAMETER");
        reveal_strlit("SETUP");
        reveal_strlit("PLAY");
        reveal_strlit("PAUSE");
        reveal_strlit("TEARDOWN");
        assert("TEARDOWN"@.len() == 8);
        assert("OPTIONS"@.len() == 7);
        assert("GET_PARAMETER"@.len() == 13);
        assert("SET_PARAMETER"@.len() == 13);
        assert("SETUP"@.len() == 5);
        assert("PLAY"@.len() == 4);
        assert("PAUSE"@.len() == 5);
    }
}

/// After any messages, the report says that a teardown was received if and only
/// if one was while the session was under way.
#[verifier::spinoff_prover]
pub proof fn law_teardown_is_reported(source: SourceModel, received: Seq<Received>)
    ensures
        report_of(source, session_after(source, received).0).teardown_received <==> exists|n: int|
            #[trigger] torn_down_by(source, received, n),
    decreases received.len(),
{
    if received.len() == 0 {
        assert(session_after(source, received) == first_step(source));
    } else {
        let front = received.drop_last();
        let all = received.len() as int;
        let before = session_after(source, front).0;
        let last = received.last();
        law_teardown_is_reported(source, front);
        lemma_teardown_noted(source, before, last.message, last.tag, last.offset);
        assert(received.take(all - 1) =~= front);
        assert forall|n: int| 0 <= n < all - 1 implies torn_down_by(source, front, n)
            == #[trigger] torn_down_by(source, received, n) by {
            assert(front.take(n) =~= received.take(n));
        }
        if before.teardown_received {
            let n = choose|n: int| #[trigger] torn_down_by(source, front, n);
            assert(torn_down_by(source, received, n));
        } else if !before.finished && is_teardown(last.message) {
            assert(torn_down_by(source, received, all - 1));
        } else {
            assert forall|n: int| !(#[trigger] torn_down_by(source, received, n)) by {
                if 0 <= n < all - 1 {
                    assert(!torn_down_by(source, front, n));
                }
            }
        }
    }
}

/// A request that the source sent, with the port of the sink as it was known
/// then.
pub struct SentRequest {
    pub text: Seq<char>,
    pub sink_rtp_port: Option<u16>,
}

/// All requests that the source sent in a session, in order: the first one, and
/// what it sent on responses. On requests it sends answers.
pub open spec fn requests_sent(source: SourceModel, received: Seq<Received>) -> Seq<SentRequest>
    decreases received.len(),
{
    let (s, step) = session_after(source, received);
    if received.len() == 0 {
        seq![SentRequest { text: step.send->Some_0, sink_rtp_port: s.sink_rtp_port }]
    } else {
        let front = received.drop_last();
        let sent = requests_sent(source, front);
        if !session_after(source, front).0.finished && received.last().message is Response
            && step.send is Some {
            sent.push(SentRequest { text: step.send->Some_0, sink_rtp_port: s.sink_rtp_port })
        } else {
            sent
        }
    }
}

/// Whether a request is the one of the handshake with this number.
pub open spec fn is_handshake_request(source: SourceModel, r: SentRequest, cseq: int) -> bool {
    r.text == request_of(numbered_request(cseq), cseq as u32, source, r.sink_rtp_port)
}

/// After any messages, the requests that the source sent are the first ones of
/// the handshake: at least one and at most four, numbered from one on, each of
/// them once and in this order. How many there are tells the number of the next
/// one.
#[verifier::spinoff_prover]
pub proof fn law_requests_follow_the_handshake(source: SourceModel, received: Seq<Received>)
    ensures
        ({
            let sent = requests_sent(source, received);
            &&& 1 <= sent.len() <= 4
            &&& session_after(source, received).0.next_cseq == sent.len() + 1
            &&& forall|k: int|
                0 <= k < sent.len() ==> is_handshake_request(source, #[trigger] sent[k], k + 1)
        }),
    decreases received.len(),
{
    lemma_every_session_well_formed(source, received);
    if received.len() == 0 {
        assert(session_after(source, received) == first_step(source));
    } else {
        let front = received.drop_last();
        let before = session_after(source, front).0;
        let last = received.last();
        law_requests_follow_the_handshake(source, front);
        lemma_every_session_well_formed(source, front);
        if !before.finished {
            match last.message {
                MessageModel::Response { code, headers, body } => {
                    if 200 <= code < 300 && answered_request(before.pending, headers) is Some {
                        law_handshake_goes_on(source, before, code, headers, body);
                    }
                },
                MessageModel::Request { method, headers, body } => {
                    law_requests_leave_the_handshake(
                        source,
                        before,
                        method,
                        headers,
                        body,
                        last.tag,
                        last.offset,
                    );
                },
            }
        }
    }
}

/// Audio that is recorded is announced to the sink, and no other.
pub proof fn law_audio_is_announced(c: RtspSourceConfig, host: Seq<char>, port: u16)
    ensures
        c.audio is Some ==> {
            &&& params::audio_codecs(c.audio) == "AAC 0000000F 00"@
            &&& config::recorder_args(c, host, port).contains("--audio-codec"@)
            &&& config::recorder_args(c, host, port).contains("aac"@)
        },
        c.audio is None ==> {
            &&& params::audio_codecs(c.audio) == "none"@
            &&& config::audio_args(c.audio).len() == 0
        },
{
    if c.audio is Some {
        let args = config::recorder_args(c, host, port);
        let n = config::output_args(c.output).len() as int + config::video_args(c).len() as int;
        let audio = config::audio_args(c.audio);
        assert(args[n + 1] == audio[1]);
        assert(args[n + 2] == audio[2]);
    }
}

/// A stream can come from a thousand pairs of ports.
pub proof fn law_server_ports()
    ensures
        SERVER_PORTS == 1000,
{
}

} // verus!
