//! Linking to a peer and removing the link.
//!
//! [`ConnectFlow`] decides which `wpa_cli` command comes next while a Wi-Fi
//! Direct group is formed.
use crate::error::{self, ErrorModel, MiracastError};
use crate::number::{self, push_decimal};
use crate::text::{self, chars_of, starts_with, string_of, trim};
use crate::wpa::{
    self, advertise_command, configure_wfd_source, interface_command, is_wpa_cli_failure,
    list_interfaces, strings, Reply, WpaCli,
};
use vstd::prelude::*;

verus! {

/// How long to wait between two looks at the interfaces, in milliseconds.
pub const GROUP_POLL_MILLIS: u64 = 500;

/// How to link to a peer.
#[derive(Clone, Debug, PartialEq, Eq)]
pub struct ConnectOptions {
    pub peer: String,
    /// How long to wait for the group interface, in seconds.
    pub timeout: u64,
    pub pin: Option<String>,
    pub display_pin: bool,
    pub persistent: bool,
    pub join: bool,
    pub provdisc: bool,
    pub auto: bool,
    pub go_intent: Option<u8>,
    pub freq: Option<u32>,
    pub no_wfd: bool,
    pub wfd_device_info: String,
}

/// `word` if `wanted`, or else nothing.
pub open spec fn optional(wanted: bool, word: Seq<char>) -> Seq<Seq<char>> {
    if wanted {
        seq![word]
    } else {
        Seq::empty()
    }
}

/// How the link is authorised: by a PIN that is displayed here, by one that the
/// peer displays, or by a push button.
pub open spec fn wps_method(o: ConnectOptions) -> Seq<Seq<char>> {
    if o.display_pin {
        seq!["pin"@, "display"@]
    } else {
        match o.pin {
            Some(pin) => seq![pin@, "keypad"@],
            None => seq!["pbc"@],
        }
    }
}

/// The command that links to a peer.
pub open spec fn connect_args(o: ConnectOptions) -> Seq<Seq<char>> {
    seq!["p2p_connect"@, o.peer@] + wps_method(o) + optional(o.persistent, "persistent"@)
        + optional(o.join, "join"@) + optional(o.provdisc, "provdisc"@) + optional(
        o.auto,
        "auto"@,
    ) + (match o.go_intent {
        Some(n) => seq!["go_intent="@ + number::decimal(n as nat)],
        None => Seq::empty(),
    }) + (match o.freq {
        Some(n) => seq!["freq="@ + number::decimal(n as nat)],
        None => Seq::empty(),
    })
}

/// Appends a word if it is wanted.
fn push_optional(list: &mut Vec<String>, wanted: bool, word: &str)
    ensures
        text::texts(final(list)@) == text::texts(old(list)@) + optional(wanted, word@),
{
    broadcast use text::lemma_texts_push;

    if wanted {
        list.push(word.to_owned());
    }
    assert(text::texts(list@) =~= text::texts(old(list)@) + optional(wanted, word@));
}

/// The command that links to a peer.
pub fn build_connect_command(options: &ConnectOptions) -> (command: Vec<String>)
    ensures
        text::texts(command@) == connect_args(*options),
{
    broadcast use text::lemma_texts_push;

    let mut command: Vec<String> = strings(["p2p_connect", options.peer.as_str()]);
    assert(text::texts(command@) =~= seq!["p2p_connect"@, options.peer@]);
    if options.display_pin {
        command.push("pin".to_owned());
        command.push("display".to_owned());
    } else if let Some(pin) = &options.pin {
        command.push(pin.clone());
        command.push("keypad".to_owned());
    } else {
        command.push("pbc".to_owned());
    }
    assert(text::texts(command@) =~= seq!["p2p_connect"@, options.peer@] + wps_method(*options));
    push_optional(&mut command, options.persistent, "persistent");
    push_optional(&mut command, options.join, "join");
    push_optional(&mut command, options.provdisc, "provdisc");
    push_optional(&mut command, options.auto, "auto");
    let ghost flags = text::texts(command@);
    if let Some(go_intent) = options.go_intent {
        let mut word: String = "go_intent=".to_owned();
        push_decimal(&mut word, go_intent as u64);
        command.push(word);
    }
    let ghost with_intent = text::texts(command@);
    assert(with_intent =~= flags + (match options.go_intent {
        Some(n) => seq!["go_intent="@ + number::decimal(n as nat)],
        None => Seq::empty(),
    }));
    if let Some(freq) = options.freq {
        let mut word: String = "freq=".to_owned();
        push_decimal(&mut word, freq as u64);
        command.push(word);
    }
    assert(text::texts(command@) =~= with_intent + (match options.freq {
        Some(n) => seq!["freq="@ + number::decimal(n as nat)],
        None => Seq::empty(),
    }));
    command
}

/// What came of linking to a peer.
#[derive(Clone, Debug, PartialEq, Eq)]
pub struct MiracastConnectResult {
    pub peer: String,
    pub started: bool,
    pub group_ifname: Option<String>,
    pub wpa_cli_response: String,
    pub command: Vec<String>,
    pub note: String,
}

/// What is said about a link.
pub struct ConnectReport {
    pub peer: Seq<char>,
    pub started: bool,
    pub group_ifname: Option<Seq<char>>,
    pub wpa_cli_response: Seq<char>,
    pub command: Seq<Seq<char>>,
    pub note: Seq<char>,
}

impl View for MiracastConnectResult {
    type V = ConnectReport;

    open spec fn view(&self) -> ConnectReport {
        ConnectReport {
            peer: self.peer@,
            started: self.started,
            group_ifname: text::opt_text(self.group_ifname),
            wpa_cli_response: self.wpa_cli_response@,
            command: text::texts(self.command@),
            note: self.note@,
        }
    }
}

/// What the user is told to do next.
pub open spec fn connect_note() -> Seq<char> {
    "Wi-Fi Direct group formation was submitted to wpa_supplicant. Keep `niri miracast serve` running so the sink can complete the WFD/RTSP control session and receive the RTP/MPEG-TS media stream."@
}

/// What a link wants done next.
#[derive(Debug)]
pub enum ConnectAction {
    /// Run this command and hand in the reply.
    Run(Vec<String>),
    /// Tell whether the time for the group interface is over.
    CheckDeadline,
    /// Wait for so many milliseconds.
    Sleep(u64),
    /// The link was asked for.
    Done(MiracastConnectResult),
    /// It could not be asked for.
    Fail(MiracastError),
}

/// What an action stands for.
pub enum ConnectStep {
    Run(Seq<Seq<char>>),
    CheckDeadline,
    Sleep(nat),
    Done(ConnectReport),
    Fail(ErrorModel),
}

impl View for ConnectAction {
    type V = ConnectStep;

    open spec fn view(&self) -> ConnectStep {
        match self {
            ConnectAction::Run(args) => ConnectStep::Run(text::texts(args@)),
            ConnectAction::CheckDeadline => ConnectStep::CheckDeadline,
            ConnectAction::Sleep(millis) => ConnectStep::Sleep(*millis as nat),
            ConnectAction::Done(r) => ConnectStep::Done(r@),
            ConnectAction::Fail(e) => ConnectStep::Fail(e@),
        }
    }
}

/// What happened since a link wanted something done.
#[derive(Debug)]
pub enum ConnectEvent {
    /// The command came to this.
    Reply(Result<String, MiracastError>),
    /// Whether the time for the group interface is over.
    Deadline(bool),
    /// The wait is over.
    Woke,
}

/// What a link waits for.
#[derive(Clone, Copy, PartialEq, Eq, Structural, Debug)]
pub enum ConnectPhase {
    Advertising,
    ListingBefore,
    Stopping,
    Connecting,
    Polling,
    CheckingDeadline,
    Sleeping,
    Finished,
}

/// A link under way.
#[derive(Debug)]
pub struct ConnectFlow {
    options: ConnectOptions,
    phase: ConnectPhase,
    before: Vec<String>,
    response: String,
}

/// Where a link stands: what it waits for, the interfaces that were there
/// before, and the answer to the command that asks for the link.
pub struct ConnectState {
    pub phase: ConnectPhase,
    pub before: Seq<Seq<char>>,
    pub response: Seq<char>,
}

impl View for ConnectFlow {
    type V = ConnectState;

    closed spec fn view(&self) -> ConnectState {
        ConnectState {
            phase: self.phase,
            before: text::texts(self.before@),
            response: self.response@,
        }
    }
}

/// The start of a link.
pub open spec fn first_step(o: ConnectOptions) -> (ConnectState, ConnectStep) {
    let s = ConnectState {
        phase: ConnectPhase::Advertising,
        before: Seq::empty(),
        response: Seq::empty(),
    };
    if !o.no_wfd {
        (s, ConnectStep::Run(wpa::advertise_args(o.wfd_device_info@)))
    } else {
        step_to_list(s)
    }
}

/// The listing of the interfaces that are there before.
pub open spec fn step_to_list(s: ConnectState) -> (ConnectState, ConnectStep) {
    (
        ConnectState { phase: ConnectPhase::ListingBefore, ..s },
        ConnectStep::Run(seq!["interface"@]),
    )
}

/// The end of a link that failed.
pub open spec fn step_to_fail(s: ConnectState, e: ErrorModel) -> (ConnectState, ConnectStep) {
    (ConnectState { phase: ConnectPhase::Finished, ..s }, ConnectStep::Fail(e))
}

/// A look at the interfaces.
pub open spec fn step_to_poll(s: ConnectState) -> (ConnectState, ConnectStep) {
    (
        ConnectState { phase: ConnectPhase::Polling, ..s },
        ConnectStep::Run(seq!["interface"@]),
    )
}

/// What is reported of a link that was asked for, given the answer.
pub open spec fn link_report(
    o: ConnectOptions,
    response: Seq<char>,
    group_ifname: Option<Seq<char>>,
) -> ConnectReport {
    ConnectReport {
        peer: o.peer@,
        started: !wpa::is_failure(response),
        group_ifname,
        wpa_cli_response: text::trimmed(response),
        command: connect_args(o),
        note: connect_note(),
    }
}

/// The end of a link that was asked for.
pub open spec fn step_to_done(
    o: ConnectOptions,
    s: ConnectState,
    group_ifname: Option<Seq<char>>,
) -> (ConnectState, ConnectStep) {
    (
        ConnectState { phase: ConnectPhase::Finished, ..s },
        ConnectStep::Done(link_report(o, s.response, group_ifname)),
    )
}

/// Whether an interface belongs to a Wi-Fi Direct group, by its name.
pub open spec fn is_group_name(name: Seq<char>) -> bool {
    text::begins_with(name, "p2p-"@) || text::begins_with(name, "DIRECT-"@)
}

/// The first group interface of `list` that is not among `before`.
pub open spec fn new_group(list: Seq<Seq<char>>, before: Seq<Seq<char>>) -> Option<Seq<char>>
    decreases list.len(),
{
    if list.len() == 0 {
        None
    } else if !before.contains(list[0]) && is_group_name(list[0]) {
        Some(list[0])
    } else {
        new_group(list.drop_first(), before)
    }
}

/// The interfaces that are there before, as far as the reply tells.
pub open spec fn interfaces_before(reply: Reply) -> Seq<Seq<char>> {
    match wpa::listed_interfaces(reply) {
        Ok(list) => list,
        Err(_) => Seq::empty(),
    }
}

/// The new group that a look at the interfaces shows, if it shows one.
pub open spec fn group_seen(before: Seq<Seq<char>>, reply: Reply) -> Option<Seq<char>> {
    match wpa::listed_interfaces(reply) {
        Ok(list) => new_group(list, before),
        Err(_) => None,
    }
}

/// Whether the link waits for the reply to a command.
pub open spec fn wants_reply(s: ConnectState) -> bool {
    match s.phase {
        ConnectPhase::CheckingDeadline | ConnectPhase::Sleeping | ConnectPhase::Finished => false,
        _ => true,
    }
}

/// What follows a reply.
pub open spec fn step_after_reply(
    o: ConnectOptions,
    s: ConnectState,
    reply: Reply,
) -> (ConnectState, ConnectStep) {
    match s.phase {
        ConnectPhase::Advertising => match wpa::advertised(reply) {
            Ok(_) => step_to_list(s),
            Err(e) => step_to_fail(s, e),
        },
        ConnectPhase::ListingBefore => (
            ConnectState {
                phase: ConnectPhase::Stopping,
                before: interfaces_before(reply),
                ..s
            },
            ConnectStep::Run(seq!["p2p_stop_find"@]),
        ),
        ConnectPhase::Stopping => (
            ConnectState { phase: ConnectPhase::Connecting, ..s },
            ConnectStep::Run(connect_args(o)),
        ),
        ConnectPhase::Connecting => match wpa::checked(reply) {
            Ok(response) => step_to_poll(ConnectState { response, ..s }),
            Err(e) => step_to_fail(s, e),
        },
        _ => {
            let group = group_seen(s.before, reply);
            if group is Some {
                step_to_done(o, s, group)
            } else {
                (
                    ConnectState { phase: ConnectPhase::CheckingDeadline, ..s },
                    ConnectStep::CheckDeadline,
                )
            }
        },
    }
}

/// What follows a look at the clock.
pub open spec fn step_after_deadline(o: ConnectOptions, s: ConnectState, expired: bool) -> (
    ConnectState,
    ConnectStep,
) {
    if expired {
        step_to_done(o, s, None)
    } else {
        (
            ConnectState { phase: ConnectPhase::Sleeping, ..s },
            ConnectStep::Sleep(GROUP_POLL_MILLIS as nat),
        )
    }
}

/// Whether a name is in the list.
fn is_among(name: &String, list: &Vec<String>) -> (r: bool)
    ensures
        r == text::texts(list@).contains(name@),
{
    let ghost all = text::texts(list@);
    let mut i: usize = 0;
    while i < list.len()
        invariant
            i <= list@.len(),
            all == text::texts(list@),
            forall|k: int| 0 <= k < i ==> #[trigger] all[k] != name@,
        decreases list@.len() - i,
    {
        assert(all[i as int] == list@[i as int]@);
        if list[i] == *name {
            return true;
        }
        i = i + 1;
    }
    false
}

/// Finds the first group interface of `list` that is not among `before`.
fn find_new_group(list: &Vec<String>, before: &Vec<String>) -> (r: Option<String>)
    ensures
        text::opt_text(r) == new_group(text::texts(list@), text::texts(before@)),
{
    let ghost all = text::texts(list@);
    let ghost old_names = text::texts(before@);
    let mut i: usize = 0;
    assert(all.skip(0) == all);
    while i < list.len()
        invariant
            i <= list@.len(),
            all == text::texts(list@),
            old_names == text::texts(before@),
            new_group(all, old_names) == new_group(all.skip(i as int), old_names),
        decreases list@.len() - i,
    {
        assert(all.skip(i as int)[0] == list@[i as int]@);
        assert(all.skip(i as int).drop_first() == all.skip(i + 1));
        if !is_among(&list[i], before) {
            let name: Vec<char> = chars_of(list[i].as_str());
            if starts_with(name.as_slice(), "p2p-") || starts_with(name.as_slice(), "DIRECT-") {
                return Some(list[i].clone());
            }
        }
        i = i + 1;
    }
    None
}

impl ConnectFlow {
    /// How this link is made.
    pub closed spec fn options(&self) -> ConnectOptions {
        self.options
    }

    /// Whether the group interface is waited for. The time for it runs from
    /// when this starts to hold.
    pub fn waits_for_group(&self) -> (r: bool)
        ensures
            r == (self@.phase == ConnectPhase::Polling || self@.phase
                == ConnectPhase::CheckingDeadline || self@.phase == ConnectPhase::Sleeping),
    {
        self.phase == ConnectPhase::Polling || self.phase == ConnectPhase::CheckingDeadline
            || self.phase == ConnectPhase::Sleeping
    }

    /// Starts a link.
    pub fn start(options: ConnectOptions) -> (r: (ConnectFlow, ConnectAction))
        ensures
            r.0.options() == options,
            (r.0@, r.1@) == first_step(options),
    {
        broadcast use text::lemma_texts_empty;

        let mut flow: ConnectFlow = ConnectFlow {
            options,
            phase: ConnectPhase::Advertising,
            before: Vec::new(),
            response: String::new(),
        };
        let action: ConnectAction = if !flow.options.no_wfd {
            ConnectAction::Run(advertise_command(flow.options.wfd_device_info.as_str()))
        } else {
            flow.phase = ConnectPhase::ListingBefore;
            ConnectAction::Run(interface_command())
        };
        (flow, action)
    }

    /// Takes the reply to the command that was to be run.
    fn on_reply(&mut self, reply: Result<String, MiracastError>) -> (action: ConnectAction)
        requires
            wants_reply(old(self)@),
        ensures
            final(self).options() == old(self).options(),
            (final(self)@, action@) == step_after_reply(
                old(self).options(),
                old(self)@,
                error::outcome(reply),
            ),
    {
        broadcast use text::lemma_texts_empty;

        match self.phase {
            ConnectPhase::Advertising => match configure_wfd_source(reply) {
                Ok(_) => {
                    self.phase = ConnectPhase::ListingBefore;
                    ConnectAction::Run(interface_command())
                },
                Err(e) => {
                    self.phase = ConnectPhase::Finished;
                    ConnectAction::Fail(e)
                },
            },
            ConnectPhase::ListingBefore => {
                self.before = match list_interfaces(reply) {
                    Ok(list) => list,
                    Err(_) => Vec::new(),
                };
                self.phase = ConnectPhase::Stopping;
                let args: Vec<String> = strings(["p2p_stop_find"]);
                assert(text::texts(args@) =~= seq!["p2p_stop_find"@]);
                ConnectAction::Run(args)
            },
            ConnectPhase::Stopping => {
                self.phase = ConnectPhase::Connecting;
                ConnectAction::Run(build_connect_command(&self.options))
            },
            ConnectPhase::Connecting => match WpaCli::run_ok(reply) {
                Ok(response) => {
                    self.response = response;
                    self.phase = ConnectPhase::Polling;
                    ConnectAction::Run(interface_command())
                },
                Err(e) => {
                    self.phase = ConnectPhase::Finished;
                    ConnectAction::Fail(e)
                },
            },
            _ => {
                let group: Option<String> = match list_interfaces(reply) {
                    Ok(list) => find_new_group(&list, &self.before),
                    Err(_) => None,
                };
                if group.is_some() {
                    self.finish(group)
                } else {
                    self.phase = ConnectPhase::CheckingDeadline;
                    ConnectAction::CheckDeadline
                }
            },
        }
    }

    /// Takes note of whether the time is over.
    fn on_deadline(&mut self, expired: bool) -> (action: ConnectAction)
        requires
            old(self)@.phase == ConnectPhase::CheckingDeadline,
        ensures
            final(self).options() == old(self).options(),
            (final(self)@, action@) == step_after_deadline(
                old(self).options(),
                old(self)@,
                expired,
            ),
    {
        if expired {
            self.finish(None)
        } else {
            self.phase = ConnectPhase::Sleeping;
            ConnectAction::Sleep(GROUP_POLL_MILLIS)
        }
    }

    /// Takes note that the wait is over.
    fn on_woke(&mut self) -> (action: ConnectAction)
        requires
            old(self)@.phase == ConnectPhase::Sleeping,
        ensures
            final(self).options() == old(self).options(),
            (final(self)@, action@) == step_to_poll(old(self)@),
    {
        self.phase = ConnectPhase::Polling;
        ConnectAction::Run(interface_command())
    }

    fn finish(&mut self, group_ifname: Option<String>) -> (action: ConnectAction)
        ensures
            final(self).options() == old(self).options(),
            (final(self)@, action@) == step_to_done(
                old(self).options(),
                old(self)@,
                text::opt_text(group_ifname),
            ),
    {
        self.phase = ConnectPhase::Finished;
        let response: Vec<char> = chars_of(self.response.as_str());
        ConnectAction::Done(
            MiracastConnectResult {
                peer: self.options.peer.clone(),
                started: !is_wpa_cli_failure(self.response.as_str()),
                group_ifname,
                wpa_cli_response: string_of(trim(response.as_slice())),
                command: build_connect_command(&self.options),
                note: "Wi-Fi Direct group formation was submitted to wpa_supplicant. Keep `niri miracast serve` running so the sink can complete the WFD/RTSP control session and receive the RTP/MPEG-TS media stream.".to_owned(),
            },
        )
    }
}

/// Whether the link waits for such an event.
pub open spec fn expects(s: ConnectState, event: ConnectEvent) -> bool {
    match event {
        ConnectEvent::Reply(_) => wants_reply(s),
        ConnectEvent::Deadline(_) => s.phase == ConnectPhase::CheckingDeadline,
        ConnectEvent::Woke => s.phase == ConnectPhase::Sleeping,
    }
}

/// What follows an event.
pub open spec fn step_after(o: ConnectOptions, s: ConnectState, event: ConnectEvent) -> (
    ConnectState,
    ConnectStep,
) {
    match event {
        ConnectEvent::Reply(reply) => step_after_reply(o, s, error::outcome(reply)),
        ConnectEvent::Deadline(expired) => step_after_deadline(o, s, expired),
        ConnectEvent::Woke => step_to_poll(s),
    }
}

/// Goes on with a link: takes what happened and decides what to do next.
pub fn connect(flow: &mut ConnectFlow, event: ConnectEvent) -> (action: ConnectAction)
    requires
        expects(old(flow)@, event),
    ensures
        final(flow).options() == old(flow).options(),
        (final(flow)@, action@) == step_after(old(flow).options(), old(flow)@, event),
{
    match event {
        ConnectEvent::Reply(reply) => flow.on_reply(reply),
        ConnectEvent::Deadline(expired) => flow.on_deadline(expired),
        ConnectEvent::Woke => flow.on_woke(),
    }
}

/// What came of removing a link.
#[derive(Clone, Debug, PartialEq, Eq)]
pub struct MiracastDisconnectResult {
    pub group_ifname: String,
    pub removed: bool,
    pub wpa_cli_response: String,
}

/// The command that removes a group interface.
pub open spec fn disconnect_args(group_ifname: Seq<char>) -> Seq<Seq<char>> {
    seq!["p2p_group_remove"@, group_ifname]
}

/// The command that removes a group interface.
pub fn disconnect_command(group_ifname: &str) -> (args: Vec<String>)
    ensures
        text::texts(args@) == disconnect_args(group_ifname@),
{
    let args: Vec<String> = strings(["p2p_group_remove", group_ifname]);
    assert(text::texts(args@) =~= disconnect_args(group_ifname@));
    args
}

/// Takes the reply to the command that removes a group interface.
pub fn disconnect(group_ifname: String, reply: Result<String, MiracastError>) -> (r: Result<
    MiracastDisconnectResult,
    MiracastError,
>)
    ensures
        match r {
            Ok(result) => {
                &&& wpa::checked(error::outcome(reply)) matches Ok(response)
                &&& result.group_ifname@ == group_ifname@
                &&& result.removed
                &&& result.wpa_cli_response@ == text::trimmed(response)
            },
            Err(e) => wpa::checked(error::outcome(reply)) == Err::<Seq<char>, ErrorModel>(e@),
        },
{
    match WpaCli::run_ok(reply) {
        Ok(response) => {
            let chars: Vec<char> = chars_of(response.as_str());
            Ok(
                MiracastDisconnectResult {
                    group_ifname,
                    removed: !is_wpa_cli_failure(response.as_str()),
                    wpa_cli_response: string_of(trim(chars.as_slice())),
                },
            )
        },
        Err(e) => Err(e),
    }
}

/// What holds of a link at any time: an answer that was accepted reports no
/// failure.
pub open spec fn answer_accepted(s: ConnectState) -> bool {
    match s.phase {
        ConnectPhase::Polling | ConnectPhase::CheckingDeadline | ConnectPhase::Sleeping =>
            !wpa::is_failure(s.response),
        _ => true,
    }
}

/// Whether the report is one of a link that was asked for with these options,
/// when `before` were the interfaces.
pub open spec fn is_report_of(o: ConnectOptions, before: Seq<Seq<char>>, r: ConnectReport) -> bool {
    &&& r.started
    &&& r.peer == o.peer@
    &&& r.command == connect_args(o)
    &&& r.group_ifname matches Some(name) ==> is_group_name(name) && !before.contains(name)
}

/// A group that is found is new and named as one.
proof fn lemma_new_group(list: Seq<Seq<char>>, before: Seq<Seq<char>>)
    ensures
        new_group(list, before) matches Some(name) ==> {
            &&& list.contains(name)
            &&& is_group_name(name)
            &&& !before.contains(name)
        },
    decreases list.len(),
{
    if list.len() > 0 {
        if !before.contains(list[0]) && is_group_name(list[0]) {
            assert(list.contains(list[0]));
        } else {
            lemma_new_group(list.drop_first(), before);
            if let Some(name) = new_group(list.drop_first(), before) {
                let k = choose|k: int| 0 <= k < list.drop_first().len() && list.drop_first()[k] == name;
                assert(list[k + 1] == name);
            }
        }
    }
}

/// A link that ends well was started, names the peer and the command, and names
/// at most a group interface that was not there before. This holds whatever the
/// replies are.
pub proof fn law_connect_report(
    o: ConnectOptions,
    s: ConnectState,
    reply: Reply,
    expired: bool,
)
    requires
        answer_accepted(s),
    ensures
        answer_accepted(first_step(o).0),
        wants_reply(s) ==> {
            let (next, step) = step_after_reply(o, s, reply);
            &&& answer_accepted(next)
            &&& step matches ConnectStep::Done(r) ==> is_report_of(o, s.before, r)
        },
        s.phase == ConnectPhase::CheckingDeadline ==> {
            let (next, step) = step_after_deadline(o, s, expired);
            &&& answer_accepted(next)
            &&& step matches ConnectStep::Done(r) ==> is_report_of(o, s.before, r)
        },
        s.phase == ConnectPhase::Sleeping ==> answer_accepted(step_to_poll(s).0),
{
    if let Ok(list) = wpa::listed_interfaces(reply) {
        lemma_new_group(list, s.before);
    }
}

/// A link advertises the device unless told not to, notes the interfaces, stops
/// a search that may be running and asks for the link, in this order. Only the
/// replies to the first and to the last of these commands can make it fail.
pub proof fn law_connect_steps(
    o: ConnectOptions,
    advertising: Reply,
    listing: Reply,
    stopping: Reply,
    asking: Reply,
)
    ensures
        !o.no_wfd ==> first_step(o).1 == ConnectStep::Run(
            wpa::advertise_args(o.wfd_device_info@),
        ),
        !o.no_wfd ==> (step_after_reply(o, first_step(o).0, advertising).1 is Fail
            <==> wpa::advertised(advertising) is Err),
        o.no_wfd || wpa::advertised(advertising) is Ok ==> {
            let (s1, first) = if o.no_wfd {
                first_step(o)
            } else {
                step_after_reply(o, first_step(o).0, advertising)
            };
            let (s2, second) = step_after_reply(o, s1, listing);
            let (s3, third) = step_after_reply(o, s2, stopping);
            let (s4, fourth) = step_after_reply(o, s3, asking);
            &&& first == ConnectStep::Run(seq!["interface"@])
            &&& second == ConnectStep::Run(seq!["p2p_stop_find"@])
            &&& third == ConnectStep::Run(connect_args(o))
            &&& fourth is Fail <==> wpa::checked(asking) is Err
            &&& wpa::checked(asking) is Ok ==> fourth == ConnectStep::Run(seq!["interface"@])
        },
{
}

/// All that a link wants done, up to its end or to where nothing more is known:
/// `replies` are the replies to its commands and `clock` says at each look at
/// the clock whether the time is over, one after the other.
pub open spec fn connect_run(
    o: ConnectOptions,
    at: (ConnectState, ConnectStep),
    replies: Seq<Reply>,
    clock: Seq<bool>,
) -> Seq<ConnectStep>
    decreases
            replies.len() + clock.len(),
            (if at.0.phase == ConnectPhase::Sleeping {
                1nat
            } else {
                0nat
            }),
{
    let (s, step) = at;
    match step {
        ConnectStep::Run(_) => if replies.len() > 0 && wants_reply(s) {
            seq![step] + connect_run(
                o,
                step_after_reply(o, s, replies[0]),
                replies.skip(1),
                clock,
            )
        } else {
            seq![step]
        },
        ConnectStep::CheckDeadline => if clock.len() > 0 && s.phase
            == ConnectPhase::CheckingDeadline {
            seq![step] + connect_run(
                o,
                step_after_deadline(o, s, clock[0]),
                replies,
                clock.skip(1),
            )
        } else {
            seq![step]
        },
        ConnectStep::Sleep(_) => if s.phase == ConnectPhase::Sleeping {
            seq![step] + connect_run(o, step_to_poll(s), replies, clock)
        } else {
            seq![step]
        },
        _ => seq![step],
    }
}

/// The number of replies before the one that lists the interfaces.
pub open spec fn list_at(o: ConnectOptions) -> int {
    if o.no_wfd {
        0
    } else {
        1
    }
}

/// The number of replies before the one to the request for the link. Those
/// behind it are looks at the interfaces.
pub open spec fn ask_at(o: ConnectOptions) -> int {
    list_at(o) + 2
}

/// What a link does up to the request for it.
pub open spec fn ask_steps(o: ConnectOptions) -> Seq<ConnectStep> {
    (if o.no_wfd {
        Seq::empty()
    } else {
        seq![ConnectStep::Run(wpa::advertise_args(o.wfd_device_info@))]
    }) + seq![
        ConnectStep::Run(seq!["interface"@]),
        ConnectStep::Run(seq!["p2p_stop_find"@]),
        ConnectStep::Run(connect_args(o)),
    ]
}

/// What a link does while the group interface does not show: it lists the
/// interfaces, looks at the clock and sleeps, `n` times.
pub open spec fn poll_steps(n: nat) -> Seq<ConnectStep>
    decreases n,
{
    if n == 0 {
        Seq::empty()
    } else {
        seq![
            ConnectStep::Run(seq!["interface"@]),
            ConnectStep::CheckDeadline,
            ConnectStep::Sleep(GROUP_POLL_MILLIS as nat),
        ] + poll_steps((n - 1) as nat)
    }
}

/// What a link does once it was asked for, if the look number `n` is the last
/// one. It looks at the clock after it unless a group was seen.
pub open spec fn wait_steps(n: nat, seen: bool) -> Seq<ConnectStep> {
    poll_steps(n).push(ConnectStep::Run(seq!["interface"@])) + (if seen {
        Seq::empty()
    } else {
        seq![ConnectStep::CheckDeadline]
    })
}

/// Whether the look number `n`, counted from zero, is the first one that shows
/// a new group or after which the time is over.
pub open spec fn wait_ends_at(
    before: Seq<Seq<char>>,
    looks: Seq<Reply>,
    clock: Seq<bool>,
    n: int,
) -> bool {
    &&& 0 <= n < looks.len()
    &&& forall|k: int|
        #![trigger looks[k]]
        0 <= k < n ==> group_seen(before, looks[k]) is None && k < clock.len() && !clock[k]
    &&& group_seen(before, looks[n]) is Some || n < clock.len() && clock[n]
}

/// Every link wants something done.
proof fn lemma_run_not_empty(
    o: ConnectOptions,
    at: (ConnectState, ConnectStep),
    replies: Seq<Reply>,
    clock: Seq<bool>,
)
    ensures
        connect_run(o, at, replies, clock).len() > 0,
{
}

/// One look at the interfaces, and what follows it.
proof fn lemma_look(o: ConnectOptions, s: ConnectState, looks: Seq<Reply>, clock: Seq<bool>)
    requires
        looks.len() > 0,
    ensures
        ({
            let run = connect_run(o, step_to_poll(s), looks, clock);
            let list = ConnectStep::Run(seq!["interface"@]);
            let group = group_seen(s.before, looks[0]);
            let next = ConnectState { phase: ConnectPhase::Sleeping, ..s };
            let done = ConnectStep::Done(link_report(o, s.response, group));
            if group is Some {
                run == seq![list, done]
            } else if clock.len() == 0 {
                run == seq![list, ConnectStep::CheckDeadline]
            } else if clock[0] {
                run == seq![list, ConnectStep::CheckDeadline, done]
            } else {
                run == seq![
                    list,
                    ConnectStep::CheckDeadline,
                    ConnectStep::Sleep(GROUP_POLL_MILLIS as nat),
                ] + connect_run(o, step_to_poll(next), looks.skip(1), clock.skip(1))
            }
        }),
{
    let (p, list) = step_to_poll(s);
    let after = step_after_reply(o, p, looks[0]);
    let rest = looks.skip(1);
    let run = connect_run(o, (p, list), looks, clock);
    assert(run == seq![list] + connect_run(o, after, rest, clock));
    let group = group_seen(s.before, looks[0]);
    if group is Some {
        assert(run =~= seq![list, after.1]);
    } else if clock.len() == 0 {
        assert(run =~= seq![list, ConnectStep::CheckDeadline]);
    } else {
        let later = step_after_deadline(o, after.0, clock[0]);
        let tail = connect_run(o, later, rest, clock.skip(1));
        assert(connect_run(o, after, rest, clock) == seq![after.1] + tail);
        if clock[0] {
            assert(tail == seq![later.1]);
            assert(run =~= seq![list, ConnectStep::CheckDeadline, later.1]);
        } else {
            let next = ConnectState { phase: ConnectPhase::Sleeping, ..s };
            assert(later.0 == next);
            let poll = connect_run(o, step_to_poll(next), rest, clock.skip(1));
            assert(tail == seq![later.1] + poll);
            assert(run =~= seq![
                list,
                ConnectStep::CheckDeadline,
                ConnectStep::Sleep(GROUP_POLL_MILLIS as nat),
            ] + poll);
        }
    }
}

/// What a link does once it was asked for, if the wait ends.
proof fn lemma_wait(
    o: ConnectOptions,
    s: ConnectState,
    looks: Seq<Reply>,
    clock: Seq<bool>,
    n: int,
)
    requires
        wait_ends_at(s.before, looks, clock, n),
    ensures
        ({
            let group = group_seen(s.before, looks[n]);
            connect_run(o, step_to_poll(s), looks, clock) == wait_steps(
                n as nat,
                group is Some,
            ).push(ConnectStep::Done(link_report(o, s.response, group)))
        }),
    decreases n,
{
    lemma_look(o, s, looks, clock);
    let run = connect_run(o, step_to_poll(s), looks, clock);
    let group = group_seen(s.before, looks[n]);
    let end = ConnectStep::Done(link_report(o, s.response, group));
    if n > 0 {
        assert(group_seen(s.before, looks[0]) is None);
        let next = ConnectState { phase: ConnectPhase::Sleeping, ..s };
        let rest = looks.skip(1);
        let later = clock.skip(1);
        assert forall|k: int| #![trigger rest[k]] 0 <= k < n - 1 implies group_seen(
            next.before,
            rest[k],
        ) is None && k < later.len() && !later[k] by {
            assert(rest[k] == looks[k + 1]);
        }
        assert(rest[n - 1] == looks[n]);
        lemma_wait(o, next, rest, later, n - 1);
    }
    assert(run =~= wait_steps(n as nat, group is Some).push(end));
}

/// A wait that comes to an end has a last look.
proof fn lemma_wait_end(
    o: ConnectOptions,
    s: ConnectState,
    looks: Seq<Reply>,
    clock: Seq<bool>,
) -> (n: int)
    ensures
        ({
            let end = connect_run(o, step_to_poll(s), looks, clock).last();
            &&& !(end is Fail)
            &&& end is Done ==> wait_ends_at(s.before, looks, clock, n)
        }),
    decreases looks.len(),
{
    if looks.len() == 0 {
        0
    } else {
        lemma_look(o, s, looks, clock);
        if group_seen(s.before, looks[0]) is None && clock.len() > 0 && !clock[0] {
            let next = ConnectState { phase: ConnectPhase::Sleeping, ..s };
            let rest = looks.skip(1);
            let later = clock.skip(1);
            let k = lemma_wait_end(o, next, rest, later);
            lemma_run_not_empty(o, step_to_poll(next), rest, later);
            if wait_ends_at(s.before, rest, later, k) {
                assert forall|j: int| #![trigger looks[j]] 0 <= j < k + 1 implies group_seen(
                    s.before,
                    looks[j],
                ) is None && j < clock.len() && !clock[j] by {
                    if j > 0 {
                        assert(rest[j - 1] == looks[j]);
                    }
                }
                assert(rest[k] == looks[k + 1]);
            }
            k + 1
        } else {
            0
        }
    }
}

/// What a link does up to the request for it, and on from there.
proof fn lemma_asking(o: ConnectOptions, replies: Seq<Reply>, clock: Seq<bool>)
    ensures
        ({
            let run = connect_run(o, first_step(o), replies, clock);
            let refused = !o.no_wfd && replies.len() > 0 && wpa::advertised(replies[0]) is Err;
            let asked = wpa::checked(replies[ask_at(o)]);
            let s = ConnectState {
                phase: ConnectPhase::Connecting,
                before: interfaces_before(replies[list_at(o)]),
                response: asked->Ok_0,
            };
            &&& refused ==> run.last() == ConnectStep::Fail(wpa::advertised(replies[0])->Err_0)
            &&& !refused && replies.len() <= ask_at(o) ==> run.last() is Run
            &&& !refused && replies.len() > ask_at(o) && asked is Err ==> run.last()
                == ConnectStep::Fail(asked->Err_0)
            &&& !refused && replies.len() > ask_at(o) && asked is Ok ==> run == ask_steps(o)
                + connect_run(o, step_to_poll(s), replies.skip(ask_at(o) + 1), clock)
        }),
{
    let run = connect_run(o, first_step(o), replies, clock);
    let refused = !o.no_wfd && replies.len() > 0 && wpa::advertised(replies[0]) is Err;
    if refused {
        let next = step_after_reply(o, first_step(o).0, replies[0]);
        assert(run == seq![first_step(o).1] + connect_run(o, next, replies.skip(1), clock));
        assert(run.last() == next.1);
    } else if replies.len() < list_at(o) {
        assert(run =~= seq![first_step(o).1]);
    } else {
        let (s1, first) = if o.no_wfd {
            first_step(o)
        } else {
            step_after_reply(o, first_step(o).0, replies[0])
        };
        let r1 = replies.skip(list_at(o));
        let run1 = connect_run(o, (s1, first), r1, clock);
        assert(first == ConnectStep::Run(seq!["interface"@]));
        if o.no_wfd {
            assert(r1 =~= replies);
        } else {
            assert(run == seq![first_step(o).1] + run1);
        }
        lemma_run_not_empty(o, (s1, first), r1, clock);
        assert(run.last() == run1.last());
        lemma_asking_from_list(o, s1, r1, clock);
        if replies.len() > ask_at(o) {
            assert(r1[0] == replies[list_at(o)]);
            assert(r1[2] == replies[ask_at(o)]);
            assert(r1.skip(3) =~= replies.skip(ask_at(o) + 1));
            if wpa::checked(r1[2]) is Ok {
                assert(run =~= ask_steps(o) + connect_run(
                    o,
                    step_to_poll(
                        ConnectState {
                            phase: ConnectPhase::Connecting,
                            before: interfaces_before(r1[0]),
                            response: wpa::checked(r1[2])->Ok_0,
                        },
                    ),
                    r1.skip(3),
                    clock,
                ));
            }
        }
    }
}

/// What a link does from the listing of the interfaces on.
proof fn lemma_asking_from_list(
    o: ConnectOptions,
    s1: ConnectState,
    r1: Seq<Reply>,
    clock: Seq<bool>,
)
    requires
        s1.phase == ConnectPhase::ListingBefore,
    ensures
        ({
            let first = ConnectStep::Run(seq!["interface"@]);
            let run = connect_run(o, (s1, first), r1, clock);
            let asked = wpa::checked(r1[2]);
            let s = ConnectState {
                phase: ConnectPhase::Connecting,
                before: interfaces_before(r1[0]),
                response: asked->Ok_0,
            };
            &&& r1.len() <= 2 ==> run.last() is Run
            &&& r1.len() > 2 && asked is Err ==> run.last() == ConnectStep::Fail(asked->Err_0)
            &&& r1.len() > 2 && asked is Ok ==> run == seq![
                first,
                ConnectStep::Run(seq!["p2p_stop_find"@]),
                ConnectStep::Run(connect_args(o)),
            ] + connect_run(o, step_to_poll(s), r1.skip(3), clock)
        }),
{
    let first = ConnectStep::Run(seq!["interface"@]);
    let run = connect_run(o, (s1, first), r1, clock);
    if r1.len() == 0 {
        assert(run =~= seq![first]);
    } else {
        let (s2, second) = step_after_reply(o, s1, r1[0]);
        let r2 = r1.skip(1);
        let run2 = connect_run(o, (s2, second), r2, clock);
        assert(run == seq![first] + run2);
        if r2.len() == 0 {
            assert(run2 =~= seq![second]);
            assert(run.last() == second);
        } else {
            let (s3, third) = step_after_reply(o, s2, r2[0]);
            let r3 = r2.skip(1);
            let run3 = connect_run(o, (s3, third), r3, clock);
            assert(run2 == seq![second] + run3);
            if r3.len() == 0 {
                assert(run3 =~= seq![third]);
                assert(run.last() == third);
            } else {
                let fourth = step_after_reply(o, s3, r3[0]);
                let r4 = r3.skip(1);
                let run4 = connect_run(o, fourth, r4, clock);
                assert(run3 == seq![third] + run4);
                assert(r3[0] == r1[2]);
                assert(r4 =~= r1.skip(3));
                match wpa::checked(r1[2]) {
                    Ok(response) => {
                        let s = ConnectState {
                            phase: ConnectPhase::Connecting,
                            before: interfaces_before(r1[0]),
                            response,
                        };
                        assert(fourth.0 == step_to_poll(s).0);
                        assert(run =~= seq![first, second, third] + run4);
                    },
                    Err(e) => {
                        assert(fourth.1 == ConnectStep::Fail(e));
                        assert(run4 =~= seq![fourth.1]);
                        assert(run.last() == fourth.1);
                    },
                }
            }
        }
    }
}

/// A link fails if the device cannot be advertised or the request for the link
/// is refused, and only then. Once the request is accepted, the link lists the
/// interfaces again and again until a new group shows or the time is over, and
/// then reports the first new group, or none.
pub proof fn law_connect_run(o: ConnectOptions, replies: Seq<Reply>, clock: Seq<bool>)
    ensures
        ({
            let run = connect_run(o, first_step(o), replies, clock);
            let end = run.last();
            let refused = !o.no_wfd && replies.len() > 0 && wpa::advertised(replies[0]) is Err;
            let asked = wpa::checked(replies[ask_at(o)]);
            let before = interfaces_before(replies[list_at(o)]);
            let looks = replies.skip(ask_at(o) + 1);
            &&& refused ==> end == ConnectStep::Fail(wpa::advertised(replies[0])->Err_0)
            &&& !refused && replies.len() > ask_at(o) && asked is Err ==> end == ConnectStep::Fail(
                asked->Err_0,
            )
            &&& end is Fail ==> refused || replies.len() > ask_at(o) && asked is Err
            &&& !refused && replies.len() > ask_at(o) && asked is Ok ==> forall|n: int| #[trigger]
                wait_ends_at(before, looks, clock, n) ==> {
                    let group = group_seen(before, looks[n]);
                    run == ask_steps(o) + wait_steps(n as nat, group is Some).push(
                        ConnectStep::Done(link_report(o, asked->Ok_0, group)),
                    )
                }
            &&& end is Done ==> !refused && replies.len() > ask_at(o) && asked is Ok && exists|
                n: int,
            | #[trigger]
                wait_ends_at(before, looks, clock, n)
        }),
{
    lemma_asking(o, replies, clock);
    let refused = !o.no_wfd && replies.len() > 0 && wpa::advertised(replies[0]) is Err;
    let asked = wpa::checked(replies[ask_at(o)]);
    let before = interfaces_before(replies[list_at(o)]);
    let looks = replies.skip(ask_at(o) + 1);
    let s = ConnectState { phase: ConnectPhase::Connecting, before, response: asked->Ok_0 };
    let run = connect_run(o, first_step(o), replies, clock);
    if !refused && replies.len() > ask_at(o) && asked is Ok {
        let wait = connect_run(o, step_to_poll(s), looks, clock);
        lemma_run_not_empty(o, step_to_poll(s), looks, clock);
        assert(run.last() == wait.last());
        let n = lemma_wait_end(o, s, looks, clock);
        assert forall|n: int| #[trigger] wait_ends_at(before, looks, clock, n) implies {
            let group = group_seen(before, looks[n]);
            run == ask_steps(o) + wait_steps(n as nat, group is Some).push(
                ConnectStep::Done(link_report(o, asked->Ok_0, group)),
            )
        } by {
            lemma_wait(o, s, looks, clock, n);
        }
    }
}

/// One if something is wanted, or else zero.
pub open spec fn count(wanted: bool) -> int {
    if wanted {
        1
    } else {
        0
    }
}

/// Whether a word sets a name to a number.
pub open spec fn sets_number(word: Seq<char>, name: Seq<char>, n: nat, max: nat) -> bool {
    exists|digits: Seq<char>|
        word == name + "="@ + digits && #[trigger] number::number(digits, max) == Some(n)
}

/// The command that links to a peer names the peer, then how the link is
/// authorised: by a PIN that is displayed here if that is wanted, or else by
/// the PIN that is given, or else by a push button. What else is wanted follows
/// in a fixed order, and nothing else does.
pub proof fn law_connect_command(o: ConnectOptions)
    ensures
        ({
            let args = connect_args(o);
            let m: int = if o.display_pin || o.pin is Some {
                4
            } else {
                3
            };
            let join = m + count(o.persistent);
            let provdisc = join + count(o.join);
            let auto = provdisc + count(o.provdisc);
            let intent = auto + count(o.auto);
            let freq = intent + count(o.go_intent is Some);
            &&& args.len() == freq + count(o.freq is Some)
            &&& args[0] == "p2p_connect"@
            &&& args[1] == o.peer@
            &&& o.display_pin ==> args[2] == "pin"@ && args[3] == "display"@
            &&& !o.display_pin ==> (match o.pin {
                Some(pin) => args[2] == pin@ && args[3] == "keypad"@,
                None => args[2] == "pbc"@,
            })
            &&& o.persistent ==> args[m] == "persistent"@
            &&& o.join ==> args[join] == "join"@
            &&& o.provdisc ==> args[provdisc] == "provdisc"@
            &&& o.auto ==> args[auto] == "auto"@
            &&& o.go_intent matches Some(n) ==> sets_number(
                args[intent],
                "go_intent"@,
                n as nat,
                u8::MAX as nat,
            )
            &&& o.freq matches Some(n) ==> sets_number(
                args[freq],
                "freq"@,
                n as nat,
                u32::MAX as nat,
            )
        }),
{
    reveal_strlit("go_intent");
    reveal_strlit("go_intent=");
    reveal_strlit("freq");
    reveal_strlit("freq=");
    reveal_strlit("=");
    assert("go_intent="@ =~= "go_intent"@ + "="@);
    assert("freq="@ =~= "freq"@ + "="@);
    let a0 = seq!["p2p_connect"@, o.peer@] + wps_method(o);
    let a1 = a0 + optional(o.persistent, "persistent"@);
    let a2 = a1 + optional(o.join, "join"@);
    let a3 = a2 + optional(o.provdisc, "provdisc"@);
    let a4 = a3 + optional(o.auto, "auto"@);
    let intent_word = "go_intent="@ + number::decimal(
        if o.go_intent is Some {
            o.go_intent->Some_0 as nat
        } else {
            0
        },
    );
    let freq_word = "freq="@ + number::decimal(
        if o.freq is Some {
            o.freq->Some_0 as nat
        } else {
            0
        },
    );
    let a5 = a4 + optional(o.go_intent is Some, intent_word);
    let a6 = a5 + optional(o.freq is Some, freq_word);
    assert(connect_args(o) == a6);
    lemma_optional(a0, o.persistent, "persistent"@);
    lemma_optional(a1, o.join, "join"@);
    lemma_optional(a2, o.provdisc, "provdisc"@);
    lemma_optional(a3, o.auto, "auto"@);
    lemma_optional(a4, o.go_intent is Some, intent_word);
    lemma_optional(a5, o.freq is Some, freq_word);
    lemma_prefixes(a0, a1, a2, a3, a4, a5, a6);
    if let Some(n) = o.go_intent {
        number::law_decimal_is_read_back(n as nat, u8::MAX as nat);
        assert(sets_number(intent_word, "go_intent"@, n as nat, u8::MAX as nat));
    }
    if let Some(n) = o.freq {
        number::law_decimal_is_read_back(n as nat, u32::MAX as nat);
        assert(sets_number(freq_word, "freq"@, n as nat, u32::MAX as nat));
    }
}

/// A word that is wanted stands behind those before it.
proof fn lemma_optional(list: Seq<Seq<char>>, wanted: bool, word: Seq<char>)
    ensures
        (list + optional(wanted, word)).len() == list.len() + count(wanted),
        wanted ==> (list + optional(wanted, word))[list.len() as int] == word,
        list.is_prefix_of(list + optional(wanted, word)),
{
}

/// What stands in the first lists stands in the last one.
proof fn lemma_prefixes(
    a0: Seq<Seq<char>>,
    a1: Seq<Seq<char>>,
    a2: Seq<Seq<char>>,
    a3: Seq<Seq<char>>,
    a4: Seq<Seq<char>>,
    a5: Seq<Seq<char>>,
    a6: Seq<Seq<char>>,
)
    requires
        a0.is_prefix_of(a1),
        a1.is_prefix_of(a2),
        a2.is_prefix_of(a3),
        a3.is_prefix_of(a4),
        a4.is_prefix_of(a5),
        a5.is_prefix_of(a6),
    ensures
        forall|i: int| 0 <= i < a0.len() ==> a6[i] == #[trigger] a0[i],
        forall|i: int| 0 <= i < a1.len() ==> a6[i] == #[trigger] a1[i],
        forall|i: int| 0 <= i < a2.len() ==> a6[i] == #[trigger] a2[i],
        forall|i: int| 0 <= i < a3.len() ==> a6[i] == #[trigger] a3[i],
        forall|i: int| 0 <= i < a4.len() ==> a6[i] == #[trigger] a4[i],
        forall|i: int| 0 <= i < a5.len() ==> a6[i] == #[trigger] a5[i],
{
    assert forall|i: int| 0 <= i < a5.len() implies a6[i] == #[trigger] a5[i] by {
        assert(a6.subrange(0, a5.len() as int)[i] == a5[i]);
    }
    assert forall|i: int| 0 <= i < a4.len() implies a6[i] == #[trigger] a4[i] by {
        assert(a5.subrange(0, a4.len() as int)[i] == a4[i]);
        assert(a6[i] == a5[i]);
    }
    assert forall|i: int| 0 <= i < a3.len() implies a6[i] == #[trigger] a3[i] by {
        assert(a4.subrange(0, a3.len() as int)[i] == a3[i]);
        assert(a6[i] == a4[i]);
    }
    assert forall|i: int| 0 <= i < a2.len() implies a6[i] == #[trigger] a2[i] by {
        assert(a3.subrange(0, a2.len() as int)[i] == a2[i]);
        assert(a6[i] == a3[i]);
    }
    assert forall|i: int| 0 <= i < a1.len() implies a6[i] == #[trigger] a1[i] by {
        assert(a2.subrange(0, a1.len() as int)[i] == a1[i]);
        assert(a6[i] == a2[i]);
    }
    assert forall|i: int| 0 <= i < a0.len() implies a6[i] == #[trigger] a0[i] by {
        assert(a1.subrange(0, a0.len() as int)[i] == a0[i]);
        assert(a6[i] == a1[i]);
    }
}

/// Whether a name is that of a group interface which was not there before.
pub open spec fn is_new_group(name: Seq<char>, before: Seq<Seq<char>>) -> bool {
    &&& forall|i: int| 0 <= i < before.len() ==> #[trigger] before[i] != name
    &&& (exists|rest: Seq<char>| name == #[trigger] ("p2p-"@ + rest)) || (exists|rest: Seq<char>|
        name == #[trigger] ("DIRECT-"@ + rest))
}

/// The test for a new group.
proof fn lemma_is_new_group(name: Seq<char>, before: Seq<Seq<char>>)
    ensures
        is_new_group(name, before) <==> !before.contains(name) && is_group_name(name),
        is_new_group(name, before) ==> wpa::is_interface_line(name),
{
    let p = "p2p-"@;
    let d = "DIRECT-"@;
    if text::begins_with(name, p) {
        assert(name =~= p + name.skip(p.len() as int));
    }
    if text::begins_with(name, d) {
        assert(name =~= d + name.skip(d.len() as int));
    }
    if exists|rest: Seq<char>| name == #[trigger] (p + rest) {
        let rest = choose|rest: Seq<char>| name == #[trigger] (p + rest);
        text::law_begins_with(p, rest, p);
    }
    if exists|rest: Seq<char>| name == #[trigger] (d + rest) {
        let rest = choose|rest: Seq<char>| name == #[trigger] (d + rest);
        text::law_begins_with(d, rest, d);
    }
    if is_group_name(name) {
        reveal_strlit("p2p-");
        reveal_strlit("DIRECT-");
        reveal_strlit("Selected interface");
        reveal_strlit("Available interfaces:");
        if text::begins_with(name, p) {
            assert(name.take(4)[0] == 'p');
        } else {
            assert(name.take(7)[0] == 'D');
        }
        assert("Available interfaces:"@[0] == 'A');
        if text::begins_with(name, "Selected interface"@) {
            assert(name.take(18)[0] == 'S');
        }
    }
}

/// The first new group of a list is found, and none if there is none.
pub proof fn law_new_group_is_found(list: Seq<Seq<char>>, before: Seq<Seq<char>>)
    ensures
        match new_group(list, before) {
            Some(name) => exists|k: int|
                0 <= k < list.len() && #[trigger] list[k] == name && is_new_group(name, before)
                    && forall|j: int| 0 <= j < k ==> !is_new_group(#[trigger] list[j], before),
            None => forall|j: int|
                0 <= j < list.len() ==> !is_new_group(#[trigger] list[j], before),
        },
    decreases list.len(),
{
    if list.len() > 0 {
        let tail = list.drop_first();
        lemma_is_new_group(list[0], before);
        law_new_group_is_found(tail, before);
        if is_new_group(list[0], before) {
            assert(list[0] == list[0]);
        } else {
            match new_group(tail, before) {
                Some(name) => {
                    let k = choose|k: int|
                        0 <= k < tail.len() && #[trigger] tail[k] == name && is_new_group(
                            name,
                            before,
                        ) && forall|j: int|
                            0 <= j < k ==> !is_new_group(#[trigger] tail[j], before);
                    assert(list[k + 1] == name);
                    assert forall|j: int| 0 <= j < k + 1 implies !is_new_group(
                        #[trigger] list[j],
                        before,
                    ) by {
                        if j > 0 {
                            assert(list[j] == tail[j - 1]);
                        }
                    }
                },
                None => {
                    assert forall|j: int| 0 <= j < list.len() implies !is_new_group(
                        #[trigger] list[j],
                        before,
                    ) by {
                        if j > 0 {
                            assert(list[j] == tail[j - 1]);
                        }
                    }
                },
            }
        }
    }
}

/// Lines that do not name an interface hide no group.
proof fn lemma_group_among_lines(lines: Seq<Seq<char>>, before: Seq<Seq<char>>)
    ensures
        new_group(lines.filter(wpa::interface_test()), before) == new_group(lines, before),
    decreases lines.len(),
{
    let keep = wpa::interface_test();
    if lines.len() == 0 {
        assert(lines.filter(keep) =~= lines) by {
            reveal(Seq::filter);
        }
    } else {
        let rest = lines.drop_first();
        assert(lines =~= seq![lines[0]] + rest);
        text::lemma_filter_first(lines[0], rest, keep);
        lemma_is_new_group(lines[0], before);
        lemma_group_among_lines(rest, before);
        if keep(lines[0]) {
            assert((seq![lines[0]] + rest.filter(keep)).drop_first() =~= rest.filter(keep));
        }
    }
}

/// A look at the interfaces shows the first of its lines that names a new
/// group, and shows none only if no line does or the look failed.
pub proof fn law_group_is_seen(before: Seq<Seq<char>>, output: Seq<char>, e: ErrorModel)
    requires
        !wpa::is_failure(output),
    ensures
        ({
            let lines = text::trimmed_lines(output);
            match group_seen(before, Ok(output)) {
                Some(name) => exists|k: int|
                    0 <= k < lines.len() && #[trigger] lines[k] == name && is_new_group(
                        name,
                        before,
                    ) && forall|j: int|
                        0 <= j < k ==> !is_new_group(#[trigger] lines[j], before),
                None => forall|j: int|
                    0 <= j < lines.len() ==> !is_new_group(#[trigger] lines[j], before),
            }
        }),
        group_seen(before, Err(e)) is None,
{
    let lines = text::trimmed_lines(output);
    lemma_group_among_lines(lines, before);
    law_new_group_is_found(lines, before);
}

/// What was there before is what the listing names, and nothing if that failed.
pub proof fn law_interfaces_before(output: Seq<char>, e: ErrorModel)
    ensures
        !wpa::is_failure(output) ==> interfaces_before(Ok(output)) == wpa::interface_names(output),
        wpa::is_failure(output) ==> interfaces_before(Ok(output)).len() == 0,
        interfaces_before(Err(e)).len() == 0,
{
}

/// The report of a link tells the peer, the command, the answer without white
/// space around it, and the group.
pub proof fn law_link_report(
    o: ConnectOptions,
    response: Seq<char>,
    group: Option<Seq<char>>,
)
    ensures
        ({
            let r = link_report(o, response, group);
            &&& r.peer == o.peer@
            &&& r.command == connect_args(o)
            &&& r.wpa_cli_response == text::trimmed(response)
            &&& r.group_ifname == group
            &&& r.started == !wpa::is_failure(response)
        }),
{
}

/// A link is removed by its group interface.
pub proof fn law_disconnect_command(group_ifname: Seq<char>)
    ensures
        disconnect_args(group_ifname).len() == 2,
        disconnect_args(group_ifname)[0] == "p2p_group_remove"@,
        disconnect_args(group_ifname)[1] == group_ifname,
{
}

/// A link whose request was accepted is done at the first look that shows a new
/// group, with that group.
pub proof fn law_link_finds_the_group(
    o: ConnectOptions,
    s: ConnectState,
    output: Seq<char>,
    k: int,
)
    requires
        s.phase == ConnectPhase::Polling,
        !wpa::is_failure(output),
        0 <= k < text::trimmed_lines(output).len(),
        is_new_group(text::trimmed_lines(output)[k], s.before),
    ensures
        step_after_reply(o, s, Ok(output)).1 matches ConnectStep::Done(r) && (
        r.group_ifname matches Some(name) && is_new_group(name, s.before) && exists|j: int|
            0 <= j <= k && #[trigger] text::trimmed_lines(output)[j] == name),
{
    law_group_is_seen(
        s.before,
        output,
        ErrorModel {
            case: crate::error::ErrorCase::System,
            message: Seq::empty(),
            contexts: Seq::empty(),
        },
    );
}

/// What follows each step of a link. The interfaces that are there before are
/// noted as far as they can be listed, and whatever came of stopping a search
/// does not matter. A request that is refused ends the link; the answer to one
/// that is accepted is kept. Then the interfaces are listed every half second
/// until a new group shows or the time is over.
pub proof fn law_link_goes_on(o: ConnectOptions, s: ConnectState, reply: Reply)
    ensures
        s.phase == ConnectPhase::ListingBefore ==> step_after_reply(o, s, reply) == (
            (ConnectState {
                phase: ConnectPhase::Stopping,
                before: interfaces_before(reply),
                response: s.response,
            }),
            ConnectStep::Run(seq!["p2p_stop_find"@]),
        ),
        s.phase == ConnectPhase::Stopping ==> step_after_reply(o, s, reply) == (
            (ConnectState {
                phase: ConnectPhase::Connecting,
                before: s.before,
                response: s.response,
            }),
            ConnectStep::Run(connect_args(o)),
        ),
        s.phase == ConnectPhase::Connecting && reply is Ok && !wpa::is_failure(reply->Ok_0)
            ==> step_after_reply(o, s, reply) == (
            (ConnectState {
                phase: ConnectPhase::Polling,
                before: s.before,
                response: reply->Ok_0,
            }),
            ConnectStep::Run(seq!["interface"@]),
        ),
        s.phase == ConnectPhase::Connecting && !(reply is Ok && !wpa::is_failure(reply->Ok_0))
            ==> step_after_reply(o, s, reply).1 is Fail,
        s.phase == ConnectPhase::Polling && group_seen(s.before, reply) is None
            ==> step_after_reply(o, s, reply) == (
            (ConnectState {
                phase: ConnectPhase::CheckingDeadline,
                before: s.before,
                response: s.response,
            }),
            ConnectStep::CheckDeadline,
        ),
        s.phase == ConnectPhase::Polling && group_seen(s.before, reply) is Some ==> (
        step_after_reply(o, s, reply).1 matches ConnectStep::Done(r) && r.group_ifname
            == group_seen(s.before, reply) && r.wpa_cli_response == text::trimmed(s.response)
            && r.peer == o.peer@),
        step_after_deadline(o, s, false) == (
            (ConnectState {
                phase: ConnectPhase::Sleeping,
                before: s.before,
                response: s.response,
            }),
            ConnectStep::Sleep(500),
        ),
        step_after_deadline(o, s, true).1 matches ConnectStep::Done(r) && r.group_ifname is None
            && r.wpa_cli_response == text::trimmed(s.response) && r.peer == o.peer@,
        step_to_poll(s) == (
            (ConnectState {
                phase: ConnectPhase::Polling,
                before: s.before,
                response: s.response,
            }),
            ConnectStep::Run(seq!["interface"@]),
        ),
{
}

} // verus!
