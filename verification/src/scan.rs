//! Looking for peers.
//!
//! A scan is a sequence of `wpa_cli` commands. [`ScanFlow`] decides which
//! command comes next from the replies to those before.
use crate::error::{self, ErrorModel, MiracastError};
use crate::number::{self, to_decimal};
use crate::peer::{
    self, can_read_details, parse_peer_addresses, parse_peer_details, sort_peers, MiracastPeer,
    PeerModel,
};
use crate::text;
use crate::wpa::{
    self, advertise_command, configure_wfd_source, is_wpa_cli_failure, strings, Reply, WpaCli,
};
use vstd::prelude::*;

verus! {

/// How to scan.
#[derive(Clone, Debug, PartialEq, Eq)]
pub struct ScanOptions {
    /// How long to look for peers, in seconds; zero lists what is known.
    pub timeout: u64,
    /// Leave out peers that do not advertise Wi-Fi Display.
    pub miracast_only: bool,
    /// Forget the known peers first.
    pub flush: bool,
    /// Do not advertise the device as a Wi-Fi Display source.
    pub no_wfd: bool,
    pub wfd_device_info: String,
}

/// What a scan waits for.
#[derive(Clone, Copy, PartialEq, Eq, Structural, Debug)]
pub enum ScanPhase {
    Advertising,
    Flushing,
    Finding,
    Sleeping,
    Stopping,
    Listing,
    Describing,
    Finished,
}

/// What a scan wants done next.
#[derive(Debug)]
pub enum ScanAction {
    /// Run this command and hand in the reply.
    Run(Vec<String>),
    /// Wait for so many seconds.
    Sleep(u64),
    /// The peers that were found.
    Done(Vec<MiracastPeer>),
    /// The scan failed.
    Fail(MiracastError),
}

/// What happened since a scan wanted something done.
#[derive(Debug)]
pub enum ScanEvent {
    /// The command came to this.
    Reply(Result<String, MiracastError>),
    /// The wait is over.
    Woke,
}

/// What an action stands for.
pub enum ScanStep {
    Run(Seq<Seq<char>>),
    Sleep(nat),
    Done(Seq<PeerModel>),
    Fail(ErrorModel),
}

impl View for ScanAction {
    type V = ScanStep;

    open spec fn view(&self) -> ScanStep {
        match self {
            ScanAction::Run(args) => ScanStep::Run(text::texts(args@)),
            ScanAction::Sleep(seconds) => ScanStep::Sleep(*seconds as nat),
            ScanAction::Done(list) => ScanStep::Done(peer::peers(list@)),
            ScanAction::Fail(e) => ScanStep::Fail(e@),
        }
    }
}

/// A scan under way.
#[derive(Debug)]
pub struct ScanFlow {
    options: ScanOptions,
    phase: ScanPhase,
    addresses: Vec<String>,
    next: usize,
    found: Vec<MiracastPeer>,
}

/// Where a scan stands: what it waits for, the addresses of the peers that are
/// not described yet, and the peers to be listed.
pub struct ScanState {
    pub phase: ScanPhase,
    pub waiting: Seq<Seq<char>>,
    pub found: Seq<PeerModel>,
}

/// The command that starts looking for peers.
pub open spec fn find_args(o: ScanOptions) -> Seq<Seq<char>> {
    seq!["p2p_find"@, number::decimal(o.timeout as nat)]
}

/// The command that lists the peers.
pub open spec fn list_args() -> Seq<Seq<char>> {
    seq!["p2p_peers"@, "discovered"@]
}

/// The command that describes a peer.
pub open spec fn describe_args(address: Seq<char>) -> Seq<Seq<char>> {
    seq!["p2p_peer"@, address]
}

/// A phase before any address is known.
pub open spec fn early(phase: ScanPhase) -> ScanState {
    ScanState { phase, waiting: Seq::empty(), found: Seq::empty() }
}

/// The start of a scan.
pub open spec fn first_step(o: ScanOptions) -> (ScanState, ScanStep) {
    if !o.no_wfd {
        (
            early(ScanPhase::Advertising),
            ScanStep::Run(wpa::advertise_args(o.wfd_device_info@)),
        )
    } else {
        step_after_advertising(o)
    }
}

/// What follows the advertising.
pub open spec fn step_after_advertising(o: ScanOptions) -> (ScanState, ScanStep) {
    if o.flush {
        (early(ScanPhase::Flushing), ScanStep::Run(seq!["p2p_flush"@]))
    } else {
        step_after_flushing(o)
    }
}

/// What follows the flush.
pub open spec fn step_after_flushing(o: ScanOptions) -> (ScanState, ScanStep) {
    if o.timeout != 0 {
        (early(ScanPhase::Finding), ScanStep::Run(find_args(o)))
    } else {
        step_to_list()
    }
}

/// The listing of the peers.
pub open spec fn step_to_list() -> (ScanState, ScanStep) {
    (early(ScanPhase::Listing), ScanStep::Run(list_args()))
}

/// What follows once some peers are described.
pub open spec fn step_to_describe(waiting: Seq<Seq<char>>, found: Seq<PeerModel>) -> (
    ScanState,
    ScanStep,
) {
    if waiting.len() > 0 {
        (
            ScanState { phase: ScanPhase::Describing, waiting, found },
            ScanStep::Run(describe_args(waiting[0])),
        )
    } else {
        (
            ScanState { phase: ScanPhase::Finished, waiting, found: Seq::empty() },
            ScanStep::Done(peer::listing(found)),
        )
    }
}

/// The end of a scan that failed.
pub open spec fn step_to_fail(s: ScanState, e: ErrorModel) -> (ScanState, ScanStep) {
    (ScanState { phase: ScanPhase::Finished, ..s }, ScanStep::Fail(e))
}

/// The peers to be listed once another one is described.
pub open spec fn with_peer(o: ScanOptions, found: Seq<PeerModel>, p: PeerModel) -> Seq<PeerModel> {
    if !o.miracast_only || p.is_miracast {
        found.push(p)
    } else {
        found
    }
}

/// Whether the scan waits for the reply to a command.
pub open spec fn wants_reply(s: ScanState) -> bool {
    s.phase != ScanPhase::Sleeping && s.phase != ScanPhase::Finished
}

/// What follows a reply.
pub open spec fn step_after_reply(
    o: ScanOptions,
    s: ScanState,
    reply: Reply,
) -> (ScanState, ScanStep) {
    match s.phase {
        ScanPhase::Advertising => match wpa::advertised(reply) {
            Ok(_) => step_after_advertising(o),
            Err(e) => step_to_fail(s, e),
        },
        ScanPhase::Stopping => step_to_list(),
        _ => match wpa::checked(reply) {
            Err(e) => step_to_fail(s, e),
            Ok(output) => match s.phase {
                ScanPhase::Flushing => step_after_flushing(o),
                ScanPhase::Finding => (
                    early(ScanPhase::Sleeping),
                    ScanStep::Sleep(o.timeout as nat),
                ),
                ScanPhase::Listing => step_to_describe(
                    peer::peer_addresses(output),
                    Seq::empty(),
                ),
                _ => step_to_describe(
                    s.waiting.drop_first(),
                    with_peer(o, s.found, peer::peer_of(s.waiting[0], output)),
                ),
            },
        },
    }
}

/// What follows the wait.
pub open spec fn step_after_sleep() -> (ScanState, ScanStep) {
    (early(ScanPhase::Stopping), ScanStep::Run(seq!["p2p_stop_find"@]))
}

/// Whether the scan can take the reply: the details of a peer have to be
/// readable.
pub open spec fn can_take(s: ScanState, reply: Reply) -> bool {
    s.phase == ScanPhase::Describing ==> (wpa::checked(reply) matches Ok(output)
        ==> peer::details_readable(output))
}

impl View for ScanFlow {
    type V = ScanState;

    closed spec fn view(&self) -> ScanState {
        ScanState {
            phase: self.phase,
            waiting: text::texts(self.addresses@).skip(self.next as int),
            found: peer::peers(self.found@),
        }
    }
}

impl ScanFlow {
    /// How this scan is made.
    pub closed spec fn options(&self) -> ScanOptions {
        self.options
    }

    /// The flow is at a peer while peers are being described.
    pub closed spec fn wf(&self) -> bool {
        &&& self.next <= self.addresses@.len()
        &&& self.phase == ScanPhase::Describing ==> self.next < self.addresses@.len()
        &&& self.phase != ScanPhase::Describing && self.phase != ScanPhase::Finished
            ==> self.addresses@.len() == 0 && self.found@.len() == 0
    }

    /// Whether the scan can take the reply: the details of a peer have to be
    /// readable.
    pub fn accepts(&self, reply: &Result<String, MiracastError>) -> (r: bool)
        ensures
            r == can_take(self@, error::outcome(*reply)),
    {
        if self.phase != ScanPhase::Describing {
            return true;
        }
        match reply {
            Ok(output) => is_wpa_cli_failure(output.as_str()) || can_read_details(output.as_str()),
            Err(_) => true,
        }
    }

    /// Starts a scan.
    pub fn start(options: ScanOptions) -> (r: (ScanFlow, ScanAction))
        ensures
            r.0.wf(),
            r.0.options() == options,
            (r.0@, r.1@) == first_step(options),
    {
        let mut flow: ScanFlow = ScanFlow {
            options,
            phase: ScanPhase::Advertising,
            addresses: Vec::new(),
            next: 0,
            found: Vec::new(),
        };
        let action: ScanAction = if !flow.options.no_wfd {
            proof {
                lemma_empty_view(&flow);
            }
            ScanAction::Run(advertise_command(flow.options.wfd_device_info.as_str()))
        } else {
            flow.after_advertising()
        };
        (flow, action)
    }

    fn after_advertising(&mut self) -> (action: ScanAction)
        requires
            old(self).wf(),
            old(self).phase != ScanPhase::Describing && old(self).phase != ScanPhase::Finished,
        ensures
            final(self).wf(),
            final(self).options() == old(self).options(),
            (final(self)@, action@) == step_after_advertising(old(self).options()),
    {
        if self.options.flush {
            self.phase = ScanPhase::Flushing;
            let args: Vec<String> = strings(["p2p_flush"]);
            proof {
                assert(text::texts(args@) =~= seq!["p2p_flush"@]);
                lemma_empty_view(&*self);
            }
            ScanAction::Run(args)
        } else {
            self.after_flushing()
        }
    }

    fn after_flushing(&mut self) -> (action: ScanAction)
        requires
            old(self).wf(),
            old(self).phase != ScanPhase::Describing && old(self).phase != ScanPhase::Finished,
        ensures
            final(self).wf(),
            final(self).options() == old(self).options(),
            (final(self)@, action@) == step_after_flushing(old(self).options()),
    {
        if self.options.timeout != 0 {
            self.phase = ScanPhase::Finding;
            let seconds: String = to_decimal(self.options.timeout);
            let args: Vec<String> = strings(["p2p_find", seconds.as_str()]);
            proof {
                assert(text::texts(args@) =~= find_args(self.options));
                lemma_empty_view(&*self);
            }
            ScanAction::Run(args)
        } else {
            self.list()
        }
    }

    fn list(&mut self) -> (action: ScanAction)
        requires
            old(self).wf(),
            old(self).phase != ScanPhase::Describing && old(self).phase != ScanPhase::Finished,
        ensures
            final(self).wf(),
            final(self).options() == old(self).options(),
            (final(self)@, action@) == step_to_list(),
    {
        self.phase = ScanPhase::Listing;
        let args: Vec<String> = strings(["p2p_peers", "discovered"]);
        proof {
            assert(text::texts(args@) =~= list_args());
            lemma_empty_view(&*self);
        }
        ScanAction::Run(args)
    }

    fn describe(&mut self) -> (action: ScanAction)
        requires
            old(self).next <= old(self).addresses@.len(),
        ensures
            final(self).wf(),
            final(self).options() == old(self).options(),
            (final(self)@, action@) == step_to_describe(old(self)@.waiting, old(self)@.found),
    {
        let ghost waiting = self@.waiting;
        if self.next < self.addresses.len() {
            self.phase = ScanPhase::Describing;
            let args: Vec<String> = strings(["p2p_peer", self.addresses[self.next].as_str()]);
            proof {
                assert(waiting[0] == self.addresses@[self.next as int]@);
                assert(text::texts(args@) =~= describe_args(waiting[0]));
            }
            ScanAction::Run(args)
        } else {
            self.phase = ScanPhase::Finished;
            let mut found: Vec<MiracastPeer> = Vec::new();
            core::mem::swap(&mut found, &mut self.found);
            assert(self@.found =~= Seq::<PeerModel>::empty());
            ScanAction::Done(sort_peers(found))
        }
    }

    /// Takes the reply to the command that was to be run.
    fn on_reply(&mut self, reply: Result<String, MiracastError>) -> (action: ScanAction)
        requires
            old(self).wf(),
            wants_reply(old(self)@),
            can_take(old(self)@, error::outcome(reply)),
        ensures
            final(self).wf(),
            final(self).options() == old(self).options(),
            (final(self)@, action@) == step_after_reply(
                old(self).options(),
                old(self)@,
                error::outcome(reply),
            ),
    {
        match self.phase {
            ScanPhase::Advertising => {
                return match configure_wfd_source(reply) {
                    Ok(_) => self.after_advertising(),
                    Err(e) => self.fail(e),
                };
            },
            ScanPhase::Stopping => {
                return self.list();
            },
            _ => {},
        }
        let output: String = match WpaCli::run_ok(reply) {
            Ok(output) => output,
            Err(e) => {
                return self.fail(e);
            },
        };
        match self.phase {
            ScanPhase::Flushing => self.after_flushing(),
            ScanPhase::Finding => {
                self.phase = ScanPhase::Sleeping;
                proof {
                    lemma_empty_view(&*self);
                }
                ScanAction::Sleep(self.options.timeout)
            },
            ScanPhase::Listing => {
                self.addresses = parse_peer_addresses(output.as_str());
                proof {
                    assert(self@.waiting =~= peer::peer_addresses(output@));
                    assert(self@.found =~= Seq::<PeerModel>::empty());
                }
                self.describe()
            },
            _ => {
                let ghost before = self@;
                proof {
                    assert(before.waiting[0] == self.addresses@[self.next as int]@);
                }
                let p: MiracastPeer = parse_peer_details(
                    self.addresses[self.next].as_str(),
                    output.as_str(),
                );
                let total: usize = self.addresses.len();
                assert(self.next < total);
                self.next = self.next + 1;
                if !self.options.miracast_only || p.is_miracast {
                    self.found.push(p);
                }
                proof {
                    assert(self@.waiting =~= before.waiting.drop_first());
                    assert(self@.found =~= with_peer(self.options, before.found, p@));
                }
                self.describe()
            },
        }
    }

    /// Takes note that the wait is over.
    fn on_woke(&mut self) -> (action: ScanAction)
        requires
            old(self).wf(),
            old(self)@.phase == ScanPhase::Sleeping,
        ensures
            final(self).wf(),
            final(self).options() == old(self).options(),
            (final(self)@, action@) == step_after_sleep(),
    {
        self.phase = ScanPhase::Stopping;
        let args: Vec<String> = strings(["p2p_stop_find"]);
        proof {
            assert(text::texts(args@) =~= seq!["p2p_stop_find"@]);
            lemma_empty_view(&*self);
        }
        ScanAction::Run(args)
    }

    fn fail(&mut self, e: MiracastError) -> (action: ScanAction)
        requires
            old(self).wf(),
        ensures
            final(self).wf(),
            final(self).options() == old(self).options(),
            (final(self)@, action@) == step_to_fail(old(self)@, e@),
    {
        self.phase = ScanPhase::Finished;
        ScanAction::Fail(e)
    }
}

/// Whether the scan waits for such an event and can take it.
pub open spec fn expects(s: ScanState, event: ScanEvent) -> bool {
    match event {
        ScanEvent::Reply(reply) => wants_reply(s) && can_take(s, error::outcome(reply)),
        ScanEvent::Woke => s.phase == ScanPhase::Sleeping,
    }
}

/// What follows an event.
pub open spec fn step_after(o: ScanOptions, s: ScanState, event: ScanEvent) -> (
    ScanState,
    ScanStep,
) {
    match event {
        ScanEvent::Reply(reply) => step_after_reply(o, s, error::outcome(reply)),
        ScanEvent::Woke => step_after_sleep(),
    }
}

/// Goes on with a scan: takes what happened and decides what to do next.
pub fn scan(flow: &mut ScanFlow, event: ScanEvent) -> (action: ScanAction)
    requires
        old(flow).wf(),
        expects(old(flow)@, event),
    ensures
        final(flow).wf(),
        final(flow).options() == old(flow).options(),
        (final(flow)@, action@) == step_after(old(flow).options(), old(flow)@, event),
{
    match event {
        ScanEvent::Reply(reply) => flow.on_reply(reply),
        ScanEvent::Woke => flow.on_woke(),
    }
}

/// Without addresses and peers, a flow shows its phase alone.
proof fn lemma_empty_view(flow: &ScanFlow)
    requires
        flow.addresses@.len() == 0,
        flow.found@.len() == 0,
        flow.next == 0,
    ensures
        flow@ == early(flow.phase),
{
    assert(flow@.waiting =~= Seq::<Seq<char>>::empty());
    assert(flow@.found =~= Seq::<PeerModel>::empty());
}

/// How far a scan has still to go.
pub open spec fn steps_left(phase: ScanPhase) -> nat {
    match phase {
        ScanPhase::Advertising => 7,
        ScanPhase::Flushing => 6,
        ScanPhase::Finding => 5,
        ScanPhase::Sleeping => 4,
        ScanPhase::Stopping => 3,
        ScanPhase::Listing => 2,
        ScanPhase::Describing => 1,
        ScanPhase::Finished => 0,
    }
}

/// All that a scan wants done, up to its end or to the command that waits for a
/// reply, if its commands are replied to as `replies` says, one after the other.
pub open spec fn scan_run(o: ScanOptions, at: (ScanState, ScanStep), replies: Seq<Reply>) -> Seq<
    ScanStep,
>
    decreases steps_left(at.0.phase), at.0.waiting.len(),
{
    let (s, step) = at;
    match step {
        ScanStep::Run(_) => if replies.len() > 0 && wants_reply(s) && (s.phase
            == ScanPhase::Describing ==> s.waiting.len() > 0) {
            seq![step] + scan_run(o, step_after_reply(o, s, replies[0]), replies.skip(1))
        } else {
            seq![step]
        },
        ScanStep::Sleep(_) => if s.phase == ScanPhase::Sleeping {
            seq![step] + scan_run(o, step_after_sleep(), replies)
        } else {
            seq![step]
        },
        _ => seq![step],
    }
}

/// Whether a scan is at its end.
pub open spec fn is_end(step: ScanStep) -> bool {
    step is Done || step is Fail
}

/// The descriptions of the peers at the addresses, or the first error among
/// the replies.
pub open spec fn described(addresses: Seq<Seq<char>>, replies: Seq<Reply>) -> Result<
    Seq<PeerModel>,
    ErrorModel,
>
    decreases addresses.len(),
{
    if addresses.len() == 0 {
        Ok(Seq::empty())
    } else {
        match wpa::checked(replies[0]) {
            Ok(output) => match described(addresses.drop_first(), replies.skip(1)) {
                Ok(rest) => Ok(seq![peer::peer_of(addresses[0], output)] + rest),
                Err(e) => Err(e),
            },
            Err(e) => Err(e),
        }
    }
}

/// The test for a peer that advertises Wi-Fi Display.
pub open spec fn miracast_test() -> spec_fn(PeerModel) -> bool {
    |p: PeerModel| p.is_miracast
}

/// The peers that are to be listed.
pub open spec fn selected(o: ScanOptions, list: Seq<PeerModel>) -> Seq<PeerModel> {
    if o.miracast_only {
        list.filter(miracast_test())
    } else {
        list
    }
}

/// The number of replies before the one to the flush.
pub open spec fn flush_at(o: ScanOptions) -> int {
    if o.no_wfd {
        0
    } else {
        1
    }
}

/// The number of replies before the one to the search.
pub open spec fn find_at(o: ScanOptions) -> int {
    flush_at(o) + (if o.flush {
        1int
    } else {
        0
    })
}

/// The number of replies before the one that lists the peers: a search takes
/// one to its start and one to its end.
pub open spec fn list_at(o: ScanOptions) -> int {
    find_at(o) + (if o.timeout != 0 {
        2int
    } else {
        0
    })
}

/// How a scan ends from the listing of the peers on.
pub open spec fn list_end(o: ScanOptions, listing: Reply, details: Seq<Reply>) -> ScanStep {
    match wpa::checked(listing) {
        Ok(output) => match described(peer::peer_addresses(output), details) {
            Ok(list) => ScanStep::Done(peer::listing(selected(o, list))),
            Err(e) => ScanStep::Fail(e),
        },
        Err(e) => ScanStep::Fail(e),
    }
}

/// How a scan ends: with the first error among the replies that matter, or with
/// the listing of the peers. The reply to the command that ends the search does
/// not matter.
pub open spec fn scan_end(o: ScanOptions, replies: Seq<Reply>) -> ScanStep {
    let advertising = wpa::advertised(replies[0]);
    let flushing = wpa::checked(replies[flush_at(o)]);
    let finding = wpa::checked(replies[find_at(o)]);
    if !o.no_wfd && advertising is Err {
        ScanStep::Fail(advertising->Err_0)
    } else if o.flush && flushing is Err {
        ScanStep::Fail(flushing->Err_0)
    } else if o.timeout != 0 && finding is Err {
        ScanStep::Fail(finding->Err_0)
    } else {
        list_end(o, replies[list_at(o)], replies.skip(list_at(o) + 1))
    }
}

/// The commands that describe the peers at the addresses.
pub open spec fn describe_steps(addresses: Seq<Seq<char>>) -> Seq<ScanStep> {
    addresses.map_values(|address: Seq<char>| ScanStep::Run(describe_args(address)))
}

/// The advertising, unless the scan is told not to.
pub open spec fn advertise_steps(o: ScanOptions) -> Seq<ScanStep> {
    if !o.no_wfd {
        seq![ScanStep::Run(wpa::advertise_args(o.wfd_device_info@))]
    } else {
        Seq::empty()
    }
}

/// The flush, if the scan is told to.
pub open spec fn flush_steps(o: ScanOptions) -> Seq<ScanStep> {
    if o.flush {
        seq![ScanStep::Run(seq!["p2p_flush"@])]
    } else {
        Seq::empty()
    }
}

/// The search, if it has some time.
pub open spec fn find_steps(o: ScanOptions) -> Seq<ScanStep> {
    if o.timeout != 0 {
        seq![
            ScanStep::Run(find_args(o)),
            ScanStep::Sleep(o.timeout as nat),
            ScanStep::Run(seq!["p2p_stop_find"@]),
        ]
    } else {
        Seq::empty()
    }
}

/// What a scan does before its end if no reply stops it, given the listing of
/// the peers.
pub open spec fn scan_steps(o: ScanOptions, output: Seq<char>) -> Seq<ScanStep> {
    advertise_steps(o) + flush_steps(o) + find_steps(o) + seq![ScanStep::Run(list_args())]
        + describe_steps(peer::peer_addresses(output))
}

/// Whether there is a reply to each peer that a listing names.
pub open spec fn describes_all(listing: Reply, details: nat) -> bool {
    wpa::checked(listing) matches Ok(output) ==> details >= peer::peer_addresses(output).len()
}

/// Selecting goes peer by peer.
proof fn lemma_selected_first(o: ScanOptions, p: PeerModel, rest: Seq<PeerModel>)
    ensures
        selected(o, seq![p] + rest) == (if !o.miracast_only || p.is_miracast {
            seq![p] + selected(o, rest)
        } else {
            selected(o, rest)
        }),
{
    if o.miracast_only {
        Seq::filter_distributes_over_add(seq![p], rest, miracast_test());
        text::lemma_filter_push(Seq::<PeerModel>::empty(), p, miracast_test());
        assert(Seq::<PeerModel>::empty().push(p) =~= seq![p]);
        assert(Seq::<PeerModel>::empty().filter(miracast_test()) =~= Seq::<PeerModel>::empty()) by {
            reveal(Seq::filter);
        }
        assert(Seq::<PeerModel>::empty() + selected(o, rest) =~= selected(o, rest));
    }
}

/// Every scan wants something done.
proof fn lemma_run_not_empty(o: ScanOptions, at: (ScanState, ScanStep), replies: Seq<Reply>)
    ensures
        scan_run(o, at, replies).len() > 0,
{
}

/// How the describing of peers goes.
proof fn lemma_describing(
    o: ScanOptions,
    waiting: Seq<Seq<char>>,
    found: Seq<PeerModel>,
    replies: Seq<Reply>,
)
    ensures
        ({
            let run = scan_run(o, step_to_describe(waiting, found), replies);
            &&& replies.len() >= waiting.len() ==> is_end(run.last())
            &&& is_end(run.last()) ==> run.last() == (match described(waiting, replies) {
                Ok(list) => ScanStep::Done(peer::listing(found + selected(o, list))),
                Err(e) => ScanStep::Fail(e),
            })
            &&& run.last() is Done ==> run == describe_steps(waiting).push(run.last())
                && replies.len() >= waiting.len()
        }),
    decreases waiting.len(),
{
    let (s, step) = step_to_describe(waiting, found);
    let run = scan_run(o, (s, step), replies);
    if waiting.len() == 0 {
        reveal(Seq::filter);
        assert(found + selected(o, Seq::empty()) =~= found);
        assert(run =~= describe_steps(waiting).push(step));
    } else if replies.len() > 0 {
        let next = step_after_reply(o, s, replies[0]);
        let rest = scan_run(o, next, replies.skip(1));
        assert(run == seq![step] + rest);
        lemma_run_not_empty(o, next, replies.skip(1));
        assert(run.last() == rest.last());
        match wpa::checked(replies[0]) {
            Ok(output) => {
                let p = peer::peer_of(waiting[0], output);
                let others = waiting.drop_first();
                lemma_describing(o, others, with_peer(o, found, p), replies.skip(1));
                if let Ok(list) = described(others, replies.skip(1)) {
                    lemma_selected_first(o, p, list);
                    assert(with_peer(o, found, p) + selected(o, list) =~= found + selected(
                        o,
                        seq![p] + list,
                    ));
                }
                assert(describe_steps(waiting) =~= seq![step] + describe_steps(others));
                if run.last() is Done {
                    assert(run =~= describe_steps(waiting).push(run.last()));
                }
            },
            Err(_) => {},
        }
    }
}

/// How a scan goes from the listing on.
proof fn lemma_listing(o: ScanOptions, replies: Seq<Reply>)
    ensures
        ({
            let run = scan_run(o, step_to_list(), replies);
            &&& replies.len() > 0 && describes_all(replies[0], (replies.len() - 1) as nat)
                ==> is_end(run.last())
            &&& is_end(run.last()) ==> replies.len() > 0 && run.last() == list_end(
                o,
                replies[0],
                replies.skip(1),
            )
            &&& run.last() is Done ==> (wpa::checked(replies[0]) matches Ok(output) && run
                == seq![ScanStep::Run(list_args())] + describe_steps(
                peer::peer_addresses(output),
            ).push(run.last()) && replies.len() > peer::peer_addresses(output).len())
        }),
{
    let (s, step) = step_to_list();
    let run = scan_run(o, (s, step), replies);
    if replies.len() > 0 {
        let next = step_after_reply(o, s, replies[0]);
        let rest = scan_run(o, next, replies.skip(1));
        assert(run == seq![step] + rest);
        lemma_run_not_empty(o, next, replies.skip(1));
        assert(run.last() == rest.last());
        if let Ok(output) = wpa::checked(replies[0]) {
            let addresses = peer::peer_addresses(output);
            lemma_describing(o, addresses, Seq::empty(), replies.skip(1));
            if let Ok(list) = described(addresses, replies.skip(1)) {
                assert(Seq::<PeerModel>::empty() + selected(o, list) =~= selected(o, list));
            }
        }
    }
}

/// How a scan goes from the search on.
proof fn lemma_finding(o: ScanOptions, replies: Seq<Reply>)
    ensures
        ({
            let run = scan_run(o, step_after_flushing(o), replies);
            let n = list_at(o) - find_at(o);
            let later = scan_run(o, step_to_list(), replies.skip(n));
            let fails = o.timeout != 0 && wpa::checked(replies[0]) is Err;
            &&& replies.len() >= n && !fails ==> run == find_steps(o) + later
            &&& replies.len() > 0 && fails ==> run.last() == ScanStep::Fail(
                wpa::checked(replies[0])->Err_0,
            )
            &&& replies.len() < n && !(replies.len() > 0 && fails) ==> !is_end(run.last())
        }),
{
    let run = scan_run(o, step_after_flushing(o), replies);
    if o.timeout == 0 {
        assert(replies.skip(0) =~= replies);
        assert(find_steps(o) + run =~= run);
    } else if replies.len() > 0 {
        let (s, step) = step_after_flushing(o);
        let next = step_after_reply(o, s, replies[0]);
        let rest = replies.skip(1);
        assert(run == seq![step] + scan_run(o, next, rest));
        if wpa::checked(replies[0]) is Ok {
            let sleeping = (early(ScanPhase::Sleeping), ScanStep::Sleep(o.timeout as nat));
            let stopping = step_after_sleep();
            let from_stop = scan_run(o, stopping, rest);
            assert(next == sleeping);
            assert(scan_run(o, sleeping, rest) == seq![sleeping.1] + from_stop);
            if rest.len() > 0 {
                assert(step_after_reply(o, stopping.0, rest[0]) == step_to_list());
                assert(rest.skip(1) =~= replies.skip(2));
                let later = scan_run(o, step_to_list(), replies.skip(2));
                assert(from_stop == seq![stopping.1] + later);
                assert(run =~= find_steps(o) + later);
            } else {
                assert(from_stop == seq![stopping.1]);
                assert(run.last() == stopping.1);
            }
        }
    }
}

/// How a scan goes from the flush on.
proof fn lemma_flushing(o: ScanOptions, replies: Seq<Reply>)
    ensures
        ({
            let run = scan_run(o, step_after_advertising(o), replies);
            let n = find_at(o) - flush_at(o);
            let later = scan_run(o, step_after_flushing(o), replies.skip(n));
            let fails = o.flush && wpa::checked(replies[0]) is Err;
            &&& replies.len() >= n && !fails ==> run == flush_steps(o) + later
            &&& replies.len() > 0 && fails ==> run.last() == ScanStep::Fail(
                wpa::checked(replies[0])->Err_0,
            )
            &&& replies.len() < n ==> !is_end(run.last())
        }),
{
    let run = scan_run(o, step_after_advertising(o), replies);
    if !o.flush {
        assert(replies.skip(0) =~= replies);
        assert(flush_steps(o) + run =~= run);
    } else if replies.len() > 0 {
        let (s, step) = step_after_advertising(o);
        let next = step_after_reply(o, s, replies[0]);
        assert(run == seq![step] + scan_run(o, next, replies.skip(1)));
    }
}

/// How a scan goes from its start on.
proof fn lemma_advertising(o: ScanOptions, replies: Seq<Reply>)
    ensures
        ({
            let run = scan_run(o, first_step(o), replies);
            let n = flush_at(o);
            let later = scan_run(o, step_after_advertising(o), replies.skip(n));
            let fails = !o.no_wfd && wpa::advertised(replies[0]) is Err;
            &&& replies.len() >= n && !fails ==> run == advertise_steps(o) + later
            &&& replies.len() > 0 && fails ==> run.last() == ScanStep::Fail(
                wpa::advertised(replies[0])->Err_0,
            )
            &&& replies.len() < n ==> !is_end(run.last())
        }),
{
    let run = scan_run(o, first_step(o), replies);
    if o.no_wfd {
        assert(replies.skip(0) =~= replies);
        assert(advertise_steps(o) + run =~= run);
    } else if replies.len() > 0 {
        let (s, step) = first_step(o);
        let next = step_after_reply(o, s, replies[0]);
        assert(run == seq![step] + scan_run(o, next, replies.skip(1)));
    }
}

/// How a scan goes up to the listing, and on from there.
proof fn lemma_scan(o: ScanOptions, replies: Seq<Reply>)
    ensures
        ({
            let run = scan_run(o, first_step(o), replies);
            let later = scan_run(o, step_to_list(), replies.skip(list_at(o)));
            let stops = (!o.no_wfd && wpa::advertised(replies[0]) is Err) || (o.flush
                && wpa::checked(replies[flush_at(o)]) is Err) || (o.timeout != 0 && wpa::checked(
                replies[find_at(o)],
            ) is Err);
            &&& replies.len() >= list_at(o) && !stops ==> run == advertise_steps(o) + flush_steps(o)
                + find_steps(o) + later
            &&& replies.len() >= list_at(o) && stops ==> is_end(run.last())
            &&& stops && is_end(run.last()) ==> run.last() == scan_end(o, replies)
                && run.last() is Fail
            &&& replies.len() < list_at(o) && !stops ==> !is_end(run.last())
        }),
{
    let run = scan_run(o, first_step(o), replies);
    let r1 = replies.skip(flush_at(o));
    let r2 = r1.skip(find_at(o) - flush_at(o));
    let r3 = r2.skip(list_at(o) - find_at(o));
    lemma_advertising(o, replies);
    if replies.len() >= flush_at(o) {
        lemma_flushing(o, r1);
        let run1 = scan_run(o, step_after_advertising(o), r1);
        lemma_run_not_empty(o, step_after_advertising(o), r1);
        if r1.len() >= find_at(o) - flush_at(o) {
            lemma_finding(o, r2);
            let run2 = scan_run(o, step_after_flushing(o), r2);
            lemma_run_not_empty(o, step_after_flushing(o), r2);
            assert(r2 =~= replies.skip(find_at(o)));
            if r2.len() >= list_at(o) - find_at(o) {
                assert(r3 =~= replies.skip(list_at(o)));
                lemma_run_not_empty(o, step_to_list(), r3);
            }
        }
    }
}

/// A scan that comes to an end ends with the listing of the peers that were
/// discovered, described and selected, or with the first error among the
/// replies that matter. With a reply to each of its commands it comes to its
/// end.
pub proof fn law_scan_end(o: ScanOptions, replies: Seq<Reply>)
    ensures
        ({
            let end = scan_run(o, first_step(o), replies).last();
            &&& is_end(end) ==> end == scan_end(o, replies)
            &&& replies.len() > list_at(o) && describes_all(
                replies[list_at(o)],
                (replies.len() - list_at(o) - 1) as nat,
            ) ==> is_end(end)
        }),
{
    let later = replies.skip(list_at(o));
    lemma_scan(o, replies);
    lemma_listing(o, later);
    lemma_run_not_empty(o, step_to_list(), later);
    if replies.len() > list_at(o) {
        assert(later.skip(1) =~= replies.skip(list_at(o) + 1));
    }
}

/// A scan that ends well advertises the device unless told not to, forgets the
/// known peers if told to, looks for peers for the given time if it is not
/// zero, lists them and has each of them described, in this order.
pub proof fn law_scan_steps(o: ScanOptions, replies: Seq<Reply>)
    requires
        scan_run(o, first_step(o), replies).last() is Done,
    ensures
        wpa::checked(replies[list_at(o)]) matches Ok(output) && scan_run(o, first_step(o), replies)
            == scan_steps(o, output).push(scan_end(o, replies)),
{
    let run = scan_run(o, first_step(o), replies);
    let later = replies.skip(list_at(o));
    lemma_scan(o, replies);
    lemma_listing(o, later);
    lemma_run_not_empty(o, step_to_list(), later);
    law_scan_end(o, replies);
    let output = wpa::checked(replies[list_at(o)])->Ok_0;
    assert(run =~= scan_steps(o, output).push(run.last()));
}

/// With only Wi-Fi Display peers asked for, a scan lists no others.
pub proof fn law_only_miracast_peers(o: ScanOptions, replies: Seq<Reply>)
    requires
        o.miracast_only,
    ensures
        scan_run(o, first_step(o), replies).last() matches ScanStep::Done(list) ==> forall|i: int|
            0 <= i < list.len() ==> (#[trigger] list[i]).is_miracast,
{
    law_scan_end(o, replies);
    if let ScanStep::Done(list) = scan_run(o, first_step(o), replies).last() {
        let output = wpa::checked(replies[list_at(o)])->Ok_0;
        let all = described(
            peer::peer_addresses(output),
            replies.skip(list_at(o) + 1),
        )->Ok_0;
        let kept = all.filter(miracast_test());
        assert forall|i: int| 0 <= i < list.len() implies (#[trigger] list[i]).is_miracast by {
            peer::lemma_listing_items(kept, i);
            let k = choose|k: int| 0 <= k < kept.len() && kept[k] == list[i];
            all.lemma_filter_pred(miracast_test(), k);
        }
    }
}

/// Whether a step starts a search of this many seconds: the command is
/// `p2p_find` and nothing but the number.
pub open spec fn is_search(step: ScanStep, seconds: nat) -> bool {
    step matches ScanStep::Run(args) && args.len() == 2 && args[0] == "p2p_find"@
        && number::number(args[1], u64::MAX as nat) == Some(seconds)
}

/// A wait follows a search, and a search comes before the wait.
proof fn lemma_run_waits(o: ScanOptions, at: (ScanState, ScanStep), replies: Seq<Reply>)
    requires
        at.0.phase == ScanPhase::Finding ==> is_search(at.1, o.timeout as nat),
        at.0.phase == ScanPhase::Sleeping ==> at.1 == ScanStep::Sleep(o.timeout as nat),
        at.1 is Sleep ==> at.0.phase == ScanPhase::Sleeping,
    ensures
        ({
            let run = scan_run(o, at, replies);
            &&& run.len() > 0 && run[0] == at.1
            &&& forall|i: int|
                1 <= i < run.len() && #[trigger] run[i] is Sleep ==> run[i] == ScanStep::Sleep(
                    o.timeout as nat,
                ) && is_search(run[i - 1], o.timeout as nat)
        }),
    decreases steps_left(at.0.phase), at.0.waiting.len(),
{
    number::law_decimal_is_read_back(o.timeout as nat, u64::MAX as nat);
    assert(is_search(ScanStep::Run(find_args(o)), o.timeout as nat));
    let (s, step) = at;
    match step {
        ScanStep::Run(_) => if replies.len() > 0 && wants_reply(s) && (s.phase
            == ScanPhase::Describing ==> s.waiting.len() > 0) {
            lemma_run_waits(o, step_after_reply(o, s, replies[0]), replies.skip(1));
        },
        ScanStep::Sleep(_) => {
            lemma_run_waits(o, step_after_sleep(), replies);
        },
        _ => {},
    }
}

/// Whatever the replies are, each wait of a scan is as long as the scan is told
/// to look for peers, and right before it comes the command to look for them,
/// with the number of seconds of the wait. A scan that is not to look for peers
/// does not wait.
pub proof fn law_search_is_as_long_as_the_wait(o: ScanOptions, replies: Seq<Reply>)
    ensures
        ({
            let run = scan_run(o, first_step(o), replies);
            &&& forall|i: int|
                0 <= i < run.len() && #[trigger] run[i] is Sleep ==> i > 0 && run[i]
                    == ScanStep::Sleep(o.timeout as nat) && is_search(run[i - 1], o.timeout as nat)
            &&& o.timeout == 0 ==> forall|i: int|
                0 <= i < run.len() ==> !(#[trigger] run[i] is Sleep)
        }),
{
    number::law_decimal_is_read_back(o.timeout as nat, u64::MAX as nat);
    assert(is_search(ScanStep::Run(find_args(o)), o.timeout as nat));
    lemma_run_waits(o, first_step(o), replies);
    if o.timeout == 0 {
        lemma_run_without_wait(o, first_step(o), replies);
    }
}

/// Without time to look for peers there is no wait.
proof fn lemma_run_without_wait(o: ScanOptions, at: (ScanState, ScanStep), replies: Seq<Reply>)
    requires
        o.timeout == 0,
        at.0.phase != ScanPhase::Finding,
        !(at.1 is Sleep),
    ensures
        forall|i: int|
            0 <= i < scan_run(o, at, replies).len() ==> !(#[trigger] scan_run(
                o,
                at,
                replies,
            )[i] is Sleep),
    decreases steps_left(at.0.phase), at.0.waiting.len(),
{
    let (s, step) = at;
    if step is Run && replies.len() > 0 && wants_reply(s) && (s.phase == ScanPhase::Describing
        ==> s.waiting.len() > 0) {
        lemma_run_without_wait(o, step_after_reply(o, s, replies[0]), replies.skip(1));
    }
}

/// The steps of a scan that ends well, one by one. The first two stand there
/// only if the scan is told so, and the search only if it has some time.
pub proof fn law_scan_commands(o: ScanOptions, replies: Seq<Reply>, a: int, f: int, l: int)
    requires
        scan_run(o, first_step(o), replies).last() is Done,
        a == (if o.no_wfd {
            0int
        } else {
            1
        }),
        f == (if o.flush {
            a + 1
        } else {
            a
        }),
        l == (if o.timeout != 0 {
            f + 3
        } else {
            f
        }),
    ensures
        ({
            let run = scan_run(o, first_step(o), replies);
            let listing = if o.timeout != 0 {
                replies[l - 1]
            } else {
                replies[l]
            };
            &&& o.flush ==> run[a] == ScanStep::Run(seq!["p2p_flush"@])
            &&& o.timeout != 0 ==> is_search(run[f], o.timeout as nat) && run[f + 1]
                == ScanStep::Sleep(o.timeout as nat) && run[f + 2] == ScanStep::Run(
                seq!["p2p_stop_find"@],
            )
            &&& run[l] == ScanStep::Run(seq!["p2p_peers"@, "discovered"@])
            &&& wpa::checked(listing) is Ok
            &&& ({
                let addresses = peer::peer_addresses(wpa::checked(listing)->Ok_0);
                &&& run.len() == l + addresses.len() + 2
                &&& forall|k: int|
                    0 <= k < addresses.len() ==> #[trigger] run[l + 1 + k] == ScanStep::Run(
                        seq!["p2p_peer"@, addresses[k]],
                    )
            })
        }),
{
    law_scan_steps(o, replies);
    law_search_is_as_long_as_the_wait(o, replies);
    number::law_decimal_is_read_back(o.timeout as nat, u64::MAX as nat);
    let output = wpa::checked(replies[list_at(o)])->Ok_0;
    let run = scan_run(o, first_step(o), replies);
    let addresses = peer::peer_addresses(output);
    assert(l == (advertise_steps(o) + flush_steps(o) + find_steps(o)).len());
    assert forall|k: int| 0 <= k < addresses.len() implies #[trigger] run[l + 1 + k]
        == ScanStep::Run(seq!["p2p_peer"@, addresses[k]]) by {
        assert(run[l + 1 + k] == describe_steps(addresses)[k]);
    }
}

/// A scan describes the peers one by one.
proof fn lemma_described(addresses: Seq<Seq<char>>, details: Seq<Reply>)
    requires
        details.len() >= addresses.len(),
        described(addresses, details) is Ok,
    ensures
        ({
            let list = described(addresses, details)->Ok_0;
            &&& list.len() == addresses.len()
            &&& forall|k: int|
                0 <= k < addresses.len() ==> wpa::checked(details[k]) is Ok && #[trigger] list[k]
                    == peer::peer_of(addresses[k], wpa::checked(details[k])->Ok_0)
        }),
    decreases addresses.len(),
{
    if addresses.len() > 0 {
        let others = addresses.drop_first();
        let rest = details.skip(1);
        lemma_described(others, rest);
        let list = described(addresses, details)->Ok_0;
        let tail = described(others, rest)->Ok_0;
        assert forall|k: int| 0 <= k < addresses.len() implies wpa::checked(details[k]) is Ok
            && #[trigger] list[k] == peer::peer_of(
            addresses[k],
            wpa::checked(details[k])->Ok_0,
        ) by {
            if k > 0 {
                assert(list[k] == tail[k - 1]);
                assert(others[k - 1] == addresses[k]);
                assert(rest[k - 1] == details[k]);
            }
        }
    }
}

/// A scan that ends well lists each peer that was discovered, as it was
/// described, unless it is asked for Wi-Fi Display peers and this is none. It
/// lists nothing else.
pub proof fn law_scan_lists_what_was_described(
    o: ScanOptions,
    replies: Seq<Reply>,
    at: int,
    k: int,
)
    requires
        scan_run(o, first_step(o), replies).last() is Done,
        at == (if o.no_wfd {
            0int
        } else {
            1
        }) + (if o.flush {
            1int
        } else {
            0
        }) + (if o.timeout != 0 {
            2int
        } else {
            0
        }),
    ensures
        ({
            let listed = scan_run(o, first_step(o), replies).last()->Done_0;
            let addresses = peer::peer_addresses(wpa::checked(replies[at])->Ok_0);
            let p = peer::peer_of(addresses[k], wpa::checked(replies[at + 1 + k])->Ok_0);
            &&& 0 <= k < addresses.len() && (p.is_miracast || !o.miracast_only)
                ==> listed.contains(p)
            &&& listed.len() <= addresses.len()
            &&& !o.miracast_only ==> listed.len() == addresses.len()
            &&& 0 <= k < listed.len() ==> exists|j: int|
                0 <= j < addresses.len() && listed[k] == peer::peer_of(
                    #[trigger] addresses[j],
                    wpa::checked(replies[at + 1 + j])->Ok_0,
                )
        }),
{
    law_scan_end(o, replies);
    lemma_scan(o, replies);
    lemma_listing(o, replies.skip(at));
    lemma_run_not_empty(o, step_to_list(), replies.skip(at));
    let listed = scan_run(o, first_step(o), replies).last()->Done_0;
    let addresses = peer::peer_addresses(wpa::checked(replies[at])->Ok_0);
    let details = replies.skip(at + 1);
    assert(replies.skip(at)[0] == replies[at]);
    assert(details.len() >= addresses.len());
    let all = described(addresses, details)->Ok_0;
    lemma_described(addresses, details);
    assert(listed == peer::listing(selected(o, all)));
    lemma_selected_and_listed(o, all);
    if 0 <= k < addresses.len() {
        assert(details[k] == replies[at + 1 + k]);
        assert(all.contains(all[k]));
    }
    if 0 <= k < listed.len() {
        assert(listed.contains(listed[k]));
        let j = choose|j: int| 0 <= j < all.len() && all[j] == listed[k];
        assert(details[j] == replies[at + 1 + j]);
        assert(all[j] == peer::peer_of(addresses[j], wpa::checked(details[j])->Ok_0));
    }
}

/// What is selected and listed of some peers.
proof fn lemma_selected_and_listed(o: ScanOptions, all: Seq<PeerModel>)
    ensures
        ({
            let listed = peer::listing(selected(o, all));
            &&& listed.len() <= all.len()
            &&& !o.miracast_only ==> listed.len() == all.len()
            &&& forall|p: PeerModel| #[trigger]
                listed.contains(p) <==> all.contains(p) && (p.is_miracast || !o.miracast_only)
        }),
{
    broadcast use vstd::seq_lib::group_to_multiset_ensures;

    let kept = selected(o, all);
    let listed = peer::listing(kept);
    peer::law_listing_is_complete(kept);
    all.lemma_filter_len(miracast_test());
    assert forall|p: PeerModel| #[trigger] listed.contains(p) <==> all.contains(p) && (p.is_miracast
        || !o.miracast_only) by {
        assert(listed.contains(p) <==> listed.to_multiset().count(p) > 0);
        assert(kept.contains(p) <==> kept.to_multiset().count(p) > 0);
        if o.miracast_only {
            if kept.contains(p) {
                let m = choose|m: int| 0 <= m < kept.len() && kept[m] == p;
                all.lemma_filter_pred(miracast_test(), m);
                all.lemma_filter_contains_rev(miracast_test(), p);
            }
            if all.contains(p) && p.is_miracast {
                let m = choose|m: int| 0 <= m < all.len() && all[m] == p;
                all.lemma_filter_contains(miracast_test(), m);
            }
        }
    }
}

/// What follows each step of a scan. Whatever came of ending the search does
/// not matter; any other command that fails ends the scan. The peers that the
/// listing names are described one after the other, in its order, and one that
/// was described is kept unless it is left out.
pub proof fn law_scan_goes_on(o: ScanOptions, s: ScanState, reply: Reply)
    ensures
        s.phase == ScanPhase::Stopping ==> step_after_reply(o, s, reply).1 == ScanStep::Run(
            seq!["p2p_peers"@, "discovered"@],
        ),
        s.phase == ScanPhase::Flushing || s.phase == ScanPhase::Finding || s.phase
            == ScanPhase::Listing || s.phase == ScanPhase::Describing ==> (step_after_reply(
            o,
            s,
            reply,
        ).1 is Fail <==> !(reply is Ok && !wpa::is_failure(reply->Ok_0))),
        s.phase == ScanPhase::Listing && reply is Ok && !wpa::is_failure(reply->Ok_0) ==> {
            let (next, step) = step_after_reply(o, s, reply);
            let addresses = peer::peer_addresses(reply->Ok_0);
            &&& next.found.len() == 0
            &&& addresses.len() > 0 ==> next.waiting == addresses && step == ScanStep::Run(
                seq!["p2p_peer"@, addresses[0]],
            )
            &&& addresses.len() == 0 ==> (step matches ScanStep::Done(list) && list.len() == 0)
        },
        s.phase == ScanPhase::Describing && s.waiting.len() > 1 && reply is Ok && !wpa::is_failure(
            reply->Ok_0,
        ) ==> {
            let (next, step) = step_after_reply(o, s, reply);
            let p = peer::peer_of(s.waiting[0], reply->Ok_0);
            &&& next.waiting == s.waiting.skip(1)
            &&& step == ScanStep::Run(seq!["p2p_peer"@, s.waiting[1]])
            &&& next.found == (if p.is_miracast || !o.miracast_only {
                s.found.push(p)
            } else {
                s.found
            })
        },
{
    assert(s.waiting.drop_first() =~= s.waiting.skip(1));
}

} // verus!
