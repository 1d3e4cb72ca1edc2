//! Waiting for a sink to connect.
use crate::config::{self, RtspSourceConfig};
use crate::error::{self, ErrorCase, ErrorModel, MiracastError};
use crate::number::{self, push_decimal};
use vstd::prelude::*;

verus! {

/// How long to wait before looking for a connection again, in milliseconds.
pub const ACCEPT_POLL_MILLIS: u64 = 100;

/// What came of looking for a connection.
#[derive(Debug)]
pub enum AcceptEvent {
    /// There is one.
    Connected,
    /// There is none yet, after so many whole seconds.
    Pending(u64),
    /// It failed.
    Failed(String),
}

/// What to do about it.
#[derive(Debug)]
pub enum AcceptAction {
    /// Run the session.
    Run,
    /// Wait for so many milliseconds and look again.
    Sleep(u64),
    /// Give up.
    Fail(MiracastError),
}

/// What an action stands for.
pub enum AcceptStep {
    Run,
    Sleep(nat),
    Fail(ErrorModel),
}

impl View for AcceptAction {
    type V = AcceptStep;

    open spec fn view(&self) -> AcceptStep {
        match self {
            AcceptAction::Run => AcceptStep::Run,
            AcceptAction::Sleep(millis) => AcceptStep::Sleep(*millis as nat),
            AcceptAction::Fail(e) => AcceptStep::Fail(e@),
        }
    }
}

/// What follows a look for a connection. Without a limit there is no end to the
/// wait.
pub open spec fn accept_step(limit: Option<u64>, event: AcceptEvent) -> AcceptStep {
    match event {
        AcceptEvent::Connected => AcceptStep::Run,
        AcceptEvent::Pending(waited) => if limit is Some && waited >= limit->Some_0 {
            AcceptStep::Fail(
                error::plain(
                    ErrorCase::AcceptTimedOut,
                    "timed out waiting for Miracast sink RTSP connection"@,
                ),
            )
        } else {
            AcceptStep::Sleep(ACCEPT_POLL_MILLIS as nat)
        },
        AcceptEvent::Failed(message) => AcceptStep::Fail(
            error::within(
                error::plain(ErrorCase::System, message@),
                "error accepting RTSP connection"@,
            ),
        ),
    }
}

/// Decides what follows a look for a connection.
pub fn accept(config: &RtspSourceConfig, event: AcceptEvent) -> (action: AcceptAction)
    ensures
        action@ == accept_step(config.accept_timeout, event),
{
    match event {
        AcceptEvent::Connected => AcceptAction::Run,
        AcceptEvent::Pending(waited) => {
            let expired: bool = match config.accept_timeout {
                Some(limit) => waited >= limit,
                None => false,
            };
            if expired {
                AcceptAction::Fail(
                    MiracastError::new(
                        ErrorCase::AcceptTimedOut,
                        "timed out waiting for Miracast sink RTSP connection".to_owned(),
                    ),
                )
            } else {
                AcceptAction::Sleep(ACCEPT_POLL_MILLIS)
            }
        },
        AcceptEvent::Failed(message) => {
            let e: MiracastError = MiracastError::new(ErrorCase::System, message);
            AcceptAction::Fail(e.context("error accepting RTSP connection".to_owned()))
        },
    }
}

/// Where a source listens.
pub open spec fn address_text(c: RtspSourceConfig) -> Seq<char> {
    c.bind@ + ":"@ + number::decimal(c.port as nat)
}

/// Appends where a source listens.
fn push_address(s: &mut String, config: &RtspSourceConfig)
    ensures
        final(s)@ == old(s)@ + address_text(*config),
{
    s.append(config.bind.as_str());
    s.append(":");
    push_decimal(s, config.port as u64);
    assert(s@ =~= old(s)@ + address_text(*config));
}

/// What is reported to have been done when listening fails.
pub fn bind_context(config: &RtspSourceConfig) -> (s: String)
    ensures
        s@ == "error binding RTSP listener on "@ + address_text(*config),
{
    let mut s: String = "error binding RTSP listener on ".to_owned();
    push_address(&mut s, config);
    s
}

/// What the user is told while there is no connection.
pub fn waiting_message(config: &RtspSourceConfig) -> (s: String)
    ensures
        s@ == "Waiting for Miracast sink RTSP connection on "@ + address_text(*config) + " ..."@,
{
    let mut s: String = "Waiting for Miracast sink RTSP connection on ".to_owned();
    push_address(&mut s, config);
    s.append(" ...");
    s
}

/// A limit of zero seconds lets the source wait forever. Any other one ends the
/// wait when that many seconds are over, and not before.
pub proof fn law_waiting_for_a_sink(seconds: u64, waited: u64)
    ensures
        accept_step(config::limit(seconds), AcceptEvent::Pending(waited)) is Fail <==> seconds != 0
            && waited >= seconds,
        !(accept_step(config::limit(seconds), AcceptEvent::Pending(waited)) is Run),
{
}

/// A connection is served, a failure is reported as it is, and as long as there
/// is neither the source looks again after a tenth of a second.
pub proof fn law_looking_for_a_sink(limit: Option<u64>, waited: u64, failure: String)
    ensures
        accept_step(limit, AcceptEvent::Connected) == AcceptStep::Run,
        limit is None || waited < limit->Some_0 ==> accept_step(limit, AcceptEvent::Pending(waited))
            == AcceptStep::Sleep(100),
        limit is Some && waited >= limit->Some_0 ==> (accept_step(
            limit,
            AcceptEvent::Pending(waited),
        ) matches AcceptStep::Fail(e) && e.case == ErrorCase::AcceptTimedOut && e.contexts.len()
            == 0),
        accept_step(limit, AcceptEvent::Failed(failure)) matches AcceptStep::Fail(e) && e.case
            == ErrorCase::System && e.message == failure@ && e.contexts.len() == 1,
{
}

/// Where a source listens is its address and its port, which is read back.
pub proof fn law_address(c: RtspSourceConfig) -> (port: Seq<char>)
    ensures
        address_text(c) == c.bind@ + ":"@ + port,
        number::number(port, u16::MAX as nat) == Some(c.port as nat),
{
    number::law_decimal_is_read_back(c.port as nat, u16::MAX as nat);
    number::decimal(c.port as nat)
}

} // verus!
