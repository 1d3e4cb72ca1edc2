//! What can go wrong, and how it is reported.
use crate::text;
use vstd::prelude::*;

verus! {

/// The reasons for which a command or a session fails.
#[derive(Clone, Copy, PartialEq, Eq, Structural, Debug)]
pub enum ErrorCase {
    /// An operation of the system failed.
    System,
    /// A child process ended without success.
    CommandFailed,
    /// A child process did not end in time.
    CommandTimedOut,
    /// A child process printed something else than UTF-8.
    CommandNotUtf8,
    /// `wpa_cli` answered `FAIL`.
    WpaCliFailure,
    /// The peer is not given by a MAC address.
    PeerAddress,
    /// The device information has half a byte too much.
    DeviceInfoLength,
    /// The device information is not hexadecimal.
    DeviceInfoDigits,
    /// The group owner intent is out of range.
    GoIntent,
    /// The video format string has the wrong number of fields.
    VideoFormats,
    /// No sink connected in time.
    AcceptTimedOut,
    /// The sink answered a request with an error.
    SinkError,
    /// The sink wants to play but has not named a port.
    NoRtpPort,
    /// The first line of a response cannot be read.
    ResponseLine,
    /// The first line of a request cannot be read.
    RequestLine,
    /// The body of a message is not UTF-8.
    BodyNotUtf8,
}

/// An error: what happened, and from the inside out what was being done.
#[derive(Clone, Debug, PartialEq, Eq)]
pub struct MiracastError {
    pub case: ErrorCase,
    pub message: String,
    pub contexts: Vec<String>,
}

/// What an error says.
pub struct ErrorModel {
    pub case: ErrorCase,
    pub message: Seq<char>,
    pub contexts: Seq<Seq<char>>,
}

impl View for MiracastError {
    type V = ErrorModel;

    open spec fn view(&self) -> ErrorModel {
        ErrorModel {
            case: self.case,
            message: self.message@,
            contexts: text::texts(self.contexts@),
        }
    }
}

/// An error with a message and without any context.
pub open spec fn plain(case: ErrorCase, message: Seq<char>) -> ErrorModel {
    ErrorModel { case, message, contexts: Seq::empty() }
}

/// An error that came up while something else was being done.
pub open spec fn within(error: ErrorModel, context: Seq<char>) -> ErrorModel {
    ErrorModel { contexts: error.contexts.push(context), ..error }
}

impl MiracastError {
    /// An error with the given message.
    pub fn new(case: ErrorCase, message: String) -> (e: MiracastError)
        ensures
            e@ == plain(case, message@),
    {
        broadcast use text::lemma_texts_empty;

        MiracastError { case, message, contexts: Vec::new() }
    }

    /// The error, with what was being done.
    pub fn context(self, context: String) -> (e: MiracastError)
        ensures
            e@ == within(self@, context@),
    {
        broadcast use text::lemma_texts_push;

        let mut contexts: Vec<String> = self.contexts;
        contexts.push(context);
        MiracastError { case: self.case, message: self.message, contexts }
    }
}

/// What a fallible operation that yields text came to.
pub open spec fn outcome(r: Result<String, MiracastError>) -> Result<Seq<char>, ErrorModel> {
    match r {
        Ok(s) => Ok(s@),
        Err(e) => Err(e@),
    }
}

/// An error keeps its case and its message whatever was being done, and what
/// was being done is told from the inside out.
pub proof fn law_contexts(
    case: ErrorCase,
    message: Seq<char>,
    inner: Seq<char>,
    outer: Seq<char>,
)
    ensures
        ({
            let e = within(within(plain(case, message), inner), outer);
            e.case == case && e.message == message && e.contexts == seq![inner, outer]
        }),
        plain(case, message).contexts.len() == 0,
{
    let e = within(within(plain(case, message), inner), outer);
    assert(e.contexts =~= seq![inner, outer]);
}

} // verus!
