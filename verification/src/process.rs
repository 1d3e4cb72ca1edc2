//! Child processes that have to end in time.
use crate::encoding::{self, from_utf8, from_utf8_lossy};
use crate::error::{self, ErrorCase, ErrorModel, MiracastError};
use crate::number::{self, push_decimal};
use vstd::prelude::*;

verus! {

/// How long to wait between two looks at a child process, in milliseconds.
pub const POLL_MILLIS: u64 = 50;

/// What to do about a child process.
#[derive(Clone, Copy, PartialEq, Eq, Structural, Debug)]
pub enum PollAction {
    /// It has ended: collect its output.
    Collect,
    /// Its time is over: kill it, then collect its output.
    Kill,
    /// Look again after this many milliseconds.
    Sleep(u64),
}

/// Decides about a child process. One that has ended is never killed, even if
/// its time is over.
pub fn poll_child(ended: bool, expired: bool) -> (action: PollAction)
    ensures
        action == (if ended {
            PollAction::Collect
        } else if expired {
            PollAction::Kill
        } else {
            PollAction::Sleep(POLL_MILLIS)
        }),
{
    if ended {
        PollAction::Collect
    } else if expired {
        PollAction::Kill
    } else {
        PollAction::Sleep(POLL_MILLIS)
    }
}

/// The error of a child process that ended without success.
pub open spec fn exit_error(status: Seq<char>, stdout: Seq<char>, stderr: Seq<char>) -> ErrorModel {
    error::plain(
        ErrorCase::CommandFailed,
        "command exited with "@ + status + ": "@ + stdout + stderr,
    )
}

/// The error of a child process whose time was over.
pub open spec fn timeout_error(seconds: nat, stdout: Seq<char>, stderr: Seq<char>) -> ErrorModel {
    error::plain(
        ErrorCase::CommandTimedOut,
        "command timed out after "@ + number::decimal(seconds) + "s: "@ + stdout + stderr,
    )
}

/// What came of a child process that ended: its output if it succeeded and
/// printed UTF-8. `decoded` is its output, or why that cannot be decoded.
pub open spec fn exit_outcome(
    success: bool,
    status: Seq<char>,
    decoded: Result<Seq<char>, Seq<char>>,
    lossy_stdout: Seq<char>,
    lossy_stderr: Seq<char>,
) -> Result<Seq<char>, ErrorModel> {
    if !success {
        Err(exit_error(status, lossy_stdout, lossy_stderr))
    } else {
        match decoded {
            Ok(output) => Ok(output),
            Err(cause) => Err(
                error::within(
                    error::plain(ErrorCase::CommandNotUtf8, cause),
                    "wpa_cli returned invalid UTF-8"@,
                ),
            ),
        }
    }
}

/// Reports on a child process that ended, given its output, or why that cannot
/// be decoded, and its printed text with what is not UTF-8 replaced.
pub fn exit_report(
    success: bool,
    status: &str,
    decoded: Result<String, String>,
    lossy_stdout: &str,
    lossy_stderr: &str,
) -> (r: Result<String, MiracastError>)
    ensures
        error::outcome(r) == exit_outcome(
            success,
            status@,
            encoding::decoding(decoded),
            lossy_stdout@,
            lossy_stderr@,
        ),
{
    if !success {
        let mut message: String = "command exited with ".to_owned();
        message.append(status);
        message.append(": ");
        message.append(lossy_stdout);
        message.append(lossy_stderr);
        return Err(MiracastError::new(ErrorCase::CommandFailed, message));
    }
    match decoded {
        Ok(output) => Ok(output),
        Err(cause) => {
            let e: MiracastError = MiracastError::new(ErrorCase::CommandNotUtf8, cause);
            Err(e.context("wpa_cli returned invalid UTF-8".to_owned()))
        },
    }
}

/// Reports on a child process that ended.
pub fn child_ended(success: bool, status: &str, stdout: Vec<u8>, stderr: Vec<u8>) -> (r: Result<
    String,
    MiracastError,
>)
    ensures
        error::outcome(r) == exit_outcome(
            success,
            status@,
            encoding::decoded(stdout@),
            encoding::lossy_text(stdout@),
            encoding::lossy_text(stderr@),
        ),
{
    let out: String = from_utf8_lossy(stdout.as_slice());
    let err: String = from_utf8_lossy(stderr.as_slice());
    exit_report(success, status, from_utf8(stdout), out.as_str(), err.as_str())
}

/// The error of a child process that had to be killed, given its printed text
/// with what is not UTF-8 replaced.
pub fn timeout_report(seconds: u64, lossy_stdout: &str, lossy_stderr: &str) -> (e: MiracastError)
    ensures
        e@ == timeout_error(seconds as nat, lossy_stdout@, lossy_stderr@),
{
    let mut message: String = "command timed out after ".to_owned();
    push_decimal(&mut message, seconds);
    message.append("s: ");
    message.append(lossy_stdout);
    message.append(lossy_stderr);
    MiracastError::new(ErrorCase::CommandTimedOut, message)
}

/// The error of a child process that had to be killed after `seconds`.
pub fn child_killed(seconds: u64, stdout: Vec<u8>, stderr: Vec<u8>) -> (e: MiracastError)
    ensures
        e@ == timeout_error(
            seconds as nat,
            encoding::lossy_text(stdout@),
            encoding::lossy_text(stderr@),
        ),
{
    let out: String = from_utf8_lossy(stdout.as_slice());
    let err: String = from_utf8_lossy(stderr.as_slice());
    timeout_report(seconds, out.as_str(), err.as_str())
}

/// The output of a child process is what came of it exactly if it succeeded and
/// printed UTF-8. Otherwise all that it printed is in the message, or the cause
/// for which it cannot be decoded.
pub proof fn law_exit(
    success: bool,
    status: Seq<char>,
    decoded: Result<Seq<char>, Seq<char>>,
    lossy_stdout: Seq<char>,
    lossy_stderr: Seq<char>,
)
    ensures
        ({
            let r = exit_outcome(success, status, decoded, lossy_stdout, lossy_stderr);
            &&& r is Ok <==> success && decoded is Ok
            &&& r matches Ok(output) ==> decoded == Ok::<_, Seq<char>>(output)
            &&& !success ==> (r matches Err(e) && e.case == ErrorCase::CommandFailed && e.message
                == "command exited with "@ + status + ": "@ + lossy_stdout + lossy_stderr
                && e.contexts.len() == 0)
            &&& success && decoded is Err ==> (r matches Err(e) && e.case
                == ErrorCase::CommandNotUtf8 && e.message == decoded->Err_0 && e.contexts == seq![
                "wpa_cli returned invalid UTF-8"@,
            ])
        }),
{
    if success && decoded is Err {
        let r = exit_outcome(success, status, decoded, lossy_stdout, lossy_stderr);
        assert(r->Err_0.contexts =~= seq!["wpa_cli returned invalid UTF-8"@]);
    }
}

/// The message about a child process that was killed has the seconds that it
/// had, which are read back, and all that it printed.
pub proof fn law_timeout(seconds: u64, stdout: Seq<char>, stderr: Seq<char>) -> (digits: Seq<char>)
    ensures
        number::number(digits, u64::MAX as nat) == Some(seconds as nat),
        timeout_error(seconds as nat, stdout, stderr).message == "command timed out after "@ + digits
            + "s: "@ + stdout + stderr,
        timeout_error(seconds as nat, stdout, stderr).case == ErrorCase::CommandTimedOut,
        timeout_error(seconds as nat, stdout, stderr).contexts.len() == 0,
{
    number::law_decimal_is_read_back(seconds as nat, u64::MAX as nat);
    number::decimal(seconds as nat)
}

/// A child process is looked at every twentieth of a second.
pub proof fn law_poll_interval()
    ensures
        POLL_MILLIS == 50,
{
}

} // verus!
