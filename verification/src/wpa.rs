//! Driving `wpa_supplicant` through `wpa_cli`.
use crate::error::{self, ErrorCase, ErrorModel, MiracastError};
use crate::text::{self, chars_of, same_text, split_lines, starts_with, string_of, trim};
use vstd::prelude::*;

verus! {

/// The longest that one `wpa_cli` command may take, in seconds.
pub const DEFAULT_WPA_CLI_TIMEOUT: u64 = 10;

/// The control utility of `wpa_supplicant`, for one of its interfaces or for
/// the one it picks.
#[derive(Clone, Debug, PartialEq, Eq)]
pub struct WpaCli {
    pub ifname: Option<String>,
}

/// The reply to a command: what `wpa_cli` printed, or why it could not be run.
pub type Reply = Result<Seq<char>, ErrorModel>;

/// The arguments of a `wpa_cli` process: the interface, if one is chosen, then
/// the command.
pub open spec fn process_arguments(ifname: Option<Seq<char>>, args: Seq<Seq<char>>) -> Seq<
    Seq<char>,
> {
    match ifname {
        Some(name) => seq!["-i"@, name] + args,
        None => args,
    }
}

/// Each text with a space before it.
pub open spec fn spaced(list: Seq<Seq<char>>) -> Seq<char>
    decreases list.len(),
{
    if list.len() == 0 {
        Seq::empty()
    } else {
        spaced(list.drop_last()) + " "@ + list.last()
    }
}

/// What is reported to have been done when a command fails.
pub open spec fn run_context(ifname: Option<Seq<char>>, args: Seq<Seq<char>>) -> Seq<char> {
    "error running `wpa_cli"@ + spaced(process_arguments(ifname, args)) + "`"@
}

/// Whether `wpa_cli` reports a failure.
pub open spec fn is_failure(output: Seq<char>) -> bool {
    trimmed_is_failure(text::trimmed(output))
}

/// Whether an answer, without white space around it, reports a failure.
pub open spec fn trimmed_is_failure(answer: Seq<char>) -> bool {
    answer == "FAIL"@ || text::begins_with(answer, "FAIL\n"@)
}

/// The error for an answer that reports a failure.
pub open spec fn failure_error(output: Seq<char>) -> ErrorModel {
    error::plain(
        ErrorCase::WpaCliFailure,
        "wpa_cli returned failure: "@ + text::trimmed(output),
    )
}

/// What a command came to, with an answer that reports a failure as an error.
pub open spec fn checked(reply: Reply) -> Result<Seq<char>, ErrorModel> {
    match reply {
        Ok(output) => if is_failure(output) {
            Err(failure_error(output))
        } else {
            Ok(output)
        },
        Err(e) => Err(e),
    }
}

/// Copies the texts into a list of strings.
pub fn strings<const N: usize>(items: [&str; N]) -> (list: Vec<String>)
    ensures
        list@.len() == N,
        forall|i: int| 0 <= i < N ==> (#[trigger] list@[i])@ == items@[i]@,
{
    let mut list: Vec<String> = Vec::new();
    let mut i: usize = 0;
    while i < N
        invariant
            i <= N,
            list@.len() == i,
            forall|k: int| 0 <= k < i ==> (#[trigger] list@[k])@ == items@[k]@,
        decreases N - i,
    {
        list.push(items[i].to_owned());
        i = i + 1;
    }
    list
}

/// Whether `wpa_cli` reports a failure.
pub fn is_wpa_cli_failure(output: &str) -> (r: bool)
    ensures
        r == is_failure(output@),
{
    let chars: Vec<char> = chars_of(output);
    let answer: &[char] = trim(chars.as_slice());
    same_text(answer, "FAIL") || starts_with(answer, "FAIL\n")
}

impl WpaCli {
    /// The control utility for `ifname`.
    pub fn new(ifname: Option<String>) -> (cli: WpaCli)
        ensures
            cli.ifname == ifname,
    {
        WpaCli { ifname }
    }

    /// The arguments of the process that runs a command.
    pub fn arguments(&self, args: &Vec<String>) -> (list: Vec<String>)
        ensures
            text::texts(list@) == process_arguments(
                text::opt_text(self.ifname),
                text::texts(args@),
            ),
    {
        broadcast use {text::lemma_texts_push, text::lemma_texts_empty};

        let mut list: Vec<String> = Vec::new();
        if let Some(name) = &self.ifname {
            list.push("-i".to_owned());
            list.push(name.clone());
        }
        let ghost head = text::texts(list@);
        let mut i: usize = 0;
        while i < args.len()
            invariant
                i <= args@.len(),
                text::texts(list@) == head + text::texts(args@).take(i as int),
            decreases args@.len() - i,
        {
            broadcast use text::lemma_texts_push;

            list.push(args[i].clone());
            assert(text::texts(args@)[i as int] == args@[i as int]@);
            assert(text::texts(list@) =~= head + text::texts(args@).take(i + 1));
            i = i + 1;
        }
        assert(text::texts(list@) =~= head + text::texts(args@));
        assert(text::texts(list@) =~= process_arguments(
            text::opt_text(self.ifname),
            text::texts(args@),
        ));
        list
    }

    /// What a command came to: an error tells which command it was.
    pub fn run(&self, args: &Vec<String>, reply: Result<String, MiracastError>) -> (r: Result<
        String,
        MiracastError,
    >)
        ensures
            error::outcome(r) == (match reply {
                Ok(output) => Ok(output@),
                Err(e) => Err(
                    error::within(
                        e@,
                        run_context(text::opt_text(self.ifname), text::texts(args@)),
                    ),
                ),
            }),
    {
        match reply {
            Ok(output) => Ok(output),
            Err(e) => {
                let list: Vec<String> = self.arguments(args);
                let mut rendered: String = "error running `wpa_cli".to_owned();
                push_spaced(&mut rendered, &list);
                rendered.append("`");
                Err(e.context(rendered))
            },
        }
    }

    /// What a command came to: an answer that reports a failure is an error.
    pub fn run_ok(reply: Result<String, MiracastError>) -> (r: Result<String, MiracastError>)
        ensures
            error::outcome(r) == checked(error::outcome(reply)),
    {
        let output: String = match reply {
            Ok(output) => output,
            Err(e) => {
                return Err(e);
            },
        };
        if is_wpa_cli_failure(output.as_str()) {
            let chars: Vec<char> = chars_of(output.as_str());
            let mut message: String = "wpa_cli returned failure: ".to_owned();
            let answer: String = string_of(trim(chars.as_slice()));
            message.append(answer.as_str());
            return Err(MiracastError::new(ErrorCase::WpaCliFailure, message));
        }
        Ok(output)
    }
}

/// Appends each string with a space before it.
pub fn push_spaced(s: &mut String, list: &Vec<String>)
    ensures
        final(s)@ == old(s)@ + spaced(text::texts(list@)),
{
    let ghost all = text::texts(list@);
    let mut i: usize = 0;
    assert(s@ =~= old(s)@ + spaced(all.take(0)));
    while i < list.len()
        invariant
            i <= list@.len(),
            all == text::texts(list@),
            s@ == old(s)@ + spaced(all.take(i as int)),
        decreases list@.len() - i,
    {
        s.append(" ");
        s.append(list[i].as_str());
        proof {
            assert(all.take(i + 1).drop_last() == all.take(i as int));
            assert(all.take(i + 1).last() == list@[i as int]@);
            assert(s@ =~= old(s)@ + spaced(all.take(i + 1)));
        }
        i = i + 1;
    }
    assert(all.take(i as int) == all);
}

/// Whether a line of an interface listing names an interface.
pub open spec fn is_interface_line(line: Seq<char>) -> bool {
    &&& line.len() > 0
    &&& !text::begins_with(line, "Selected interface"@)
    &&& line != "Available interfaces:"@
}

/// The test for a line that names an interface.
pub open spec fn interface_test() -> spec_fn(Seq<char>) -> bool {
    |line: Seq<char>| is_interface_line(line)
}

/// The interfaces in an interface listing: its lines but for headings.
pub open spec fn interface_names(output: Seq<char>) -> Seq<Seq<char>> {
    text::trimmed_lines(output).filter(interface_test())
}

/// Reads the names out of an interface listing.
pub fn parse_interfaces(output: &str) -> (r: Vec<String>)
    ensures
        text::texts(r@) == interface_names(output@),
{
    broadcast use text::lemma_texts_empty;

    let list: Vec<String> = split_lines(output);
    let ghost all = text::texts(list@);
    let mut r: Vec<String> = Vec::new();
    let mut i: usize = 0;
    proof {
        reveal(Seq::filter);
        assert(text::texts(r@) =~= all.take(0).filter(interface_test()));
    }
    while i < list.len()
        invariant
            i <= list@.len(),
            all == text::texts(list@),
            text::texts(r@) == all.take(i as int).filter(interface_test()),
        decreases list@.len() - i,
    {
        broadcast use text::lemma_texts_push;

        proof {
            text::lemma_filter_take(all, i as int, interface_test());
            assert(all[i as int] == list@[i as int]@);
        }
        let line: Vec<char> = chars_of(list[i].as_str());
        if line.len() > 0 && !starts_with(line.as_slice(), "Selected interface") && !same_text(
            line.as_slice(),
            "Available interfaces:",
        ) {
            r.push(list[i].clone());
        }
        i = i + 1;
    }
    assert(all.take(i as int) == all);
    r
}

/// What is reported to have been done when the capabilities cannot be
/// advertised.
pub open spec fn advertise_context() -> Seq<char> {
    "error advertising Wi-Fi Display source capabilities; try --no-wfd if this wpa_supplicant build does not support WFD"@
}

/// The command that advertises the device as a Wi-Fi Display source.
pub open spec fn advertise_args(device_info: Seq<char>) -> Seq<Seq<char>> {
    seq!["wfd_subelem_set"@, "0"@, device_info]
}

/// Whether the device is advertised after the reply to that command.
pub open spec fn advertised(reply: Reply) -> Result<(), ErrorModel> {
    match checked(reply) {
        Ok(_) => Ok(()),
        Err(e) => Err(error::within(e, advertise_context())),
    }
}

/// The command that advertises the device as a Wi-Fi Display source.
pub fn advertise_command(device_info: &str) -> (args: Vec<String>)
    ensures
        text::texts(args@) == advertise_args(device_info@),
{
    let args: Vec<String> = strings(["wfd_subelem_set", "0", device_info]);
    assert(text::texts(args@) =~= advertise_args(device_info@));
    args
}

/// Takes the reply to the command that advertises the device.
pub fn configure_wfd_source(reply: Result<String, MiracastError>) -> (r: Result<(), MiracastError>)
    ensures
        match r {
            Ok(_) => advertised(error::outcome(reply)) is Ok,
            Err(e) => advertised(error::outcome(reply)) == Err::<(), ErrorModel>(e@),
        },
{
    match WpaCli::run_ok(reply) {
        Ok(_) => Ok(()),
        Err(e) => Err(
            e.context(
                "error advertising Wi-Fi Display source capabilities; try --no-wfd if this wpa_supplicant build does not support WFD".to_owned(),
            ),
        ),
    }
}

/// The interfaces that a reply lists.
pub open spec fn listed_interfaces(reply: Reply) -> Result<
    Seq<Seq<char>>,
    ErrorModel,
> {
    match checked(reply) {
        Ok(output) => Ok(interface_names(output)),
        Err(e) => Err(e),
    }
}

/// The command that lists the interfaces.
pub fn interface_command() -> (args: Vec<String>)
    ensures
        text::texts(args@) == seq!["interface"@],
{
    let args: Vec<String> = strings(["interface"]);
    assert(text::texts(args@) =~= seq!["interface"@]);
    args
}

/// Takes the reply to the command that lists the interfaces.
pub fn list_interfaces(reply: Result<String, MiracastError>) -> (r: Result<
    Vec<String>,
    MiracastError,
>)
    ensures
        match r {
            Ok(list) => listed_interfaces(error::outcome(reply)) == Ok::<_, ErrorModel>(
                text::texts(list@),
            ),
            Err(e) => listed_interfaces(error::outcome(reply)) == Err::<Seq<Seq<char>>, _>(e@),
        },
{
    match WpaCli::run_ok(reply) {
        Ok(output) => Ok(parse_interfaces(output.as_str())),
        Err(e) => Err(e),
    }
}

/// A listing is read line by line: what a further line adds does not depend on
/// the lines before it. It adds the name in it, unless it is blank or one of
/// the two headings.
pub proof fn law_interfaces_are_read_by_line(before: Seq<char>, line: Seq<char>, after: Seq<char>)
    requires
        before.len() > 0 ==> before.last() == '\n',
        forall|i: int| 0 <= i < line.len() ==> #[trigger] line[i] != '\n',
    ensures
        ({
            let name = text::trimmed(line);
            let heading = name == "Available interfaces:"@ || exists|rest: Seq<char>|
                name == #[trigger] ("Selected interface"@ + rest);
            interface_names(before + line.push('\n') + after) == interface_names(before) + (
            if name.len() == 0 || heading {
                Seq::empty()
            } else {
                seq![name]
            }) + interface_names(after)
        }),
        interface_names(Seq::empty()).len() == 0,
{
    let name = text::trimmed(line);
    let mid = line.push('\n');
    text::lemma_trimmed_lines_concat(before, mid + after);
    text::lemma_trimmed_lines_concat(mid, after);
    text::lemma_trimmed_lines_single(line);
    assert(before + mid + after =~= before + (mid + after));
    let a = text::trimmed_lines(before);
    let b = text::trimmed_lines(after);
    let keep = interface_test();
    Seq::filter_distributes_over_add(a, seq![name] + b, keep);
    text::lemma_filter_first(name, b, keep);
    let p = "Selected interface"@;
    if text::begins_with(name, p) {
        assert(name =~= p + name.skip(p.len() as int));
    }
    if exists|rest: Seq<char>| name == #[trigger] (p + rest) {
        let rest = choose|rest: Seq<char>| name == #[trigger] (p + rest);
        text::law_begins_with(p, rest, p);
    }
    assert(interface_names(before + mid + after) =~= interface_names(before) + (if keep(name) {
        seq![name]
    } else {
        Seq::empty()
    }) + interface_names(after));
    assert(text::trimmed_lines(Seq::<char>::empty()) =~= Seq::<Seq<char>>::empty());
    assert(interface_names(Seq::empty()) =~= Seq::<Seq<char>>::empty()) by {
        reveal(Seq::filter);
    }
}

/// A process gets the interface, if one is chosen, in front of the command, and
/// all of the command.
pub proof fn law_process_arguments(name: Seq<char>, args: Seq<Seq<char>>)
    ensures
        process_arguments(None, args) == args,
        process_arguments(Some(name), args).len() == args.len() + 2,
        process_arguments(Some(name), args)[0] == "-i"@,
        process_arguments(Some(name), args)[1] == name,
        process_arguments(Some(name), args).skip(2) == args,
{
    assert(process_arguments(Some(name), args).skip(2) =~= args);
}

/// An answer reports a failure if it is the word `FAIL`, or that word on a line
/// of its own with anything behind it. White space around the answer does not
/// matter.
pub proof fn law_failure(
    left: Seq<char>,
    reason: Seq<char>,
    right: Seq<char>,
    output: Seq<char>,
)
    requires
        forall|i: int| 0 <= i < left.len() ==> text::is_space(#[trigger] left[i]),
        forall|i: int| 0 <= i < right.len() ==> text::is_space(#[trigger] right[i]),
        reason.len() > 0 ==> !text::is_space(reason.last()),
    ensures
        is_failure(left + "FAIL"@ + right),
        reason.len() > 0 ==> is_failure(left + "FAIL\n"@ + reason + right),
        is_failure(output) ==> text::trimmed(output) == "FAIL"@ || exists|rest: Seq<char>|
            text::trimmed(output) == #[trigger] ("FAIL\n"@ + rest),
{
    reveal_strlit("FAIL");
    reveal_strlit("FAIL\n");
    lemma_trimmed_between(left, "FAIL"@, right);
    if reason.len() > 0 {
        let answer = "FAIL\n"@ + reason;
        lemma_trimmed_between(left, answer, right);
        assert(left + "FAIL\n"@ + reason + right =~= left + answer + right);
        text::law_begins_with("FAIL\n"@, reason, "FAIL\n"@);
    }
    if text::begins_with(text::trimmed(output), "FAIL\n"@) {
        let rest = text::trimmed(output).skip(5);
        assert(text::trimmed(output) =~= "FAIL\n"@ + rest);
    }
}

/// What is left of a text with white space around it.
pub proof fn lemma_trimmed_between(left: Seq<char>, content: Seq<char>, right: Seq<char>)
    requires
        forall|i: int| 0 <= i < left.len() ==> text::is_space(#[trigger] left[i]),
        forall|i: int| 0 <= i < right.len() ==> text::is_space(#[trigger] right[i]),
        content.len() > 0 ==> !text::is_space(content[0]) && !text::is_space(content.last()),
    ensures
        text::trimmed(left + content + right) == content,
{
    let s = left + content + right;
    let (i, j) = text::law_trimmed(s);
    let n = left.len() as int;
    let m = content.len() as int;
    if m > 0 {
        assert(s[n] == content[0]);
        assert(s[n + m - 1] == content[m - 1]);
        if i > n {
            assert(text::is_space(s[n]));
        }
        if j < n + m {
            assert(text::is_space(s[n + m - 1]));
        }
        if i < n {
            assert(s[i] == left[i]);
        }
        if j > n + m {
            assert(s[j - 1] == right[j - 1 - n - m]);
        }
        assert(s.subrange(i, j) =~= content);
    } else {
        if i < j {
            if i < n {
                assert(s[i] == left[i]);
            } else {
                assert(s[i] == right[i - n]);
            }
        }
        assert(text::trimmed(s) =~= content);
    }
}

/// What a command came to stays as it is, unless it reports a failure: then the
/// answer is told, without white space around it.
pub proof fn law_checked(output: Seq<char>, e: ErrorModel)
    ensures
        checked(Ok(output)) == Ok::<_, ErrorModel>(output) <==> !is_failure(output),
        is_failure(output) ==> (checked(Ok(output)) matches Err(e) && e.case
            == ErrorCase::WpaCliFailure && e.message == "wpa_cli returned failure: "@
            + text::trimmed(output) && e.contexts.len() == 0),
        checked(Err(e)) == Err::<Seq<char>, _>(e),
{
}

/// What is reported of a command that cannot be run is the command as one would
/// type it.
pub proof fn law_run_context(ifname: Option<Seq<char>>, args: Seq<Seq<char>>)
    ensures
        run_context(ifname, args) == "error running `"@ + text::joined(
            seq!["wpa_cli"@] + process_arguments(ifname, args),
            " "@,
        ) + "`"@,
{
    let all = process_arguments(ifname, args);
    lemma_spaced(all);
    reveal_strlit("error running `wpa_cli");
    reveal_strlit("error running `");
    reveal_strlit("wpa_cli");
    assert("error running `wpa_cli"@ =~= "error running `"@ + "wpa_cli"@);
    assert(run_context(ifname, args) =~= "error running `"@ + ("wpa_cli"@ + spaced(all)) + "`"@);
}

/// Words with a space before each are joined behind another one.
proof fn lemma_spaced(list: Seq<Seq<char>>)
    ensures
        text::joined(seq!["wpa_cli"@] + list, " "@) == "wpa_cli"@ + spaced(list),
    decreases list.len(),
{
    let all = seq!["wpa_cli"@] + list;
    if list.len() == 0 {
        assert(all =~= seq!["wpa_cli"@]);
        assert("wpa_cli"@ + spaced(list) =~= "wpa_cli"@);
    } else {
        assert(all.drop_last() =~= seq!["wpa_cli"@] + list.drop_last());
        lemma_spaced(list.drop_last());
        assert(text::joined(all, " "@) =~= "wpa_cli"@ + spaced(list));
    }
}

/// The device is advertised with the given information.
pub proof fn law_advertise_args(info: Seq<char>)
    ensures
        advertise_args(info).len() == 3,
        advertise_args(info)[0] == "wfd_subelem_set"@,
        advertise_args(info)[1] == "0"@,
        advertise_args(info)[2] == info,
{
}

/// The device is advertised exactly if the command does not fail, and a failure
/// is reported with what happened and what to try.
pub proof fn law_advertised(reply: Reply)
    ensures
        advertised(reply) is Ok <==> checked(reply) is Ok,
        checked(reply) matches Err(e) ==> (advertised(reply) matches Err(f) && f.case == e.case
            && f.message == e.message && f.contexts == e.contexts.push(
            "error advertising Wi-Fi Display source capabilities; try --no-wfd if this wpa_supplicant build does not support WFD"@,
        )),
{
}

/// A command of `wpa_cli` has ten seconds.
pub proof fn law_command_time()
    ensures
        DEFAULT_WPA_CLI_TIMEOUT == 10,
{
}

} // verus!
