//! Reading RTSP messages.
//!
//! A message is a line, headers up to an empty line, and a body whose length a
//! header gives. [`RtspReader`] decides what to read next from what was read.
use crate::encoding::{self, from_utf8};
use crate::error::{self, ErrorCase, ErrorModel, MiracastError};
use crate::fields::{self, FieldMap};
use crate::number::{self, parse_u16, parse_usize};
use crate::rtsp::{MessageModel, RtspMessage};
use crate::text::{
    self, chars_of, split_once, starts_with, string_of, take_word, to_ascii_lowercase, trim,
};
use vstd::prelude::*;
use vstd::slice::{slice_subrange, slice_to_vec};
use vstd::utf8;

verus! {

/// `s` without the carriage returns and line feeds at its end.
pub open spec fn without_line_end(s: Seq<char>) -> Seq<char>
    decreases s.len(),
{
    if s.len() > 0 && (s.last() == '\r' || s.last() == '\n') {
        without_line_end(s.drop_last())
    } else {
        s
    }
}

/// Drops the carriage returns and line feeds at the end.
fn strip_line_end(s: &[char]) -> (r: &[char])
    ensures
        r@ == without_line_end(s@),
{
    let mut n: usize = s.len();
    assert(s@.take(n as int) == s@);
    while n > 0 && (s[n - 1] == '\r' || s[n - 1] == '\n')
        invariant
            n <= s@.len(),
            without_line_end(s@.take(n as int)) == without_line_end(s@),
        decreases n,
    {
        assert(s@.take(n as int).drop_last() == s@.take(n - 1));
        n = n - 1;
    }
    slice_subrange(s, 0, n)
}

/// The headers once another line was read: a name, a colon and a value, without
/// white space around either. Names are kept in lower case; other lines are
/// passed over.
pub open spec fn with_header_line(
    headers: Map<Seq<char>, Seq<char>>,
    line: Seq<char>,
) -> Map<Seq<char>, Seq<char>> {
    match text::split_at_first(line, ':') {
        Some((name, value)) => headers.insert(
            text::lowered(text::trimmed(name)),
            text::trimmed(value),
        ),
        None => headers,
    }
}

/// The value of a header, whatever the case of its name.
pub open spec fn header_value(headers: Map<Seq<char>, Seq<char>>, name: Seq<char>) -> Option<
    Seq<char>,
> {
    fields::lookup(headers, text::lowered(name))
}

/// The value of a header, whatever the case of its name.
pub fn header<'a>(headers: &'a FieldMap, name: &str) -> (r: Option<&'a String>)
    ensures
        match r {
            Some(v) => header_value(headers@, name@) == Some(v@),
            None => header_value(headers@, name@) is None,
        },
{
    let chars: Vec<char> = chars_of(name);
    let key: String = to_ascii_lowercase(chars.as_slice());
    headers.get(key.as_str())
}

/// The length of the body that the headers announce, zero if they do not.
pub open spec fn body_length(headers: Map<Seq<char>, Seq<char>>) -> nat {
    match header_value(headers, "content-length"@) {
        Some(value) => match number::number(value, usize::MAX as nat) {
            Some(n) => n,
            None => 0,
        },
        None => 0,
    }
}

/// Reads the length of the body that the headers announce.
fn content_length(headers: &FieldMap) -> (n: usize)
    ensures
        n == body_length(headers@),
{
    match header(headers, "content-length") {
        Some(value) => {
            let chars: Vec<char> = chars_of(value.as_str());
            match parse_usize(chars.as_slice()) {
                Some(n) => n,
                None => 0,
            }
        },
        None => 0,
    }
}

/// The error for the first line of a response that cannot be read.
pub open spec fn response_line_error(start: Seq<char>) -> ErrorModel {
    error::plain(ErrorCase::ResponseLine, "invalid RTSP response line: "@ + start)
}

/// The error for the first line of a request that cannot be read.
pub open spec fn request_line_error(start: Seq<char>) -> ErrorModel {
    error::plain(ErrorCase::RequestLine, "invalid RTSP request line: "@ + start)
}

/// The message with this first line. A response starts with the protocol and
/// has the status code as its second word; of a request the first word is the
/// method and there is a second one.
pub open spec fn message_of(
    start: Seq<char>,
    headers: Map<Seq<char>, Seq<char>>,
    body: Seq<char>,
) -> Result<MessageModel, ErrorModel> {
    if text::begins_with(start, "RTSP/"@) {
        let code = match text::nth_word(start, 1) {
            Some(word) => number::number(word, u16::MAX as nat),
            None => None,
        };
        match code {
            Some(n) => Ok(MessageModel::Response { code: n as u16, headers, body }),
            None => Err(response_line_error(start)),
        }
    } else {
        match (text::nth_word(start, 0), text::nth_word(start, 1)) {
            (Some(method), Some(_)) => Ok(MessageModel::Request { method, headers, body }),
            _ => Err(request_line_error(start)),
        }
    }
}

/// The first two words of `s`.
fn two_words(s: &[char]) -> (r: (Option<&[char]>, Option<&[char]>))
    ensures
        match r.0 {
            Some(word) => text::nth_word(s@, 0) == Some(word@),
            None => text::nth_word(s@, 0) is None,
        },
        match r.1 {
            Some(word) => text::nth_word(s@, 1) == Some(word@),
            None => text::nth_word(s@, 1) is None,
        },
{
    match take_word(s) {
        Some((first, rest)) => match take_word(rest) {
            Some((second, _)) => {
                assert(text::words(s@)[1] == text::words(rest@)[0]);
                (Some(first), Some(second))
            },
            None => (Some(first), None),
        },
        None => (None, None),
    }
}

/// Puts a message together.
fn make_message(start: &String, headers: FieldMap, body: String) -> (r: Result<
    RtspMessage,
    MiracastError,
>)
    ensures
        match r {
            Ok(m) => message_of(start@, headers@, body@) == Ok::<_, ErrorModel>(m@),
            Err(e) => message_of(start@, headers@, body@) == Err::<MessageModel, _>(e@),
        },
{
    let chars: Vec<char> = chars_of(start.as_str());
    let (first, second) = two_words(chars.as_slice());
    if starts_with(chars.as_slice(), "RTSP/") {
        let code: Option<u16> = match second {
            Some(word) => parse_u16(word),
            None => None,
        };
        match code {
            Some(code) => Ok(RtspMessage::Response { code, headers, body }),
            None => {
                let mut message: String = "invalid RTSP response line: ".to_owned();
                message.append(start.as_str());
                Err(MiracastError::new(ErrorCase::ResponseLine, message))
            },
        }
    } else {
        match (first, second) {
            (Some(method), Some(_)) => Ok(
                RtspMessage::Request { method: string_of(method), headers, body },
            ),
            _ => {
                let mut message: String = "invalid RTSP request line: ".to_owned();
                message.append(start.as_str());
                Err(MiracastError::new(ErrorCase::RequestLine, message))
            },
        }
    }
}

/// What a reader waits for.
#[derive(Clone, Copy, PartialEq, Eq, Structural, Debug)]
pub enum ReaderPhase {
    StartLine,
    HeaderLine,
    Body,
    Finished,
}

/// What a reader wants done next.
#[derive(Debug)]
pub enum ReadAction {
    /// Read up to the next line feed, or to the end of the stream.
    ReadLine,
    /// Read so many bytes.
    ReadBody(usize),
    /// There is no further message.
    Closed,
    /// This is the message.
    Message(RtspMessage),
    /// The message cannot be read.
    Fail(MiracastError),
}

/// What an action stands for.
pub enum ReadStep {
    ReadLine,
    ReadBody(nat),
    Closed,
    Message(MessageModel),
    Fail(ErrorModel),
}

impl View for ReadAction {
    type V = ReadStep;

    open spec fn view(&self) -> ReadStep {
        match self {
            ReadAction::ReadLine => ReadStep::ReadLine,
            ReadAction::ReadBody(n) => ReadStep::ReadBody(*n as nat),
            ReadAction::Closed => ReadStep::Closed,
            ReadAction::Message(m) => ReadStep::Message(m@),
            ReadAction::Fail(e) => ReadStep::Fail(e@),
        }
    }
}

/// A message that is being read.
#[derive(Debug)]
pub struct RtspReader {
    phase: ReaderPhase,
    start: String,
    headers: FieldMap,
}

/// How much of a message was read.
pub struct ReaderState {
    pub phase: ReaderPhase,
    pub start: Seq<char>,
    pub headers: Map<Seq<char>, Seq<char>>,
}

impl View for RtspReader {
    type V = ReaderState;

    closed spec fn view(&self) -> ReaderState {
        ReaderState { phase: self.phase, start: self.start@, headers: self.headers@ }
    }
}

/// A reader that has read nothing.
pub open spec fn new_reader() -> ReaderState {
    ReaderState { phase: ReaderPhase::StartLine, start: Seq::empty(), headers: Map::empty() }
}

/// The reader is done.
pub open spec fn finished(s: ReaderState) -> ReaderState {
    ReaderState { phase: ReaderPhase::Finished, ..s }
}

/// What follows a body that was decoded, or why it could not be.
pub open spec fn step_after_text(s: ReaderState, decoded: Result<Seq<char>, Seq<char>>) -> (
    ReaderState,
    ReadStep,
) {
    (
        finished(s),
        match decoded {
            Ok(body) => match message_of(s.start, s.headers, body) {
                Ok(m) => ReadStep::Message(m),
                Err(e) => ReadStep::Fail(e),
            },
            Err(cause) => ReadStep::Fail(
                error::within(
                    error::plain(ErrorCase::BodyNotUtf8, cause),
                    "RTSP body was not UTF-8"@,
                ),
            ),
        },
    )
}

/// What follows a body.
pub open spec fn step_after_body(s: ReaderState, body: Seq<u8>) -> (ReaderState, ReadStep) {
    step_after_text(s, encoding::decoded(body))
}

/// What follows a line. There is no message if the first line is empty; an
/// empty line ends the headers.
pub open spec fn step_after_line(s: ReaderState, line: Seq<char>) -> (ReaderState, ReadStep) {
    let content = without_line_end(line);
    if s.phase == ReaderPhase::StartLine {
        if content.len() == 0 {
            (finished(s), ReadStep::Closed)
        } else {
            (
                ReaderState { phase: ReaderPhase::HeaderLine, start: content, ..s },
                ReadStep::ReadLine,
            )
        }
    } else if content.len() > 0 {
        (
            ReaderState { headers: with_header_line(s.headers, content), ..s },
            ReadStep::ReadLine,
        )
    } else if body_length(s.headers) == 0 {
        step_after_body(s, Seq::empty())
    } else {
        (
            ReaderState { phase: ReaderPhase::Body, ..s },
            ReadStep::ReadBody(body_length(s.headers)),
        )
    }
}

/// What is reported to have been read when reading fails.
pub open spec fn read_context(phase: ReaderPhase) -> Seq<char> {
    match phase {
        ReaderPhase::StartLine => "error reading RTSP start line"@,
        ReaderPhase::HeaderLine => "error reading RTSP header"@,
        _ => "error reading RTSP body"@,
    }
}

/// What follows when reading fails. A peer that stays silent where a message
/// could start has nothing more to say.
pub open spec fn step_after_error(s: ReaderState, timed_out: bool, message: Seq<char>) -> (
    ReaderState,
    ReadStep,
) {
    (
        finished(s),
        if s.phase == ReaderPhase::StartLine && timed_out {
            ReadStep::Closed
        } else {
            ReadStep::Fail(
                error::within(error::plain(ErrorCase::System, message), read_context(s.phase)),
            )
        },
    )
}

impl RtspReader {
    /// Starts to read a message: the first line is wanted.
    pub fn new() -> (reader: RtspReader)
        ensures
            reader@ == new_reader(),
    {
        RtspReader {
            phase: ReaderPhase::StartLine,
            start: String::new(),
            headers: FieldMap::new(),
        }
    }

    /// Takes a line, with its line ending.
    pub fn on_line(&mut self, line: &str) -> (action: ReadAction)
        requires
            old(self)@.phase == ReaderPhase::StartLine || old(self)@.phase
                == ReaderPhase::HeaderLine,
        ensures
            (final(self)@, action@) == step_after_line(old(self)@, line@),
    {
        let chars: Vec<char> = chars_of(line);
        let content: &[char] = strip_line_end(chars.as_slice());
        if self.phase == ReaderPhase::StartLine {
            if content.len() == 0 {
                self.phase = ReaderPhase::Finished;
                return ReadAction::Closed;
            }
            self.start = string_of(content);
            self.phase = ReaderPhase::HeaderLine;
            return ReadAction::ReadLine;
        }
        if content.len() > 0 {
            if let Some((name, value)) = split_once(content, ':') {
                self.headers.insert(to_ascii_lowercase(trim(name)), string_of(trim(value)));
            }
            return ReadAction::ReadLine;
        }
        let n: usize = content_length(&self.headers);
        if n == 0 {
            assert(utf8::decode_utf8(Seq::<u8>::empty()) =~= Seq::<char>::empty());
            return self.on_text(Ok(String::new()));
        }
        self.phase = ReaderPhase::Body;
        ReadAction::ReadBody(n)
    }

    /// Takes the body.
    pub fn on_body(&mut self, body: Vec<u8>) -> (action: ReadAction)
        requires
            old(self)@.phase == ReaderPhase::Body,
        ensures
            (final(self)@, action@) == step_after_body(old(self)@, body@),
    {
        self.on_text(from_utf8(body))
    }

    /// Takes the decoded body, or why it could not be decoded.
    pub fn on_text(&mut self, decoded: Result<String, String>) -> (action: ReadAction)
        ensures
            (final(self)@, action@) == step_after_text(old(self)@, encoding::decoding(decoded)),
    {
        self.phase = ReaderPhase::Finished;
        match decoded {
            Ok(body) => match make_message(&self.start, self.headers.clone(), body) {
                Ok(m) => ReadAction::Message(m),
                Err(e) => ReadAction::Fail(e),
            },
            Err(cause) => {
                let e: MiracastError = MiracastError::new(ErrorCase::BodyNotUtf8, cause);
                ReadAction::Fail(e.context("RTSP body was not UTF-8".to_owned()))
            },
        }
    }

    /// Takes note that nothing could be read.
    pub fn on_error(&mut self, timed_out: bool, message: String) -> (action: ReadAction)
        ensures
            (final(self)@, action@) == step_after_error(old(self)@, timed_out, message@),
    {
        let phase: ReaderPhase = self.phase;
        self.phase = ReaderPhase::Finished;
        if phase == ReaderPhase::StartLine && timed_out {
            return ReadAction::Closed;
        }
        let context: &str = match phase {
            ReaderPhase::StartLine => "error reading RTSP start line",
            ReaderPhase::HeaderLine => "error reading RTSP header",
            _ => "error reading RTSP body",
        };
        let e: MiracastError = MiracastError::new(ErrorCase::System, message);
        ReadAction::Fail(e.context(context.to_owned()))
    }
}

/// The number of bytes of the first line, with its line feed.
pub open spec fn line_size(stream: Seq<u8>) -> nat
    decreases stream.len(),
{
    if stream.len() == 0 {
        0
    } else if stream[0] == 10 {
        1
    } else {
        1 + line_size(stream.drop_first())
    }
}

/// A line is within the stream.
pub proof fn lemma_line_size(stream: Seq<u8>)
    ensures
        line_size(stream) <= stream.len(),
        stream.len() > 0 ==> line_size(stream) > 0,
    decreases stream.len(),
{
    if stream.len() > 0 && stream[0] != 10 {
        lemma_line_size(stream.drop_first());
    }
}

/// How reading goes on when all that is left of a stream is `stream`: how it
/// ends and how many bytes it takes.
pub open spec fn read_on(at: (ReaderState, ReadStep), stream: Seq<u8>) -> (ReadStep, nat)
    decreases
            stream.len(),
            (match at.0.phase {
                ReaderPhase::StartLine => 3nat,
                ReaderPhase::HeaderLine => 2nat,
                ReaderPhase::Body => 1nat,
                ReaderPhase::Finished => 0nat,
            }),
    via read_on_decreases
{
    let (s, step) = at;
    match step {
        ReadStep::ReadLine => if s.phase == ReaderPhase::StartLine || s.phase
            == ReaderPhase::HeaderLine {
            let n = line_size(stream);
            let line = stream.take(n as int);
            let next = if utf8::valid_utf8(line) {
                step_after_line(s, utf8::decode_utf8(line))
            } else {
                step_after_error(s, false, "stream did not contain valid UTF-8"@)
            };
            let (end, size) = read_on(next, stream.skip(n as int));
            (end, n + size)
        } else {
            (step, 0)
        },
        ReadStep::ReadBody(n) => if s.phase == ReaderPhase::Body {
            if n <= stream.len() {
                (step_after_body(s, stream.take(n as int)).1, n)
            } else {
                (
                    step_after_error(s, false, "failed to fill whole buffer"@).1,
                    stream.len(),
                )
            }
        } else {
            (step, 0)
        },
        _ => (step, 0),
    }
}

#[via_fn]
proof fn read_on_decreases(at: (ReaderState, ReadStep), stream: Seq<u8>) {
    lemma_line_size(stream);
    if stream.len() == 0 {
        let line = stream.take(0);
        assert(utf8::decode_utf8(line).len() == 0);
    }
}

/// How the reading of a message from a stream ends, and how many bytes it
/// takes.
pub open spec fn read_message(stream: Seq<u8>) -> (ReadStep, nat) {
    read_on((new_reader(), ReadStep::ReadLine), stream)
}

/// Finds the end of the line that starts at `start`.
fn line_end(stream: &[u8], start: usize) -> (end: usize)
    requires
        start <= stream@.len(),
    ensures
        start <= end <= stream@.len(),
        end - start == line_size(stream@.skip(start as int)),
{
    let mut i: usize = start;
    while i < stream.len() && stream[i] != 10
        invariant
            start <= i <= stream@.len(),
            line_size(stream@.skip(start as int)) == (i - start) + line_size(
                stream@.skip(i as int),
            ),
        decreases stream@.len() - i,
    {
        assert(stream@.skip(i as int).drop_first() == stream@.skip(i + 1));
        i = i + 1;
    }
    if i < stream.len() {
        assert(stream@.skip(i as int)[0] == 10);
        i + 1
    } else {
        i
    }
}

/// Reads a message from a stream that holds nothing but `stream`: the message,
/// if there is one, and the number of bytes that were taken.
pub fn read_rtsp_message(stream: &[u8]) -> (r: (Result<Option<RtspMessage>, MiracastError>, usize))
    ensures
        r.1 == read_message(stream@).1,
        r.1 <= stream@.len(),
        match r.0 {
            Ok(Some(m)) => read_message(stream@).0 == ReadStep::Message(m@),
            Ok(None) => read_message(stream@).0 == ReadStep::Closed,
            Err(e) => read_message(stream@).0 == ReadStep::Fail(e@),
        },
{
    let mut reader: RtspReader = RtspReader::new();
    let mut action: ReadAction = ReadAction::ReadLine;
    let mut at: usize = 0;
    assert(stream@.skip(0) == stream@);
    loop
        invariant
            at <= stream@.len(),
            ({
                let (end, size) = read_on((reader@, action@), stream@.skip(at as int));
                read_message(stream@) == (end, at as nat + size)
            }),
            action is ReadLine ==> reader@.phase == ReaderPhase::StartLine || reader@.phase
                == ReaderPhase::HeaderLine,
            action is ReadBody ==> reader@.phase == ReaderPhase::Body,
        decreases
                stream@.len() - at,
                (match reader@.phase {
                    ReaderPhase::StartLine => 3nat,
                    ReaderPhase::HeaderLine => 2nat,
                    ReaderPhase::Body => 1nat,
                    ReaderPhase::Finished => 0nat,
                }),
    {
        let ghost rest = stream@.skip(at as int);
        match action {
            ReadAction::ReadLine => {
                let end: usize = line_end(stream, at);
                let bytes: &[u8] = slice_subrange(stream, at, end);
                proof {
                    lemma_line_size(rest);
                    assert(bytes@ == rest.take(end - at));
                    assert(rest.skip(end - at) == stream@.skip(end as int));
                    if bytes@.len() == 0 {
                        assert(utf8::decode_utf8(bytes@).len() == 0);
                    }
                }
                action = match from_utf8(slice_to_vec(bytes)) {
                    Ok(line) => reader.on_line(line.as_str()),
                    Err(_) => reader.on_error(
                        false,
                        "stream did not contain valid UTF-8".to_owned(),
                    ),
                };
                at = end;
            },
            ReadAction::ReadBody(n) => {
                if n <= stream.len() - at {
                    let bytes: &[u8] = slice_subrange(stream, at, at + n);
                    assert(bytes@ == rest.take(n as int));
                    action = reader.on_body(slice_to_vec(bytes));
                    at = at + n;
                } else {
                    action = reader.on_error(false, "failed to fill whole buffer".to_owned());
                    at = stream.len();
                }
            },
            ReadAction::Closed => {
                return (Ok(None), at);
            },
            ReadAction::Message(m) => {
                return (Ok(Some(m)), at);
            },
            ReadAction::Fail(e) => {
                return (Err(e), at);
            },
        }
    }
}

/// A header line has its name before the first colon and its value behind it.
/// White space around them does not matter, nor the case of the name when the
/// value is looked up. A line without a colon is passed over.
pub proof fn law_header_line(
    headers: Map<Seq<char>, Seq<char>>,
    name: Seq<char>,
    value: Seq<char>,
    asked: Seq<char>,
)
    requires
        forall|i: int| 0 <= i < name.len() ==> #[trigger] name[i] != ':',
    ensures
        with_header_line(headers, name) == headers,
        text::lowered(asked) == text::lowered(text::trimmed(name)) ==> header_value(
            with_header_line(headers, name.push(':') + value),
            asked,
        ) == Some(text::trimmed(value)),
        text::lowered(asked) != text::lowered(text::trimmed(name)) ==> header_value(
            with_header_line(headers, name.push(':') + value),
            asked,
        ) == header_value(headers, asked),
{
    text::law_split_at_first(name, ':', value);
}

/// The length of the body is the number in the header `Content-Length`. Without
/// the header, or if it has no such number, there is no body.
pub proof fn law_body_length(headers: Map<Seq<char>, Seq<char>>, value: Seq<char>)
    ensures
        header_value(headers, "content-length"@) is None ==> body_length(headers) == 0,
        header_value(headers, "content-length"@) == Some(value) && number::number(
            value,
            usize::MAX as nat,
        ) is Some ==> number::number(value, usize::MAX as nat) == Some(body_length(headers)),
        header_value(headers, "content-length"@) == Some(value) && number::number(
            value,
            usize::MAX as nat,
        ) is None ==> body_length(headers) == 0,
{
}

/// A message whose first line starts with the protocol is a response, with the
/// second word as its code. Any other one is a request, with the first word as
/// its method. Either keeps its headers and its body. The first line has to
/// have the words.
pub proof fn law_first_line(
    start: Seq<char>,
    headers: Map<Seq<char>, Seq<char>>,
    body: Seq<char>,
)
    ensures
        ({
            let words = text::words(start);
            let response = start.len() >= 5 && start[0] == 'R' && start[1] == 'T' && start[2] == 'S'
                && start[3] == 'P' && start[4] == '/';
            let coded = words.len() >= 2 && number::number(words[1], 65535) is Some;
            let m = message_of(start, headers, body);
            &&& response ==> (m is Ok <==> coded)
            &&& response && coded ==> (m->Ok_0 matches MessageModel::Response {
                code,
                headers: h,
                body: b,
            } && Some(code as nat) == number::number(words[1], 65535) && h == headers && b == body)
            &&& !response ==> (m is Ok <==> words.len() >= 2)
            &&& !response && words.len() >= 2 ==> (m->Ok_0 matches MessageModel::Request {
                method,
                headers: h,
                body: b,
            } && method == words[0] && h == headers && b == body)
            &&& m matches Err(e) ==> e.contexts.len() == 0 && e.case == (if response {
                ErrorCase::ResponseLine
            } else {
                ErrorCase::RequestLine
            }) && e.message == (if response {
                "invalid RTSP response line: "@
            } else {
                "invalid RTSP request line: "@
            }) + start
        }),
{
    reveal_strlit("RTSP/");
    let p = "RTSP/"@;
    if start.len() >= 5 {
        let front = start.take(5);
        if start[0] == 'R' && start[1] == 'T' && start[2] == 'S' && start[3] == 'P' && start[4]
            == '/' {
            assert(front =~= p);
        } else if front == p {
            assert(front[0] == p[0] && front[1] == p[1] && front[2] == p[2] && front[3] == p[3]
                && front[4] == p[4]);
        }
    }
}

/// Of a line its end is dropped: the carriage returns and line feeds behind the
/// last other character, and nothing else.
pub proof fn law_line_end(content: Seq<char>, end: Seq<char>)
    requires
        content.len() > 0 ==> content.last() != '\r' && content.last() != '\n',
        forall|i: int| 0 <= i < end.len() ==> #[trigger] end[i] == '\r' || end[i] == '\n',
    ensures
        without_line_end(content + end) == content,
    decreases end.len(),
{
    if end.len() == 0 {
        assert(content + end =~= content);
    } else {
        let front = end.drop_last();
        assert((content + end).last() == end.last());
        assert(end[end.len() - 1] == end.last());
        assert((content + end).drop_last() =~= content + front);
        law_line_end(content, front);
    }
}

/// A line goes up to its line feed, or to the end of the stream.
pub proof fn law_line_size(line: Seq<u8>, rest: Seq<u8>)
    requires
        forall|i: int| 0 <= i < line.len() ==> #[trigger] line[i] != 10,
    ensures
        line_size(line) == line.len(),
        line_size(line.push(10) + rest) == line.len() + 1,
    decreases line.len(),
{
    let s = line.push(10) + rest;
    if line.len() > 0 {
        let tail = line.drop_first();
        assert forall|i: int| 0 <= i < tail.len() implies #[trigger] tail[i] != 10 by {
            assert(tail[i] == line[i + 1]);
        }
        law_line_size(tail, rest);
        assert(line[0] != 10);
        assert(s.drop_first() =~= tail.push(10) + rest);
    } else {
        assert(s[0] == 10);
    }
}

/// A failure to read is reported with its cause, unless the sink was silent
/// before the first line of a message.
pub proof fn law_reading_fails(s: ReaderState, timed_out: bool, message: Seq<char>)
    ensures
        ({
            let (next, step) = step_after_error(s, timed_out, message);
            &&& next.phase == ReaderPhase::Finished
            &&& timed_out && s.phase == ReaderPhase::StartLine ==> step == ReadStep::Closed
            &&& !timed_out || s.phase != ReaderPhase::StartLine ==> (step matches ReadStep::Fail(e)
                && e.case == ErrorCase::System && e.message == message && e.contexts.len() == 1
                && e.contexts[0] == (if s.phase == ReaderPhase::StartLine {
                "error reading RTSP start line"@
            } else if s.phase == ReaderPhase::HeaderLine {
                "error reading RTSP header"@
            } else {
                "error reading RTSP body"@
            }))
        }),
{
}

/// The lines of a message are taken one by one: the first one as it is, the
/// next ones as headers, and the empty one behind them ends the headers. Then
/// the body is wanted, if there is one.
pub proof fn law_reader_goes_line_by_line(s: ReaderState, content: Seq<char>, end: Seq<char>)
    requires
        content.len() > 0 ==> content.last() != '\r' && content.last() != '\n',
        forall|i: int| 0 <= i < end.len() ==> #[trigger] end[i] == '\r' || end[i] == '\n',
        s.phase == ReaderPhase::StartLine || s.phase == ReaderPhase::HeaderLine,
    ensures
        ({
            let (next, step) = step_after_line(s, content + end);
            if s.phase == ReaderPhase::StartLine && content.len() == 0 {
                step == ReadStep::Closed && next.phase == ReaderPhase::Finished
            } else if s.phase == ReaderPhase::StartLine {
                step == ReadStep::ReadLine && next.phase == ReaderPhase::HeaderLine && next.start
                    == content && next.headers == s.headers
            } else if content.len() > 0 {
                step == ReadStep::ReadLine && next.phase == ReaderPhase::HeaderLine && next.start
                    == s.start && next.headers == with_header_line(s.headers, content)
            } else if body_length(s.headers) > 0 {
                step == ReadStep::ReadBody(body_length(s.headers)) && next.phase
                    == ReaderPhase::Body && next.start == s.start && next.headers == s.headers
            } else {
                next.phase == ReaderPhase::Finished && (match message_of(
                    s.start,
                    s.headers,
                    Seq::empty(),
                ) {
                    Ok(m) => step == ReadStep::Message(m),
                    Err(e) => step == ReadStep::Fail(e),
                })
            }
        }),
{
    law_line_end(content, end);
    assert(utf8::decode_utf8(Seq::<u8>::empty()) =~= Seq::<char>::empty());
}

/// A body that is text completes the message; one that is not fails with the
/// cause.
pub proof fn law_body(s: ReaderState, body: Seq<char>, cause: Seq<char>)
    ensures
        step_after_text(s, Ok(body)).0.phase == ReaderPhase::Finished,
        message_of(s.start, s.headers, body) matches Ok(m) ==> step_after_text(s, Ok(body)).1
            == ReadStep::Message(m),
        message_of(s.start, s.headers, body) matches Err(e) ==> step_after_text(s, Ok(body)).1
            == ReadStep::Fail(e),
        step_after_text(s, Err(cause)).1 matches ReadStep::Fail(e) && e.case
            == ErrorCase::BodyNotUtf8 && e.message == cause && e.contexts.len() == 1
            && e.contexts[0] == "RTSP body was not UTF-8"@,
{
}

/// A body of the announced length is taken from the stream, and no more of it.
/// A stream that ends before that fails.
pub proof fn law_body_is_taken(s: ReaderState, n: nat, body: Seq<u8>, rest: Seq<u8>)
    requires
        s.phase == ReaderPhase::Body,
        body.len() == n,
        utf8::valid_utf8(body),
    ensures
        ({
            let (end, size) = read_on((s, ReadStep::ReadBody(n)), body + rest);
            &&& size == n
            &&& message_of(s.start, s.headers, utf8::decode_utf8(body)) matches Ok(m) ==> end
                == ReadStep::Message(m)
            &&& message_of(s.start, s.headers, utf8::decode_utf8(body)) matches Err(e) ==> end
                == ReadStep::Fail(e)
        }),
        n > rest.len() ==> (read_on((s, ReadStep::ReadBody(n)), rest).0 matches ReadStep::Fail(e)
            && e.case == ErrorCase::System && e.contexts.len() == 1 && e.contexts[0]
            == "error reading RTSP body"@),
{
    assert((body + rest).take(n as int) =~= body);
}

} // verus!
