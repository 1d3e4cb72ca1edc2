//! What a source learns of a sink, line by line.
use crate::config::{self, RtspSourceConfig};
use crate::dialogue;
use crate::error::ErrorCase;
use crate::exchange;
use crate::fields;
use crate::number;
use crate::order;
use crate::params;
use crate::reader::{self, ReadStep};
use crate::rtsp::{self, MessageModel};
use crate::session::{self, NextStep, OutgoingRtsp, SessionState, SourceModel};
use crate::text;
use vstd::prelude::*;
use vstd::utf8;

verus! {

/// A text that is one word.
pub open spec fn is_word(s: Seq<char>) -> bool {
    s.len() > 0 && forall|i: int| 0 <= i < s.len() ==> !text::is_space(#[trigger] s[i])
}

/// Whether a line gives a value to a parameter: without white space around it,
/// it has the name before its first colon and the value behind it, or it is the
/// name alone and the value is empty.
pub open spec fn gives(line: Seq<char>, name: Seq<char>, value: Seq<char>) -> bool {
    ||| exists|a: Seq<char>, b: Seq<char>|
        {
            &&& text::trimmed(line) == #[trigger] (a.push(':') + b)
            &&& forall|i: int| 0 <= i < a.len() ==> #[trigger] a[i] != ':'
            &&& text::trimmed(a) == name
            &&& text::trimmed(b) == value
        }
    ||| {
        &&& text::trimmed(line) == name
        &&& name.len() > 0
        &&& forall|i: int| 0 <= i < name.len() ==> #[trigger] name[i] != ':'
        &&& value.len() == 0
    }
}

/// Whether a line is about a parameter.
pub open spec fn is_about(line: Seq<char>, name: Seq<char>) -> bool {
    exists|value: Seq<char>| gives(line, name, value)
}

/// Whether the last line about a parameter gives it this value.
pub open spec fn last_given(lines: Seq<Seq<char>>, name: Seq<char>, value: Seq<char>) -> bool {
    exists|k: int|
        {
            &&& 0 <= k < lines.len()
            &&& gives(#[trigger] lines[k], name, value)
            &&& forall|j: int| k < j < lines.len() ==> !is_about(#[trigger] lines[j], name)
        }
}

/// Whether no line is about a parameter.
pub open spec fn not_given(lines: Seq<Seq<char>>, name: Seq<char>) -> bool {
    forall|j: int| 0 <= j < lines.len() ==> !is_about(#[trigger] lines[j], name)
}

/// A line is about one parameter at most.
proof fn lemma_gives(line: Seq<char>) -> (found: Option<(Seq<char>, Seq<char>)>)
    ensures
        forall|name: Seq<char>, value: Seq<char>| #[trigger]
            gives(line, name, value) <==> found == Some((name, value)),
        forall|before: Map<Seq<char>, Seq<char>>| #[trigger]
            params::with_parameter_line(before, line) == (match found {
                Some((name, value)) => before.insert(name, value),
                None => before,
            }),
{
    let content = text::trimmed(line);
    let split = text::split_at_first(content, ':');
    let found = if content.len() == 0 {
        None
    } else {
        match split {
            Some((a, b)) => Some((text::trimmed(a), text::trimmed(b))),
            None => Some((content, Seq::empty())),
        }
    };
    text::lemma_position(content, ':');
    assert forall|name: Seq<char>, value: Seq<char>| #[trigger] gives(line, name, value) implies found
        == Some((name, value)) by {
        if exists|a: Seq<char>, b: Seq<char>|
            {
                &&& content == #[trigger] (a.push(':') + b)
                &&& forall|i: int| 0 <= i < a.len() ==> #[trigger] a[i] != ':'
                &&& text::trimmed(a) == name
                &&& text::trimmed(b) == value
            } {
            let (a, b) = choose|a: Seq<char>, b: Seq<char>|
                {
                    &&& content == #[trigger] (a.push(':') + b)
                    &&& forall|i: int| 0 <= i < a.len() ==> #[trigger] a[i] != ':'
                    &&& text::trimmed(a) == name
                    &&& text::trimmed(b) == value
                };
            text::law_split_at_first(a, ':', b);
            assert(content.len() > 0);
        } else {
            text::law_split_at_first(content, ':', Seq::empty());
            assert(value =~= Seq::<char>::empty());
        }
    }
    if content.len() > 0 {
        match split {
            Some((a, b)) => {
                assert(content =~= a.push(':') + b);
                assert forall|i: int| 0 <= i < a.len() implies #[trigger] a[i] != ':' by {
                    assert(a[i] == content[i]);
                }
                assert(gives(line, text::trimmed(a), text::trimmed(b)));
            },
            None => {
                assert(gives(line, content, Seq::empty()));
            },
        }
    }
    found
}

/// The parameters of some lines are those that the lines give.
proof fn lemma_given(lines: Seq<Seq<char>>, name: Seq<char>)
    ensures
        match fields::lookup(params::parameters_of(lines), name) {
            Some(value) => last_given(lines, name, value) && !not_given(lines, name),
            None => not_given(lines, name),
        },
        forall|value: Seq<char>| #[trigger]
            last_given(lines, name, value) ==> fields::lookup(params::parameters_of(lines), name)
                == Some(value),
    decreases lines.len(),
{
    if lines.len() > 0 {
        let front = lines.drop_last();
        let line = lines.last();
        let n = front.len() as int;
        lemma_given(front, name);
        let found = lemma_gives(line);
        assert(lines[n] == line);
        assert forall|j: int| 0 <= j < n implies lines[j] == #[trigger] front[j] by {}
        assert(params::parameters_of(lines) == params::with_parameter_line(
            params::parameters_of(front),
            line,
        ));
        if found is Some && found->Some_0.0 == name {
            let value = found->Some_0.1;
            assert(gives(lines[n], name, value));
            assert(is_about(lines[n], name));
            assert(last_given(lines, name, value));
            assert forall|v: Seq<char>| #[trigger] last_given(lines, name, v) implies v == value by {
                let k = choose|k: int|
                    {
                        &&& 0 <= k < lines.len()
                        &&& gives(#[trigger] lines[k], name, v)
                        &&& forall|j: int|
                            k < j < lines.len() ==> !is_about(#[trigger] lines[j], name)
                    };
                if k < n {
                    assert(!is_about(lines[n], name));
                }
            }
        } else {
            assert(!is_about(line, name));
            assert forall|v: Seq<char>| #[trigger] last_given(front, name, v) implies last_given(
                lines,
                name,
                v,
            ) by {
                let k = choose|k: int|
                    {
                        &&& 0 <= k < front.len()
                        &&& gives(#[trigger] front[k], name, v)
                        &&& forall|j: int|
                            k < j < front.len() ==> !is_about(#[trigger] front[j], name)
                    };
                assert(gives(lines[k], name, v));
                assert forall|j: int| k < j < lines.len() implies !is_about(
                    #[trigger] lines[j],
                    name,
                ) by {
                    if j < n {
                        assert(!is_about(front[j], name));
                    }
                }
            }
            assert forall|v: Seq<char>| #[trigger] last_given(lines, name, v) implies last_given(
                front,
                name,
                v,
            ) by {
                let k = choose|k: int|
                    {
                        &&& 0 <= k < lines.len()
                        &&& gives(#[trigger] lines[k], name, v)
                        &&& forall|j: int|
                            k < j < lines.len() ==> !is_about(#[trigger] lines[j], name)
                    };
                assert(is_about(lines[k], name));
                assert(k < n);
                assert(gives(front[k], name, v));
                assert forall|j: int| k < j < front.len() implies !is_about(
                    #[trigger] front[j],
                    name,
                ) by {
                    assert(!is_about(lines[j], name));
                }
            }
            if not_given(front, name) {
                assert forall|j: int| 0 <= j < lines.len() implies !is_about(
                    #[trigger] lines[j],
                    name,
                ) by {
                    if j < n {
                        assert(!is_about(front[j], name));
                    }
                }
            }
            if not_given(lines, name) {
                assert forall|j: int| 0 <= j < front.len() implies !is_about(
                    #[trigger] front[j],
                    name,
                ) by {
                    assert(!is_about(lines[j], name));
                }
            }
        }
    }
}

/// The parameters of a body are those that its lines are about, each with the
/// value that the last line about it gives.
pub proof fn law_parameters_are_as_given(body: Seq<char>, name: Seq<char>, value: Seq<char>)
    ensures
        ({
            let lines = text::lines(body);
            let read = params::parameters_of(lines);
            &&& read.contains_key(name) <==> !not_given(lines, name)
            &&& read.contains_key(name) ==> last_given(lines, name, read[name])
            &&& last_given(lines, name, value) ==> read.contains_key(name) && read[name] == value
        }),
{
    lemma_given(text::lines(body), name);
}

/// The port among the parameters is the second word of what the last line about
/// `wfd_client_rtp_ports` gives, as a decimal number. Without such a line, such
/// a word or a number that is a port there is none.
pub proof fn law_port_is_as_given(body: Seq<char>, value: Seq<char>)
    ensures
        ({
            let lines = text::lines(body);
            let port = params::parameter_port(params::parameters_of(lines));
            &&& last_given(lines, "wfd_client_rtp_ports"@, value) ==> port == (if text::words(
                value,
            ).len() > 1 {
                number::number(text::words(value)[1], 65535)
            } else {
                None
            })
            &&& not_given(lines, "wfd_client_rtp_ports"@) ==> port is None
        }),
{
    lemma_given(text::lines(body), "wfd_client_rtp_ports"@);
}

/// The words of a value that is given with a word, a space and another word.
proof fn lemma_second_word(first: Seq<char>, word: Seq<char>, more: Seq<char>)
    requires
        is_word(first),
        is_word(word),
        more.len() > 0 ==> text::is_space(more[0]),
    ensures
        ({
            let value = text::trimmed(first + " "@ + word + more);
            text::words(value).len() > 1 && text::words(value)[1] == word
        }),
{
    reveal_strlit(" ");
    let s = first + " "@ + word + more;
    let head = first + " "@ + word;
    assert(s[0] == first[0]);
    assert(text::trimmed_start(s) == s);
    assert(head.last() == word.last());
    dialogue::lemma_trimmed_end_after(head, more);
    let end = text::trimmed_end(more);
    let value = head + end;
    assert(text::trimmed(s) == value);
    lemma_trimmed_end_is_front(more);
    assert(value =~= first.push(' ') + (word + end));
    text::law_words(first, ' ', word + end);
    if end.len() == 0 {
        assert(word + end =~= word);
        text::law_words(word, ' ', Seq::empty());
    } else {
        assert(word + end =~= word.push(end[0]) + end.drop_first());
        text::law_words(word, end[0], end.drop_first());
    }
    assert(text::words(value)[1] == text::words(word + end)[0]);
}

/// Without the white space at its end, a text is shorter at most.
proof fn lemma_trimmed_end_is_front(s: Seq<char>)
    ensures
        text::trimmed_end(s).len() <= s.len(),
        text::trimmed_end(s).len() > 0 ==> text::trimmed_end(s)[0] == s[0],
    decreases s.len(),
{
    if s.len() > 0 && text::is_space(s.last()) {
        lemma_trimmed_end_is_front(s.drop_last());
    }
}

/// What the line in the middle of a body gives, with no line about the same
/// parameter behind it.
proof fn lemma_given_in_the_middle(
    front: Seq<char>,
    name: Seq<char>,
    value: Seq<char>,
    back: Seq<char>,
)
    requires
        front.len() > 0 ==> front.last() == '\n',
        dialogue::is_parameter_name(name),
        exchange::one_line(value),
        not_given(text::lines(back), name),
    ensures
        last_given(
            text::lines(front + (name + ": "@ + value + "\r\n"@) + back),
            name,
            text::trimmed(value),
        ),
{
    reveal_strlit(": ");
    let line = name + ": "@ + value;
    let body = front + (line + "\r\n"@) + back;
    dialogue::lemma_joined_line(name, ": "@);
    dialogue::lemma_joined_line(name + ": "@, value);
    dialogue::lemma_lines_of(line, back);
    dialogue::lemma_lines_concat(front, line + "\r\n"@ + back);
    assert(body =~= front + (line + "\r\n"@ + back));
    let k = text::lines(front).len() as int;
    let lines = text::lines(body);
    assert(lines == text::lines(front) + (seq![line] + text::lines(back)));
    assert(lines[k] == line);
    let found = lemma_gives(line);
    let empty = Map::<Seq<char>, Seq<char>>::empty();
    dialogue::lemma_parameter_is_read(empty, name, value);
    let read = params::with_parameter_line(empty, line);
    assert(read.contains_key(name) && read[name] == text::trimmed(value));
    assert(found == Some((name, text::trimmed(value))));
    assert(gives(lines[k], name, text::trimmed(value)));
    assert forall|j: int| k < j < lines.len() implies !is_about(#[trigger] lines[j], name) by {
        assert(lines[j] == text::lines(back)[j - k - 1]);
    }
}

/// A sink that answers the request for its parameters names its port: whatever
/// lines stand before the one about `wfd_client_rtp_ports`, and whatever lines
/// about other parameters stand behind it, the second word of its value is the
/// port of the sink from then on. That is also the port in the parameters that
/// are set next, as the sink reads them.
pub proof fn law_source_learns_the_port(
    source: SourceModel,
    s: SessionState,
    code: u16,
    headers: Map<Seq<char>, Seq<char>>,
    cseq: Seq<char>,
    n: u32,
    front: Seq<char>,
    first: Seq<char>,
    digits: Seq<char>,
    more: Seq<char>,
    back: Seq<char>,
    p: u16,
    rest: Seq<u8>,
)
    requires
        200 <= code < 300,
        reader::header_value(headers, "cseq"@) == Some(cseq),
        number::number(cseq, u32::MAX as nat) == Some(n as nat),
        s.pending.contains_key(n),
        s.pending[n] == OutgoingRtsp::GetParameters,
        front.len() > 0 ==> front.last() == '\n',
        is_word(first),
        is_word(digits),
        number::number(digits, 65535) == Some(p as nat),
        more.len() > 0 ==> text::is_space(more[0]),
        exchange::one_line(more),
        not_given(text::lines(back), "wfd_client_rtp_ports"@),
        utf8::encode_utf8(dialogue::announcement_of(source, Some(p))).len() <= usize::MAX,
    ensures
        ({
            let body = front + ("wfd_client_rtp_ports"@ + ": "@ + (first + " "@ + digits + more)
                + "\r\n"@) + back;
            let (next, step) = session::step_after_response(source, s, code, headers, body);
            &&& next.sink_rtp_port == Some(p)
            &&& step.send matches Some(request)
            &&& reader::read_message(utf8::encode_utf8(request) + rest).0 matches ReadStep::Message(
                message,
            )
            &&& message matches MessageModel::Request { method, headers: h, body: sent }
            &&& method == "SET_PARAMETER"@
            &&& exists|value: Seq<char>|
                {
                    &&& #[trigger] last_given(text::lines(sent), "wfd_client_rtp_ports"@, value)
                    &&& text::words(value).len() > 1
                    &&& number::number(text::words(value)[1], 65535) == Some(p as nat)
                }
        }),
{
    let name = "wfd_client_rtp_ports"@;
    let value = first + " "@ + digits + more;
    reveal_strlit("wfd_client_rtp_ports");
    reveal_strlit(" ");
    assert(dialogue::is_parameter_name(name));
    lemma_word_line(first);
    lemma_word_line(digits);
    dialogue::lemma_joined_line(first, " "@);
    dialogue::lemma_joined_line(first + " "@, digits);
    dialogue::lemma_joined_line(first + " "@ + digits, more);
    lemma_given_in_the_middle(front, name, value, back);
    let body = front + (name + ": "@ + value + "\r\n"@) + back;
    law_port_is_as_given(body, text::trimmed(value));
    lemma_second_word(first, digits, more);
    let (next, step) = session::step_after_response(source, s, code, headers, body);
    assert(next.sink_rtp_port == Some(p));
    dialogue::law_source_requests_are_read(
        OutgoingRtsp::SetParameters,
        s.next_cseq,
        source,
        Some(p),
        rest,
    );
    let sent = dialogue::announcement_of(source, Some(p));
    lemma_announced_port(source, Some(p), p as nat);
}

/// A word stays on its line.
proof fn lemma_word_line(word: Seq<char>)
    requires
        is_word(word),
    ensures
        exchange::one_line(word),
{
    assert forall|i: int| 0 <= i < word.len() implies #[trigger] word[i] != '\n' by {
        assert(!text::is_space(word[i]));
    }
}

/// The port in what a source announces.
proof fn lemma_announced_port(source: SourceModel, port: Option<u16>, p: nat)
    requires
        p == params::port_or_default(port),
    ensures
        exists|value: Seq<char>|
            {
                &&& #[trigger] last_given(
                    text::lines(dialogue::announcement_of(source, port)),
                    "wfd_client_rtp_ports"@,
                    value,
                )
                &&& text::words(value).len() > 1
                &&& number::number(text::words(value)[1], 65535) == Some(p)
            },
{
    let body = dialogue::announcement_of(source, port);
    dialogue::law_announced_port_is_read_back(source.config, port, source.presentation_url);
    lemma_given(text::lines(body), "wfd_client_rtp_ports"@);
    let value = params::parameters_of(text::lines(body))["wfd_client_rtp_ports"@];
    assert(last_given(text::lines(body), "wfd_client_rtp_ports"@, value));
}

/// The names of the parameters in some lines can be listed in order.
proof fn lemma_names_are_listed(lines: Seq<Seq<char>>) -> (list: Seq<Seq<char>>)
    ensures
        fields::lists_names(params::parameters_of(lines), list),
    decreases lines.len(),
{
    if lines.len() == 0 {
        let list = Seq::<Seq<char>>::empty();
        assert(fields::lists_names(params::parameters_of(lines), list));
        list
    } else {
        let front = lines.drop_last();
        let list = lemma_names_are_listed(front);
        match lemma_gives(lines.last()) {
            Some((name, value)) => {
                assert(params::with_parameter_line(params::parameters_of(front), lines.last())
                    == params::parameters_of(front).insert(name, value));
                fields::lemma_names_with(params::parameters_of(front), list, name, value)
            },
            None => {
                assert(params::with_parameter_line(params::parameters_of(front), lines.last())
                    == params::parameters_of(front));
                list
            },
        }
    }
}

/// A line that is about a parameter has its name in it.
proof fn lemma_name_is_one_line(line: Seq<char>, name: Seq<char>)
    requires
        exchange::one_line(line),
        is_about(line, name),
    ensures
        exchange::one_line(name),
{
    let value = choose|value: Seq<char>| gives(line, name, value);
    let content = text::trimmed(line);
    let r = text::law_trimmed(line);
    assert forall|i: int| 0 <= i < content.len() implies #[trigger] content[i] != '\n' by {
        assert(content[i] == line[r.0 + i]);
    }
    if name != content {
        let (a, b) = choose|a: Seq<char>, b: Seq<char>|
            {
                &&& content == #[trigger] (a.push(':') + b)
                &&& forall|i: int| 0 <= i < a.len() ==> #[trigger] a[i] != ':'
                &&& text::trimmed(a) == name
                &&& text::trimmed(b) == value
            };
        let q = text::law_trimmed(a);
        assert forall|i: int| 0 <= i < name.len() implies #[trigger] name[i] != '\n' by {
            assert(name[i] == a[q.0 + i]);
            assert(a[q.0 + i] == content[q.0 + i]);
        }
    }
}

/// The lines of a list that is written line by line.
proof fn lemma_lines_of_joined(list: Seq<Seq<char>>)
    requires
        list.len() > 0,
        forall|k: int| 0 <= k < list.len() ==> exchange::one_line(#[trigger] list[k]),
    ensures
        text::lines(text::joined(list, "\r\n"@) + "\r\n"@) == list,
    decreases list.len(),
{
    reveal_strlit("\r\n");
    let last = list.last();
    assert(list[list.len() - 1] == last);
    dialogue::lemma_lines_of(last, Seq::empty());
    assert(last + "\r\n"@ + Seq::<char>::empty() =~= last + "\r\n"@);
    assert(text::lines(Seq::<char>::empty()) =~= Seq::<Seq<char>>::empty());
    if list.len() == 1 {
        assert(text::lines(last + "\r\n"@) =~= list);
    } else {
        let front = list.drop_last();
        assert forall|k: int| 0 <= k < front.len() implies exchange::one_line(
            #[trigger] front[k],
        ) by {
            assert(front[k] == list[k]);
        }
        lemma_lines_of_joined(front);
        let a = text::joined(front, "\r\n"@) + "\r\n"@;
        assert(a.last() == '\n');
        dialogue::lemma_lines_concat(a, last + "\r\n"@);
        assert(text::joined(list, "\r\n"@) + "\r\n"@ =~= a + (last + "\r\n"@));
        assert(text::lines(a + (last + "\r\n"@)) =~= list);
    }
}

/// A sink that sets parameters is told which ones were set: each name that a
/// line of its request is about, once, on a line of its own and in ascending
/// order. Nothing in the session changes. (Where the only name is the empty
/// one, nothing is told.)
pub proof fn law_set_parameters_are_told(
    source: SourceModel,
    s: SessionState,
    headers: Map<Seq<char>, Seq<char>>,
    body: Seq<char>,
    tag: u32,
    offset: u16,
) -> (told: Seq<char>)
    requires
        not_given(text::lines(body), Seq::empty()) || exists|name: Seq<char>|
            name.len() > 0 && !#[trigger] not_given(text::lines(body), name),
    ensures
        session::step_after_request(source, s, "SET_PARAMETER"@, headers, body, tag, offset) == (
            s,
            (session::SessionStep {
                send: Some(
                    rtsp::response_text(
                        session::request_cseq(headers),
                        seq![("Content-Type"@, "text/parameters"@)],
                        told,
                    ),
                ),
                next: NextStep::Read,
            }),
        ),
        forall|name: Seq<char>| #[trigger]
            text::lines(told).contains(name) <==> !not_given(text::lines(body), name),
        forall|i: int, j: int|
            0 <= i < j < text::lines(told).len() ==> order::precedes(
                #[trigger] text::lines(told)[i],
                #[trigger] text::lines(told)[j],
            ),
{
    dialogue::lemma_methods();
    let lines = text::lines(body);
    let m = params::parameters_of(lines);
    let list = lemma_names_are_listed(lines);
    fields::lemma_sorted_names(m, list);
    assert forall|k: int| 0 <= k < list.len() implies exchange::one_line(#[trigger] list[k]) by {
        assert(list.contains(list[k]));
        let name = list[k];
        lemma_given(lines, name);
        let j = choose|j: int| 0 <= j < lines.len() && is_about(#[trigger] lines[j], name);
        dialogue::lemma_lines_are_lines(body, j);
        lemma_name_is_one_line(lines[j], name);
    }
    let told = session::names_text(m);
    if list.len() == 0 {
        assert(text::lines(told) =~= list);
    } else {
        lemma_lines_of_joined(list);
        reveal_strlit("\r\n");
        if list.len() == 1 && list[0].len() == 0 {
            assert(list[0] =~= Seq::<char>::empty());
            assert(list.contains(Seq::<char>::empty()));
            lemma_given(lines, Seq::empty());
            let name = choose|name: Seq<char>|
                name.len() > 0 && !#[trigger] not_given(lines, name);
            lemma_given(lines, name);
            assert(list.contains(name));
        }
        assert(text::joined(list, "\r\n"@).len() > 0);
        assert(text::lines(told) =~= list);
    }
    assert forall|name: Seq<char>| #[trigger] text::lines(told).contains(name) <==> !not_given(
        lines,
        name,
    ) by {
        lemma_given(lines, name);
        assert(list.contains(name) <==> m.contains_key(name));
    }
    told
}

/// An answer repeats the number of its request as it is. A request without one
/// has the number zero.
pub proof fn law_request_number(headers: Map<Seq<char>, Seq<char>>, value: Seq<char>)
    ensures
        reader::header_value(headers, "cseq"@) == Some(value) ==> session::request_cseq(headers)
            == value,
        reader::header_value(headers, "cseq"@) is None ==> session::request_cseq(headers) == "0"@,
{
}

/// A response belongs to the open request that has its number, and to none if
/// there is no such request or the response has no number.
pub proof fn law_response_number(
    pending: Map<u32, OutgoingRtsp>,
    headers: Map<Seq<char>, Seq<char>>,
    value: Seq<char>,
    n: u32,
)
    ensures
        ({
            let answered = session::answered_request(pending, headers);
            let numbered = reader::header_value(headers, "cseq"@) == Some(value)
                && number::number(value, 0xffff_ffff) == Some(n as nat);
            &&& numbered && pending.contains_key(n) ==> answered == Some(n)
            &&& numbered && !pending.contains_key(n) ==> answered is None
            &&& reader::header_value(headers, "cseq"@) is None ==> answered is None
            &&& reader::header_value(headers, "cseq"@) == Some(value) && number::number(
                value,
                0xffff_ffff,
            ) is None ==> answered is None
        }),
{
}

/// A sink that refuses a request fails the session with its code and what it
/// said.
pub proof fn law_refusal_is_told(
    source: SourceModel,
    s: SessionState,
    code: u16,
    headers: Map<Seq<char>, Seq<char>>,
    body: Seq<char>,
) -> (digits: Seq<char>)
    requires
        code < 200 || code >= 300,
    ensures
        number::number(digits, 65535) == Some(code as nat),
        session::step_after_response(source, s, code, headers, body).1.next matches NextStep::Fail(e)
            && e.case == ErrorCase::SinkError && e.message
            == "Miracast sink returned RTSP error "@ + digits + ": "@ + body && e.contexts.len()
            == 0,
        session::step_after_response(source, s, code, headers, body).1.send is None,
        session::step_after_response(source, s, code, headers, body).0.finished,
{
    number::law_decimal_is_read_back(code as nat, 65535);
    number::decimal(code as nat)
}

/// The methods differ.
proof fn lemma_all_methods()
    ensures
        "SETUP"@ != "OPTIONS"@,
        "SETUP"@ != "GET_PARAMETER"@,
        "SETUP"@ != "SET_PARAMETER"@,
        "PLAY"@ != "OPTIONS"@,
        "PLAY"@ != "GET_PARAMETER"@,
        "PLAY"@ != "SET_PARAMETER"@,
        "PLAY"@ != "SETUP"@,
        "PAUSE"@ != "OPTIONS"@,
        "PAUSE"@ != "GET_PARAMETER"@,
        "PAUSE"@ != "SET_PARAMETER"@,
        "PAUSE"@ != "SETUP"@,
        "PAUSE"@ != "PLAY"@,
        "TEARDOWN"@ != "OPTIONS"@,
        "TEARDOWN"@ != "GET_PARAMETER"@,
        "TEARDOWN"@ != "SET_PARAMETER"@,
        "TEARDOWN"@ != "SETUP"@,
        "TEARDOWN"@ != "PLAY"@,
        "TEARDOWN"@ != "PAUSE"@,
        "GET_PARAMETER"@ != "OPTIONS"@,
        "SET_PARAMETER"@ != "OPTIONS"@,
        "GET_PARAMETER"@ != "SET_PARAMETER"@,
{
    reveal_strlit("OPTIONS");
    reveal_strlit("GET_PARAMETER");
    reveal_strlit("SET_PARAMETER");
    reveal_strlit("SETUP");
    reveal_strlit("PLAY");
    reveal_strlit("PAUSE");
    reveal_strlit("TEARDOWN");
    assert("SETUP"@.len() == 5 && "SETUP"@[0] == 'S');
    assert("PAUSE"@.len() == 5 && "PAUSE"@[0] == 'P');
    assert("PLAY"@.len() == 4);
    assert("TEARDOWN"@.len() == 8);
    assert("OPTIONS"@.len() == 7);
    assert("GET_PARAMETER"@.len() == 13 && "GET_PARAMETER"@[0] == 'G');
    assert("SET_PARAMETER"@.len() == 13 && "SET_PARAMETER"@[0] == 'S');
}

/// A setup names the port of the sink: whatever parts of the transport stand
/// before the one that starts with `client_port=`, as long as they name none,
/// and whatever follows it, its number is the port of the sink from then on.
pub proof fn law_setup_names_the_port(
    source: SourceModel,
    s: SessionState,
    headers: Map<Seq<char>, Seq<char>>,
    body: Seq<char>,
    tag: u32,
    offset: u16,
    front: Seq<char>,
    digits: Seq<char>,
    range: Seq<char>,
    back: Seq<char>,
    p: u16,
)
    requires
        params::transport_port(front) is None,
        is_word(digits),
        forall|i: int|
            0 <= i < digits.len() ==> #[trigger] digits[i] != ';' && digits[i] != '-' && digits[i]
                != ',',
        number::number(digits, 65535) == Some(p as nat),
        range.len() > 0 ==> range[0] == '-' || range[0] == ',',
        range.len() > 0 ==> !text::is_space(range.last()),
        forall|i: int| 0 <= i < range.len() ==> #[trigger] range[i] != ';',
        reader::header_value(headers, "transport"@) == Some(
            front.push(';') + (("client_port="@ + digits + range).push(';') + back),
        ),
    ensures
        session::step_after_request(
            source,
            s,
            "SETUP"@,
            headers,
            body,
            tag,
            offset,
        ).0.sink_rtp_port == Some(p),
{
    lemma_all_methods();
    assert forall|i: int| 0 <= i < digits.len() implies #[trigger] digits[i] != ';' && digits[i]
        != '-' && digits[i] != ',' && !text::is_space(digits[i]) by {}
    params::law_client_port(digits, range);
    params::law_transport_concat("client_port="@ + digits + range, back);
    params::law_transport_concat(
        front,
        ("client_port="@ + digits + range).push(';') + back,
    );
}

/// A setup without a transport that names a port leaves the port as it is.
pub proof fn law_setup_without_port(
    source: SourceModel,
    s: SessionState,
    headers: Map<Seq<char>, Seq<char>>,
    body: Seq<char>,
    tag: u32,
    offset: u16,
)
    requires
        reader::header_value(headers, "transport"@) matches Some(transport)
            ==> params::transport_port(transport) is None,
    ensures
        session::step_after_request(
            source,
            s,
            "SETUP"@,
            headers,
            body,
            tag,
            offset,
        ).0.sink_rtp_port == s.sink_rtp_port,
{
    lemma_all_methods();
}

/// The answer to a setup has the name of the session and how the media goes to
/// the sink: to its port, or to 19000 as long as that is unknown, from an even
/// port and the one after it. The name is `niri` and the eight hexadecimal
/// digits of the number that was drawn for it.
pub proof fn law_setup_answer(
    source: SourceModel,
    s: SessionState,
    headers: Map<Seq<char>, Seq<char>>,
    body: Seq<char>,
    tag: u32,
    offset: u16,
) -> (r: (Seq<char>, Seq<char>, Seq<char>))
    requires
        offset < 1000,
    ensures
        ({
            let (next, step) = session::step_after_request(
                source,
                s,
                "SETUP"@,
                headers,
                body,
                tag,
                offset,
            );
            let (client, first, second) = r;
            let port: nat = match next.sink_rtp_port {
                Some(p) => p as nat,
                None => 19000,
            };
            &&& step.next == NextStep::Read
            &&& step.send == Some(
                rtsp::response_text(
                    session::request_cseq(headers),
                    seq![
                        ("Session"@, next.session_id),
                        (
                            "Transport"@,
                            "RTP/AVP/UDP;unicast;client_port="@ + client + ";server_port="@ + first
                                + "-"@ + second,
                        ),
                    ],
                    ""@,
                ),
            )
            &&& number::number(client, 65535) == Some(port)
            &&& number::number(first, 65535) == Some((50000 + 2 * offset) as nat)
            &&& number::number(second, 65535) == Some((50001 + 2 * offset) as nat)
            &&& next.session_id == "niri"@ + number::hex_digits(tag as nat, 8)
            &&& next == (SessionState {
                session_id: next.session_id,
                sink_rtp_port: next.sink_rtp_port,
                ..s
            })
        }),
{
    lemma_all_methods();
    let next = session::step_after_request(
        source,
        s,
        "SETUP"@,
        headers,
        body,
        tag,
        offset,
    ).0;
    let port = params::port_or_default(next.sink_rtp_port);
    params::law_default_port(next.sink_rtp_port);
    number::law_decimal_is_read_back(port, 65535);
    number::law_decimal_is_read_back((50000 + 2 * offset) as nat, 65535);
    number::law_decimal_is_read_back((50001 + 2 * offset) as nat, 65535);
    (
        number::decimal(port),
        number::decimal((50000 + 2 * offset) as nat),
        number::decimal((50001 + 2 * offset) as nat),
    )
}

/// What a request changes: a setup the name of the session and the port, a
/// request to play and one to pause the media, and a teardown ends the session.
/// Other requests change nothing. All but a setup and those about parameters or
/// methods are answered with the name of the session as it is.
pub proof fn law_requests_change_little(
    source: SourceModel,
    s: SessionState,
    method: Seq<char>,
    headers: Map<Seq<char>, Seq<char>>,
    body: Seq<char>,
    tag: u32,
    offset: u16,
)
    ensures
        ({
            let (next, step) = session::step_after_request(
                source,
                s,
                method,
                headers,
                body,
                tag,
                offset,
            );
            let named = Some(
                rtsp::response_text(
                    session::request_cseq(headers),
                    seq![("Session"@, s.session_id)],
                    ""@,
                ),
            );
            &&& method == "PAUSE"@ ==> step.send == named && step.next == NextStep::StopMedia && next
                == (SessionState { media: false, ..s })
            &&& method == "TEARDOWN"@ ==> step.send == named && step.next == NextStep::Finish && next
                == (SessionState { teardown_received: true, finished: true, ..s })
            &&& method == "PLAY"@ ==> step.send == named && next.session_id == s.session_id
                && next.sink_rtp_port == s.sink_rtp_port && next.next_cseq == s.next_cseq
                && next.pending == s.pending && next.teardown_received == s.teardown_received
            &&& method != "PAUSE"@ && method != "TEARDOWN"@ && method != "PLAY"@ && method
                != "SETUP"@ ==> next == s && step.next == NextStep::Read
            &&& !dialogue::is_known_method(method) ==> step.send == Some(
                rtsp::error_text(session::request_cseq(headers), 405, "Method Not Allowed"@),
            )
        }),
{
    lemma_all_methods();
}

/// A request to play in a session that has media to start and knows the port
/// starts `wf-recorder` with its arguments for the address of the sink and that
/// port. Without the port the session fails; with media running or not wanted
/// nothing changes.
pub proof fn law_play(
    source: SourceModel,
    s: SessionState,
    headers: Map<Seq<char>, Seq<char>>,
    body: Seq<char>,
    tag: u32,
    offset: u16,
)
    ensures
        ({
            let (next, step) = session::step_after_request(
                source,
                s,
                "PLAY"@,
                headers,
                body,
                tag,
                offset,
            );
            if s.media || source.config.no_media {
                next == s && step.next == NextStep::Read
            } else if s.sink_rtp_port is None {
                &&& next.finished
                &&& step.next matches NextStep::Fail(e)
                &&& e.case == ErrorCase::NoRtpPort
                &&& e.message == "sink did not provide an RTP port"@
                &&& e.contexts.len() == 0
            } else {
                &&& step.next matches NextStep::StartMedia(command)
                &&& command.len() > 0
                &&& command[0] == "wf-recorder"@
                &&& command.skip(1) == config::recorder_args(
                    source.config,
                    source.peer,
                    s.sink_rtp_port->Some_0,
                )
                &&& next == (SessionState { media: true, media_command: Some(command), ..s })
            }
        }),
{
    lemma_all_methods();
    if !(s.media || source.config.no_media) && s.sink_rtp_port is Some {
        let args = config::recorder_args(source.config, source.peer, s.sink_rtp_port->Some_0);
        assert((seq!["wf-recorder"@] + args).skip(1) =~= args);
    }
}

/// A response changes nothing but the open requests, the port if it answers the
/// request for parameters, and whether the session is over.
pub proof fn law_responses_change_little(
    source: SourceModel,
    s: SessionState,
    code: u16,
    headers: Map<Seq<char>, Seq<char>>,
    body: Seq<char>,
)
    ensures
        ({
            let next = session::step_after_response(source, s, code, headers, body).0;
            &&& next.session_id == s.session_id
            &&& next.media == s.media
            &&& next.media_command == s.media_command
            &&& next.teardown_received == s.teardown_received
            &&& 200 <= code < 300 ==> next.finished == s.finished
            &&& session::answered_request(s.pending, headers) matches Some(n) ==> s.pending[n]
                != OutgoingRtsp::GetParameters ==> next.sink_rtp_port == s.sink_rtp_port
            &&& session::answered_request(s.pending, headers) is None ==> next.sink_rtp_port
                == s.sink_rtp_port
            &&& not_given(text::lines(body), "wfd_client_rtp_ports"@) ==> next.sink_rtp_port
                == s.sink_rtp_port
        }),
{
    law_port_is_as_given(body, Seq::empty());
}

/// The report has the address of the sink, where the stream is presented, and
/// how the session stands: the port, the command that was started last if any
/// was, and whether there was a teardown.
pub proof fn law_report(source: SourceModel, s: SessionState)
    ensures
        ({
            let r = session::report_of(source, s);
            &&& r.peer == source.peer
            &&& r.presentation_url == source.presentation_url
            &&& r.sink_rtp_port == s.sink_rtp_port
            &&& r.media_command == s.media_command
            &&& r.media_started <==> s.media_command is Some
            &&& r.teardown_received <==> s.teardown_received
        }),
{
}

/// Where the stream is presented has the address of the source and its port,
/// which is read back.
pub proof fn law_presentation_url(ip: Seq<char>, port: u16) -> (digits: Seq<char>)
    ensures
        session::url_of(ip, port) == "rtsp://"@ + ip + ":"@ + digits + "/wfd1.0/streamid=0"@,
        number::number(digits, 65535) == Some(port as nat),
{
    number::law_decimal_is_read_back(port as nat, 65535);
    number::decimal(port as nat)
}

/// What the source says about each parameter, as it is read: the video formats
/// as configured, the audio codecs if there is audio, where the stream is
/// presented, and the port of the sink or 19000. Of any other one it says
/// `none`.
pub proof fn law_parameter_values(
    name: Seq<char>,
    c: RtspSourceConfig,
    port: Option<u16>,
    url: Seq<char>,
)
    ensures
        ({
            let value = dialogue::parameter_value(name, c, port, url);
            &&& name == "wfd_video_formats"@ ==> value == text::trimmed(c.video_formats@)
            &&& name == "wfd_audio_codecs"@ && c.audio is Some ==> value == "AAC 0000000F 00"@
            &&& name == "wfd_audio_codecs"@ && c.audio is None ==> value == "none"@
            &&& name == "wfd_presentation_URL"@ ==> value == text::trimmed(url + " none"@)
            &&& name == "wfd_client_rtp_ports"@ ==> {
                &&& text::words(value).len() > 1
                &&& number::number(text::words(value)[1], 65535) == (match port {
                    Some(p) => Some(p as nat),
                    None => Some(19000nat),
                })
            }
            &&& name != "wfd_video_formats"@ && name != "wfd_audio_codecs"@ && name
                != "wfd_presentation_URL"@ && name != "wfd_client_rtp_ports"@ ==> value == "none"@
        }),
{
    reveal_strlit("wfd_video_formats");
    reveal_strlit("wfd_audio_codecs");
    reveal_strlit("wfd_presentation_URL");
    reveal_strlit("wfd_client_rtp_ports");
    assert("wfd_video_formats"@.len() == 17);
    assert("wfd_audio_codecs"@.len() == 16);
    assert("wfd_presentation_URL"@.len() == 20 && "wfd_presentation_URL"@[4] == 'p');
    assert("wfd_client_rtp_ports"@.len() == 20 && "wfd_client_rtp_ports"@[4] == 'c');
    params::law_default_port(port);
    dialogue::lemma_port_value(params::port_or_default(port));
}

/// The port that the transport of a setup names is the port of the sink from
/// then on.
pub proof fn law_setup_port(
    source: SourceModel,
    s: SessionState,
    headers: Map<Seq<char>, Seq<char>>,
    body: Seq<char>,
    tag: u32,
    offset: u16,
    transport: Seq<char>,
    p: u16,
)
    requires
        reader::header_value(headers, "transport"@) == Some(transport),
        params::transport_port(transport) == Some(p as nat),
    ensures
        session::step_after_request(
            source,
            s,
            "SETUP"@,
            headers,
            body,
            tag,
            offset,
        ).0.sink_rtp_port == Some(p),
{
    lemma_all_methods();
}

/// A sink that asks for parameters is told about those that it asks for, with
/// the port that it named last. One that asks what it can do is told all the
/// methods that the source knows.
pub proof fn law_sink_is_told(
    source: SourceModel,
    s: SessionState,
    headers: Map<Seq<char>, Seq<char>>,
    body: Seq<char>,
    tag: u32,
    offset: u16,
)
    ensures
        session::step_after_request(
            source,
            s,
            "GET_PARAMETER"@,
            headers,
            body,
            tag,
            offset,
        ).1.send == Some(
            rtsp::response_text(
                session::request_cseq(headers),
                seq![("Content-Type"@, "text/parameters"@)],
                params::parameter_lines(
                    params::requested_parameters(body),
                    source.config,
                    s.sink_rtp_port,
                    source.presentation_url,
                ),
            ),
        ),
        session::step_after_request(
            source,
            s,
            "OPTIONS"@,
            headers,
            body,
            tag,
            offset,
        ).1.send == Some(
            rtsp::response_text(
                session::request_cseq(headers),
                seq![
                    (
                        "Public"@,
                        "org.wfa.wfd1.0, OPTIONS, GET_PARAMETER, SET_PARAMETER, SETUP, PLAY, PAUSE, TEARDOWN"@,
                    ),
                ],
                ""@,
            ),
        ),
{
    lemma_all_methods();
}

/// A session starts with nothing known of the sink and no media.
pub proof fn law_session_starts_empty(source: SourceModel)
    ensures
        ({
            let (s, step) = session::first_step(source);
            &&& s.sink_rtp_port is None
            &&& !s.media
            &&& s.media_command is None
            &&& !s.teardown_received
            &&& !s.finished
            &&& s.session_id == "niri"@
            &&& s.pending == Map::<u32, OutgoingRtsp>::empty().insert(1, OutgoingRtsp::Options)
            &&& step.next == NextStep::Read
            &&& step.send is Some
        }),
{
}

/// What the source announces is what the sink reads: these four parameters and
/// no others, with the video formats as configured, the audio codecs if there
/// is audio, where the stream is presented, and the port.
pub proof fn law_announcement_is_read(
    source: SourceModel,
    cseq: u32,
    port: Option<u16>,
    rest: Seq<u8>,
)
    requires
        exchange::one_line(source.config.video_formats@),
        exchange::one_line(source.presentation_url),
        utf8::encode_utf8(dialogue::announcement_of(source, port)).len() <= usize::MAX,
    ensures
        ({
            let bytes = utf8::encode_utf8(
                session::request_of(OutgoingRtsp::SetParameters, cseq, source, port),
            );
            &&& reader::read_message(bytes + rest).0 matches ReadStep::Message(message)
            &&& message matches MessageModel::Request { method, headers, body }
            &&& method == "SET_PARAMETER"@
            &&& ({
                let read = params::parameters_of(text::lines(body));
                &&& forall|name: Seq<char>| #[trigger]
                    read.contains_key(name) <==> name == "wfd_video_formats"@ || name
                        == "wfd_audio_codecs"@ || name == "wfd_presentation_URL"@ || name
                        == "wfd_client_rtp_ports"@
                &&& read["wfd_video_formats"@] == text::trimmed(source.config.video_formats@)
                &&& read["wfd_audio_codecs"@] == (if source.config.audio is Some {
                    "AAC 0000000F 00"@
                } else {
                    "none"@
                })
                &&& read["wfd_presentation_URL"@] == text::trimmed(
                    source.presentation_url + " none"@,
                )
                &&& text::words(read["wfd_client_rtp_ports"@]).len() > 1
                &&& number::number(text::words(read["wfd_client_rtp_ports"@])[1], 65535) == (
                match port {
                    Some(p) => Some(p as nat),
                    None => Some(19000nat),
                })
            })
        }),
{
    let c = source.config;
    let url = source.presentation_url;
    let names = params::announced_parameters();
    dialogue::law_source_requests_are_read(
        OutgoingRtsp::SetParameters,
        cseq,
        source,
        port,
        rest,
    );
    dialogue::lemma_announced_names();
    assert forall|k: int| 0 <= k < names.len() implies dialogue::is_parameter_name(
        #[trigger] names[k],
    ) && dialogue::stays_on_its_line(names[k], c, url) by {}
    dialogue::lemma_read_parameters(names, c, port, url);
    law_parameter_values("wfd_video_formats"@, c, port, url);
    law_parameter_values("wfd_audio_codecs"@, c, port, url);
    law_parameter_values("wfd_presentation_URL"@, c, port, url);
    law_parameter_values("wfd_client_rtp_ports"@, c, port, url);
    assert(names[0] == "wfd_video_formats"@ && names[1] == "wfd_audio_codecs"@ && names[2]
        == "wfd_presentation_URL"@ && names[3] == "wfd_client_rtp_ports"@);
    assert forall|name: Seq<char>| #[trigger] names.contains(name) <==> name
        == "wfd_video_formats"@ || name == "wfd_audio_codecs"@ || name == "wfd_presentation_URL"@
        || name == "wfd_client_rtp_ports"@ by {
        if names.contains(name) {
            let k = choose|k: int| 0 <= k < names.len() && names[k] == name;
            assert(k == 0 || k == 1 || k == 2 || k == 3);
        }
        assert(names.contains(names[0]) && names.contains(names[1]) && names.contains(names[2])
            && names.contains(names[3]));
    }
}

} // verus!
