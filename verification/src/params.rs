//! Wi-Fi Display parameters: the bodies of `GET_PARAMETER` and `SET_PARAMETER`,
//! and the ports that sinks name.
use crate::config::RtspSourceConfig;
use crate::fields::{self, FieldMap};
use crate::number::{self, parse_u16, to_decimal};
use crate::text::{
    self, chars_of, find, split_lines, split_once, starts_with, string_of, take_line, take_word,
    trim,
};
use vstd::prelude::*;
use vstd::slice::slice_subrange;

verus! {

/// The RTP port of a sink that names none.
pub const DEFAULT_RTP_PORT: u16 = 19000;

/// The parameters once another line was read: a name, or a name, a colon and a
/// value, without white space around them. Blank lines are passed over.
pub open spec fn with_parameter_line(
    params: Map<Seq<char>, Seq<char>>,
    line: Seq<char>,
) -> Map<Seq<char>, Seq<char>> {
    let content = text::trimmed(line);
    if content.len() == 0 {
        params
    } else {
        match text::split_at_first(content, ':') {
            Some((name, value)) => params.insert(text::trimmed(name), text::trimmed(value)),
            None => params.insert(content, Seq::empty()),
        }
    }
}

/// The parameters that some lines hold. Where a name occurs twice, the last
/// value stays.
pub open spec fn parameters_of(lines: Seq<Seq<char>>) -> Map<Seq<char>, Seq<char>>
    decreases lines.len(),
{
    if lines.len() == 0 {
        Map::empty()
    } else {
        with_parameter_line(parameters_of(lines.drop_last()), lines.last())
    }
}

/// Reads the parameters in a body.
pub fn parse_rtsp_parameters(body: &str) -> (params: FieldMap)
    ensures
        params@ == parameters_of(text::lines(body@)),
{
    let chars: Vec<char> = chars_of(body);
    let mut rest: &[char] = chars.as_slice();
    let mut params: FieldMap = FieldMap::new();
    let ghost mut done: Seq<Seq<char>> = Seq::empty();
    assert(done + text::lines(rest@) =~= text::lines(body@));
    while rest.len() > 0
        invariant
            done + text::lines(rest@) == text::lines(body@),
            params@ == parameters_of(done),
        decreases rest@.len(),
    {
        let (line, tail) = take_line(rest);
        let content: &[char] = trim(line);
        if content.len() > 0 {
            match split_once(content, ':') {
                Some((name, value)) => {
                    params.insert(string_of(trim(name)), string_of(trim(value)));
                },
                None => {
                    params.insert(string_of(content), String::new());
                },
            }
        }
        proof {
            let next = done.push(line@);
            assert(next.drop_last() =~= done);
            assert(next + text::lines(tail@) =~= done + text::lines(rest@));
            done = next;
        }
        rest = tail;
    }
    assert(done + text::lines(rest@) =~= done);
    params
}

/// The RTP port among the parameters: the second word of
/// `wfd_client_rtp_ports`, if it is a port.
pub open spec fn parameter_port(params: Map<Seq<char>, Seq<char>>) -> Option<nat> {
    match fields::lookup(params, "wfd_client_rtp_ports"@) {
        Some(value) => match text::nth_word(value, 1) {
            Some(word) => number::number(word, u16::MAX as nat),
            None => None,
        },
        None => None,
    }
}

/// A port as a number.
pub open spec fn port_number(port: Option<u16>) -> Option<nat> {
    match port {
        Some(p) => Some(p as nat),
        None => None,
    }
}

/// Reads the RTP port among the parameters.
pub fn parse_wfd_client_rtp_port_from_params(params: &FieldMap) -> (r: Option<u16>)
    ensures
        port_number(r) == parameter_port(params@),
{
    match params.get("wfd_client_rtp_ports") {
        Some(value) => {
            let chars: Vec<char> = chars_of(value.as_str());
            match take_word(chars.as_slice()) {
                Some((_, rest)) => match take_word(rest) {
                    Some((word, _)) => {
                        assert(text::words(chars@)[1] == text::words(rest@)[0]);
                        parse_u16(word)
                    },
                    None => None,
                },
                None => None,
            }
        },
        None => None,
    }
}

/// The part of a text before the first hyphen or comma.
pub open spec fn before_range(s: Seq<char>) -> Seq<char> {
    let hyphen = text::position(s, '-');
    let comma = text::position(s, ',');
    s.take(
        (if hyphen < comma {
            hyphen
        } else {
            comma
        }) as int,
    )
}

/// The port that one part of a transport names for the client.
pub open spec fn part_port(part: Seq<char>) -> Option<nat> {
    let content = text::trimmed(part);
    if text::begins_with(content, "client_port="@) {
        number::number(
            before_range(content.skip("client_port="@.len() as int)),
            u16::MAX as nat,
        )
    } else {
        None
    }
}

/// The port that a transport names for the client. Its parts are separated by
/// semicolons; the first one that names a port counts.
pub open spec fn transport_port(s: Seq<char>) -> Option<nat>
    decreases s.len(),
{
    let n = text::position(s, ';');
    match part_port(s.take(n as int)) {
        Some(port) => Some(port),
        None => if n < s.len() {
            transport_port(s.skip(n as int + 1))
        } else {
            None
        },
    }
}

/// Reads the port that one part of a transport names for the client.
fn parse_part(part: &[char]) -> (r: Option<u16>)
    ensures
        port_number(r) == part_port(part@),
{
    let content: &[char] = trim(part);
    if starts_with(content, "client_port=") {
        let n: usize = "client_port=".unicode_len();
        let value: &[char] = slice_subrange(content, n, content.len());
        let hyphen: usize = find(value, '-');
        let comma: usize = find(value, ',');
        let end: usize = if hyphen < comma {
            hyphen
        } else {
            comma
        };
        parse_u16(slice_subrange(value, 0, end))
    } else {
        None
    }
}

/// Reads the port that a transport names for the client.
pub fn parse_transport_client_port(transport: &str) -> (r: Option<u16>)
    ensures
        port_number(r) == transport_port(transport@),
{
    let chars: Vec<char> = chars_of(transport);
    let mut rest: &[char] = chars.as_slice();
    loop
        invariant
            transport_port(rest@) == transport_port(transport@),
        decreases rest@.len(),
    {
        let n: usize = find(rest, ';');
        let part: &[char] = slice_subrange(rest, 0, n);
        let port: Option<u16> = parse_part(part);
        if port.is_some() {
            return port;
        }
        if n == rest.len() {
            return None;
        }
        rest = slice_subrange(rest, n + 1, rest.len());
    }
}

/// The audio codecs that the source offers.
pub open spec fn audio_codecs(audio: Option<Option<String>>) -> Seq<char> {
    if audio is Some {
        "AAC 0000000F 00"@
    } else {
        "none"@
    }
}

/// The port to stream to, as far as it is known.
pub open spec fn port_or_default(port: Option<u16>) -> nat {
    match port {
        Some(p) => p as nat,
        None => DEFAULT_RTP_PORT as nat,
    }
}

/// What the source says about one parameter.
pub open spec fn parameter_line(
    name: Seq<char>,
    c: RtspSourceConfig,
    port: Option<u16>,
    url: Seq<char>,
) -> Seq<char> {
    if name == "wfd_video_formats"@ {
        "wfd_video_formats: "@ + c.video_formats@ + "\r\n"@
    } else if name == "wfd_audio_codecs"@ {
        "wfd_audio_codecs: "@ + audio_codecs(c.audio) + "\r\n"@
    } else if name == "wfd_presentation_URL"@ {
        "wfd_presentation_URL: "@ + url + " none\r\n"@
    } else if name == "wfd_client_rtp_ports"@ {
        "wfd_client_rtp_ports: RTP/AVP/UDP;unicast "@ + number::decimal(port_or_default(port))
            + " 0 mode=play\r\n"@
    } else {
        name + ": none\r\n"@
    }
}

/// What the source says about some parameters, in order.
pub open spec fn parameter_lines(
    names: Seq<Seq<char>>,
    c: RtspSourceConfig,
    port: Option<u16>,
    url: Seq<char>,
) -> Seq<char>
    decreases names.len(),
{
    if names.len() == 0 {
        Seq::empty()
    } else {
        parameter_lines(names.drop_last(), c, port, url) + parameter_line(
            names.last(),
            c,
            port,
            url,
        )
    }
}

/// The parameters that the source announces.
pub open spec fn announced_parameters() -> Seq<Seq<char>> {
    seq![
        "wfd_video_formats"@,
        "wfd_audio_codecs"@,
        "wfd_presentation_URL"@,
        "wfd_client_rtp_ports"@,
    ]
}

/// The parameters that a body asks for: one on each line that is not blank.
/// Where there is none, those that the source announces are meant.
pub open spec fn requested_parameters(body: Seq<char>) -> Seq<Seq<char>> {
    let names = text::trimmed_lines(body).filter(|line: Seq<char>| line.len() > 0);
    if names.len() == 0 {
        announced_parameters()
    } else {
        names
    }
}

/// Appends what the source says about one parameter.
fn push_parameter(
    body: &mut String,
    name: &str,
    config: &RtspSourceConfig,
    sink_rtp_port: Option<u16>,
    presentation_url: &str,
)
    ensures
        final(body)@ == old(body)@ + parameter_line(
            name@,
            *config,
            sink_rtp_port,
            presentation_url@,
        ),
{
    let chars: Vec<char> = chars_of(name);
    let s: &[char] = chars.as_slice();
    if text::same_text(s, "wfd_video_formats") {
        body.append("wfd_video_formats: ");
        body.append(config.video_formats.as_str());
        body.append("\r\n");
    } else if text::same_text(s, "wfd_audio_codecs") {
        body.append("wfd_audio_codecs: ");
        if config.audio.is_some() {
            body.append("AAC 0000000F 00");
        } else {
            body.append("none");
        }
        body.append("\r\n");
    } else if text::same_text(s, "wfd_presentation_URL") {
        body.append("wfd_presentation_URL: ");
        body.append(presentation_url);
        body.append(" none\r\n");
    } else if text::same_text(s, "wfd_client_rtp_ports") {
        let port: u16 = match sink_rtp_port {
            Some(port) => port,
            None => DEFAULT_RTP_PORT,
        };
        body.append("wfd_client_rtp_ports: RTP/AVP/UDP;unicast ");
        body.append(to_decimal(port as u64).as_str());
        body.append(" 0 mode=play\r\n");
    } else {
        body.append(name);
        body.append(": none\r\n");
    }
    assert(body@ =~= old(body)@ + parameter_line(
        name@,
        *config,
        sink_rtp_port,
        presentation_url@,
    ));
}

/// Writes what the source announces about itself.
pub fn announcement(
    config: &RtspSourceConfig,
    sink_rtp_port: Option<u16>,
    presentation_url: &str,
) -> (body: String)
    ensures
        body@ == parameter_lines(
            announced_parameters(),
            *config,
            sink_rtp_port,
            presentation_url@,
        ),
{
    let mut body: String = String::new();
    push_parameter(&mut body, "wfd_video_formats", config, sink_rtp_port, presentation_url);
    push_parameter(&mut body, "wfd_audio_codecs", config, sink_rtp_port, presentation_url);
    push_parameter(&mut body, "wfd_presentation_URL", config, sink_rtp_port, presentation_url);
    push_parameter(&mut body, "wfd_client_rtp_ports", config, sink_rtp_port, presentation_url);
    proof {
        let all = announced_parameters();
        reveal_with_fuel(parameter_lines, 5);
        assert(all.drop_last() =~= all.take(3));
        assert(all.take(3).drop_last() =~= all.take(2));
        assert(all.take(2).drop_last() =~= all.take(1));
        assert(all.take(1).drop_last() =~= all.take(0));
        assert(body@ =~= parameter_lines(all, *config, sink_rtp_port, presentation_url@));
    }
    body
}

/// Writes the answer to a request for parameters.
pub fn build_get_parameter_response(
    request_body: &str,
    config: &RtspSourceConfig,
    sink_rtp_port: Option<u16>,
    presentation_url: &str,
) -> (body: String)
    ensures
        body@ == parameter_lines(
            requested_parameters(request_body@),
            *config,
            sink_rtp_port,
            presentation_url@,
        ),
{
    let lines: Vec<String> = split_lines(request_body);
    let ghost all = text::trimmed_lines(request_body@);
    let ghost keep = |line: Seq<char>| line.len() > 0;
    let mut body: String = String::new();
    let mut some: bool = false;
    let mut i: usize = 0;
    proof {
        reveal(Seq::filter);
        assert(all.take(0) =~= Seq::<Seq<char>>::empty());
        assert(all.take(0).filter(keep) =~= Seq::<Seq<char>>::empty());
    }
    while i < lines.len()
        invariant
            i <= lines@.len(),
            all == text::texts(lines@),
            keep == (|line: Seq<char>| line.len() > 0),
            some == (all.take(i as int).filter(keep).len() > 0),
            body@ == parameter_lines(
                all.take(i as int).filter(keep),
                *config,
                sink_rtp_port,
                presentation_url@,
            ),
        decreases lines@.len() - i,
    {
        let ghost before = all.take(i as int).filter(keep);
        proof {
            text::lemma_filter_take(all, i as int, keep);
            assert(all[i as int] == lines@[i as int]@);
            assert(before.push(all[i as int]).drop_last() =~= before);
        }
        if lines[i].as_str().unicode_len() > 0 {
            push_parameter(
                &mut body,
                lines[i].as_str(),
                config,
                sink_rtp_port,
                presentation_url,
            );
            some = true;
        }
        i = i + 1;
    }
    assert(all.take(i as int) == all);
    if !some {
        return announcement(config, sink_rtp_port, presentation_url);
    }
    body
}

/// A transport is read part by part: the parts are separated by semicolons, and
/// the first one that names a port for the client counts.
pub proof fn law_transport_parts(part: Seq<char>, rest: Seq<char>)
    requires
        forall|i: int| 0 <= i < part.len() ==> #[trigger] part[i] != ';',
    ensures
        transport_port(part) is Some ==> transport_port(part.push(';') + rest) == transport_port(
            part,
        ),
        transport_port(part) is None ==> transport_port(part.push(';') + rest) == transport_port(
            rest,
        ),
{
    let s = part.push(';') + rest;
    let n = part.len() as int;
    assert forall|i: int| 0 <= i < n implies s[i] != ';' by {
        assert(s[i] == part[i]);
    }
    text::lemma_position_unique(s, ';', n);
    text::lemma_position_unique(part, ';', n);
    assert(s.take(n) =~= part);
    assert(part.take(n) =~= part);
    assert(s.skip(n + 1) =~= rest);
}

/// A part of a transport names a port for the client if it starts with
/// `client_port=` and a number follows, up to a hyphen, a comma or the end.
pub proof fn law_client_port(digits: Seq<char>, range: Seq<char>)
    requires
        digits.len() > 0,
        forall|i: int|
            0 <= i < digits.len() ==> #[trigger] digits[i] != ';' && digits[i] != '-' && digits[i]
                != ',' && !text::is_space(digits[i]),
        range.len() > 0 ==> range[0] == '-' || range[0] == ',',
        range.len() > 0 ==> !text::is_space(range.last()),
        forall|i: int| 0 <= i < range.len() ==> #[trigger] range[i] != ';',
    ensures
        transport_port("client_port="@ + digits + range) == number::number(digits, 65535),
{
    reveal_strlit("client_port=");
    let part = "client_port="@ + digits + range;
    let n = part.len() as int;
    assert forall|i: int| 0 <= i < n implies part[i] != ';' by {
        if i >= 12 + digits.len() {
            assert(part[i] == range[i - 12 - digits.len()]);
        } else if i >= 12 {
            assert(part[i] == digits[i - 12]);
        }
    }
    text::lemma_position_unique(part, ';', n);
    assert(part.take(n) =~= part);
    assert(part[0] == 'c');
    if range.len() > 0 {
        assert(part.last() == range.last());
    } else {
        assert(part.last() == digits[digits.len() - 1]);
    }
    assert(text::trimmed(part) == part);
    assert(part.take(12) =~= "client_port="@);
    let value = part.skip(12);
    let d = digits.len() as int;
    assert(value =~= digits + range);
    text::lemma_position(value, '-');
    text::lemma_position(value, ',');
    let hyphen = text::position(value, '-') as int;
    let comma = text::position(value, ',') as int;
    assert forall|i: int| 0 <= i < d implies value[i] != '-' && value[i] != ',' by {
        assert(value[i] == digits[i]);
    }
    if hyphen < d {
        assert(value[hyphen] == '-');
    }
    if comma < d {
        assert(value[comma] == ',');
    }
    if range.len() > 0 {
        assert(value[d] == range[0]);
        if range[0] == '-' {
            text::lemma_position_unique(value, '-', d);
        } else {
            text::lemma_position_unique(value, ',', d);
        }
    }
    assert(before_range(value) =~= digits);
}

/// A part that does not start with `client_port=` names no port.
pub proof fn law_other_parts(part: Seq<char>)
    requires
        forall|i: int| 0 <= i < part.len() ==> #[trigger] part[i] != ';',
        !text::begins_with(text::trimmed(part), "client_port="@),
    ensures
        transport_port(part) is None,
{
    text::lemma_position_unique(part, ';', part.len() as int);
    assert(part.take(part.len() as int) =~= part);
}

/// Where the port of the sink is not known, 19000 is meant.
pub proof fn law_default_port(port: Option<u16>)
    ensures
        port is None ==> port_or_default(port) == 19000,
        port is Some ==> port_or_default(port) == port->Some_0,
{
}

/// The parameters that a body asks for are read line by line, in the order of
/// the lines: each line that is not blank asks for the parameter with its text
/// as the name.
pub proof fn law_requested_by_line(before: Seq<char>, line: Seq<char>, after: Seq<char>)
    requires
        before.len() > 0 ==> before.last() == '\n',
        forall|i: int| 0 <= i < line.len() ==> #[trigger] line[i] != '\n',
        text::trimmed(line).len() > 0,
    ensures
        ({
            let some = |s: Seq<char>| text::trimmed_lines(s).filter(|l: Seq<char>| l.len() > 0);
            requested_parameters(before + line.push('\n') + after) == some(before) + seq![
                text::trimmed(line),
            ] + some(after)
        }),
{
    let keep = |l: Seq<char>| l.len() > 0;
    let mid = line.push('\n');
    let name = text::trimmed(line);
    text::lemma_trimmed_lines_concat(before, mid + after);
    text::lemma_trimmed_lines_concat(mid, after);
    text::lemma_trimmed_lines_single(line);
    assert(before + mid + after =~= before + (mid + after));
    Seq::filter_distributes_over_add(
        text::trimmed_lines(before),
        seq![name] + text::trimmed_lines(after),
        keep,
    );
    text::lemma_filter_first(name, text::trimmed_lines(after), keep);
    assert(text::trimmed_lines(before + mid + after).filter(keep) =~= text::trimmed_lines(
        before,
    ).filter(keep) + seq![name] + text::trimmed_lines(after).filter(keep));
}

/// What is said about several parameters is said about one after the other.
pub proof fn law_parameter_lines(
    a: Seq<Seq<char>>,
    b: Seq<Seq<char>>,
    c: RtspSourceConfig,
    port: Option<u16>,
    url: Seq<char>,
)
    ensures
        parameter_lines(a + b, c, port, url) == parameter_lines(a, c, port, url) + parameter_lines(
            b,
            c,
            port,
            url,
        ),
        a.len() == 0 ==> parameter_lines(a, c, port, url).len() == 0,
    decreases b.len(),
{
    if b.len() == 0 {
        assert(a + b =~= a);
        assert(parameter_lines(a, c, port, url) + parameter_lines(b, c, port, url)
            =~= parameter_lines(a, c, port, url));
    } else {
        law_parameter_lines(a, b.drop_last(), c, port, url);
        assert((a + b).drop_last() =~= a + b.drop_last());
        assert((a + b).last() == b.last());
        assert(parameter_lines(a + b, c, port, url) =~= parameter_lines(a, c, port, url)
            + parameter_lines(b, c, port, url));
    }
}

/// A longer transport is read from its front: what the parts in front of a
/// semicolon name counts, and where they name no port, what stands behind it.
pub proof fn law_transport_concat(front: Seq<char>, rest: Seq<char>)
    ensures
        transport_port(front.push(';') + rest) == (if transport_port(front) is Some {
            transport_port(front)
        } else {
            transport_port(rest)
        }),
    decreases front.len(),
{
    text::lemma_position(front, ';');
    let n = text::position(front, ';') as int;
    if n == front.len() {
        law_transport_parts(front, rest);
    } else {
        let part = front.take(n);
        let back = front.skip(n + 1);
        assert forall|i: int| 0 <= i < part.len() implies #[trigger] part[i] != ';' by {
            assert(part[i] == front[i]);
        }
        assert(front =~= part.push(';') + back);
        assert(front.push(';') + rest =~= part.push(';') + (back.push(';') + rest));
        law_transport_parts(part, back);
        law_transport_parts(part, back.push(';') + rest);
        law_transport_concat(back, rest);
    }
}

/// A blank line asks for nothing.
pub proof fn law_blank_lines(before: Seq<char>, line: Seq<char>, after: Seq<char>)
    requires
        before.len() > 0 ==> before.last() == '\n',
        forall|i: int| 0 <= i < line.len() ==> #[trigger] line[i] != '\n',
        text::trimmed(line).len() == 0,
    ensures
        requested_parameters(before + line.push('\n') + after) == requested_parameters(
            before + after,
        ),
{
    let keep = |l: Seq<char>| l.len() > 0;
    let mid = line.push('\n');
    let name = text::trimmed(line);
    text::lemma_trimmed_lines_concat(before, mid + after);
    text::lemma_trimmed_lines_concat(before, after);
    text::lemma_trimmed_lines_concat(mid, after);
    text::lemma_trimmed_lines_single(line);
    assert(before + mid + after =~= before + (mid + after));
    Seq::filter_distributes_over_add(
        text::trimmed_lines(before),
        seq![name] + text::trimmed_lines(after),
        keep,
    );
    Seq::filter_distributes_over_add(
        text::trimmed_lines(before),
        text::trimmed_lines(after),
        keep,
    );
    text::lemma_filter_first(name, text::trimmed_lines(after), keep);
    assert(text::trimmed_lines(before + mid + after).filter(keep) =~= text::trimmed_lines(
        before + after,
    ).filter(keep));
}

} // verus!
