//! How a stream is served.
use crate::error::{self, ErrorCase, ErrorModel, MiracastError};
use crate::number::{self, push_decimal, to_decimal};
use crate::text::{self, chars_of, count_words};
use vstd::prelude::*;

verus! {

/// How the RTSP source listens and what it streams.
#[derive(Clone, Debug, PartialEq, Eq)]
pub struct RtspSourceConfig {
    pub bind: String,
    pub port: u16,
    /// How long to wait for a sink, in seconds.
    pub accept_timeout: Option<u64>,
    /// How long a session may be idle, in seconds.
    pub session_timeout: Option<u64>,
    pub output: Option<String>,
    pub framerate: u32,
    pub bitrate_kbps: u32,
    pub codec: String,
    /// Whether to stream audio, and from which device if not from the default
    /// one.
    pub audio: Option<Option<String>>,
    pub no_media: bool,
    pub video_formats: String,
}

/// A limit in seconds, where zero means that there is none.
pub open spec fn limit(seconds: u64) -> Option<u64> {
    if seconds == 0 {
        None
    } else {
        Some(seconds)
    }
}

/// A limit in seconds, where zero means that there is none.
pub fn duration_arg(seconds: u64) -> (r: Option<u64>)
    ensures
        r == limit(seconds),
{
    if seconds != 0 {
        Some(seconds)
    } else {
        None
    }
}

/// The error for a video format string with `count` fields.
pub open spec fn video_formats_error(count: nat) -> ErrorModel {
    error::plain(
        ErrorCase::VideoFormats,
        "WFD video format string must contain 13 whitespace-separated fields, got "@
            + number::decimal(count),
    )
}

/// Accepts video format strings of thirteen fields.
pub fn validate_video_formats(video_formats: &str) -> (r: Result<(), MiracastError>)
    ensures
        match r {
            Ok(_) => text::words(video_formats@).len() == 13,
            Err(e) => {
                &&& text::words(video_formats@).len() != 13
                &&& e@ == video_formats_error(text::words(video_formats@).len())
            },
        },
{
    let chars: Vec<char> = chars_of(video_formats);
    let count: usize = count_words(chars.as_slice());
    if count != 13 {
        let mut message: String =
            "WFD video format string must contain 13 whitespace-separated fields, got ".to_owned();
        push_decimal(&mut message, count as u64);
        return Err(MiracastError::new(ErrorCase::VideoFormats, message));
    }
    Ok(())
}

/// Where the media stream goes.
pub open spec fn media_url(host: Seq<char>, port: u16) -> Seq<char> {
    "rtp://"@ + host + ":"@ + number::decimal(port as nat) + "?pkt_size=1316"@
}

/// The arguments that choose the output.
pub open spec fn output_args(output: Option<String>) -> Seq<Seq<char>> {
    match output {
        Some(name) => seq!["--output"@, name@],
        None => Seq::empty(),
    }
}

/// The arguments that choose the audio.
pub open spec fn audio_args(audio: Option<Option<String>>) -> Seq<Seq<char>> {
    match audio {
        Some(Some(device)) => seq!["--audio="@ + device@, "--audio-codec"@, "aac"@],
        Some(None) => seq!["--audio"@, "--audio-codec"@, "aac"@],
        None => Seq::empty(),
    }
}

/// The arguments that choose the video.
pub open spec fn video_args(c: RtspSourceConfig) -> Seq<Seq<char>> {
    seq![
        "--no-damage"@,
        "--muxer"@,
        "rtp_mpegts"@,
        "--codec"@,
        c.codec@,
        "--framerate"@,
        number::decimal(c.framerate as nat),
        "--pixel-format"@,
        "yuv420p"@,
        "--codec-param"@,
        "preset=ultrafast"@,
        "--codec-param"@,
        "tune=zerolatency"@,
        "--codec-param"@,
        "b="@ + number::decimal(c.bitrate_kbps as nat) + "k"@,
    ]
}

/// The arguments of the recorder that streams to a port of the sink.
pub open spec fn recorder_args(c: RtspSourceConfig, host: Seq<char>, port: u16) -> Seq<Seq<char>> {
    output_args(c.output) + video_args(c) + audio_args(c.audio) + seq![
        "-f"@,
        media_url(host, port),
    ]
}

/// Appends a copy of `word`.
fn push_word(list: &mut Vec<String>, word: &str)
    ensures
        text::texts(final(list)@) == text::texts(old(list)@).push(word@),
{
    broadcast use text::lemma_texts_push;

    list.push(word.to_owned());
}

/// The arguments of the recorder that streams to a port of the sink.
pub fn build_wf_recorder_args(config: &RtspSourceConfig, host: &str, port: u16) -> (args: Vec<
    String,
>)
    ensures
        text::texts(args@) == recorder_args(*config, host@, port),
{
    broadcast use {text::lemma_texts_push, text::lemma_texts_empty};

    let mut args: Vec<String> = Vec::new();
    if let Some(output) = &config.output {
        push_word(&mut args, "--output");
        push_word(&mut args, output.as_str());
    }
    assert(text::texts(args@) =~= output_args(config.output));
    push_word(&mut args, "--no-damage");
    push_word(&mut args, "--muxer");
    push_word(&mut args, "rtp_mpegts");
    push_word(&mut args, "--codec");
    push_word(&mut args, config.codec.as_str());
    push_word(&mut args, "--framerate");
    args.push(to_decimal(config.framerate as u64));
    push_word(&mut args, "--pixel-format");
    push_word(&mut args, "yuv420p");
    push_word(&mut args, "--codec-param");
    push_word(&mut args, "preset=ultrafast");
    push_word(&mut args, "--codec-param");
    push_word(&mut args, "tune=zerolatency");
    push_word(&mut args, "--codec-param");
    let mut bitrate: String = "b=".to_owned();
    push_decimal(&mut bitrate, config.bitrate_kbps as u64);
    bitrate.append("k");
    args.push(bitrate);
    assert(text::texts(args@) =~= output_args(config.output) + video_args(*config));
    let ghost before = text::texts(args@);
    match &config.audio {
        Some(Some(device)) => {
            let mut audio: String = "--audio=".to_owned();
            audio.append(device.as_str());
            args.push(audio);
            push_word(&mut args, "--audio-codec");
            push_word(&mut args, "aac");
        },
        Some(None) => {
            push_word(&mut args, "--audio");
            push_word(&mut args, "--audio-codec");
            push_word(&mut args, "aac");
        },
        None => {},
    }
    assert(text::texts(args@) =~= before + audio_args(config.audio));
    push_word(&mut args, "-f");
    let mut url: String = "rtp://".to_owned();
    url.append(host);
    url.append(":");
    push_decimal(&mut url, port as u64);
    url.append("?pkt_size=1316");
    args.push(url);
    assert(text::texts(args@) =~= recorder_args(*config, host@, port));
    args
}

/// Whatever else is configured, the recorder is told last to stream to the port
/// of the sink.
pub proof fn law_media_goes_to_the_sink(c: RtspSourceConfig, host: Seq<char>, port: u16)
    ensures
        recorder_args(c, host, port).len() >= 2,
        recorder_args(c, host, port).last() == media_url(host, port),
        recorder_args(c, host, port)[recorder_args(c, host, port).len() - 2] == "-f"@,
{
}

/// Whether an option of the recorder takes the next argument as its value.
pub open spec fn takes_value(option: Seq<char>) -> bool {
    ||| option == "--output"@
    ||| option == "--muxer"@
    ||| option == "--codec"@
    ||| option == "--framerate"@
    ||| option == "--pixel-format"@
    ||| option == "--codec-param"@
    ||| option == "--audio-codec"@
    ||| option == "-f"@
}

/// The values that arguments give to an option, read as the recorder reads
/// them: an option that takes a value is followed by it.
pub open spec fn option_values(args: Seq<Seq<char>>, option: Seq<char>) -> Seq<Seq<char>>
    decreases args.len(),
{
    if args.len() == 0 {
        Seq::empty()
    } else if takes_value(args[0]) && args.len() >= 2 {
        (if args[0] == option {
            seq![args[1]]
        } else {
            Seq::empty()
        }) + option_values(args.skip(2), option)
    } else {
        option_values(args.skip(1), option)
    }
}

/// The arguments that are neither an option with a value nor a value.
pub open spec fn lone_words(args: Seq<Seq<char>>) -> Seq<Seq<char>>
    decreases args.len(),
{
    if args.len() == 0 {
        Seq::empty()
    } else if takes_value(args[0]) && args.len() >= 2 {
        lone_words(args.skip(2))
    } else {
        seq![args[0]] + lone_words(args.skip(1))
    }
}

/// Whether no option is left without its value.
spec fn is_complete(args: Seq<Seq<char>>) -> bool
    decreases args.len(),
{
    if args.len() == 0 {
        true
    } else if takes_value(args[0]) {
        args.len() >= 2 && is_complete(args.skip(2))
    } else {
        is_complete(args.skip(1))
    }
}

/// Complete arguments are read apart from what follows them.
proof fn lemma_options_concat(a: Seq<Seq<char>>, b: Seq<Seq<char>>, option: Seq<char>)
    requires
        is_complete(a),
    ensures
        option_values(a + b, option) == option_values(a, option) + option_values(b, option),
        lone_words(a + b) == lone_words(a) + lone_words(b),
        is_complete(b) ==> is_complete(a + b),
    decreases a.len(),
{
    if a.len() == 0 {
        assert(a + b =~= b);
        assert(option_values(a, option) + option_values(b, option) =~= option_values(b, option));
        assert(lone_words(a) + lone_words(b) =~= lone_words(b));
    } else {
        let n: int = if takes_value(a[0]) {
            2
        } else {
            1
        };
        assert((a + b).skip(n) =~= a.skip(n) + b);
        assert((a + b)[0] == a[0]);
        lemma_options_concat(a.skip(n), b, option);
        assert(option_values(a + b, option) =~= option_values(a, option) + option_values(
            b,
            option,
        ));
        assert(lone_words(a + b) =~= lone_words(a) + lone_words(b));
    }
}

/// One option with its value.
proof fn lemma_option(name: Seq<char>, value: Seq<char>, option: Seq<char>)
    requires
        takes_value(name),
    ensures
        is_complete(seq![name, value]),
        lone_words(seq![name, value]).len() == 0,
        option_values(seq![name, value], option) == (if name == option {
            seq![value]
        } else {
            Seq::empty()
        }),
{
    let args = seq![name, value];
    assert(args.skip(2) =~= Seq::<Seq<char>>::empty());
    assert(is_complete(args.skip(2)));
    assert(lone_words(args.skip(2)).len() == 0);
    assert(option_values(args.skip(2), option).len() == 0);
    assert(option_values(args, option) =~= (if name == option {
        seq![value]
    } else {
        Seq::empty()
    }));
}

/// One word that is no option with a value.
proof fn lemma_lone_word(word: Seq<char>, option: Seq<char>)
    requires
        !takes_value(word),
    ensures
        is_complete(seq![word]),
        lone_words(seq![word]) == seq![word],
        option_values(seq![word], option).len() == 0,
{
    let args = seq![word];
    assert(args.skip(1) =~= Seq::<Seq<char>>::empty());
    assert(is_complete(args.skip(1)));
    assert(option_values(args.skip(1), option).len() == 0);
    assert(lone_words(args.skip(1)).len() == 0);
    assert(lone_words(args) =~= seq![word]);
}

/// The options differ, and none of them is a word that stands alone.
proof fn lemma_option_names(device: Seq<char>)
    ensures
        !takes_value("--no-damage"@),
        !takes_value("--audio"@),
        !takes_value("--audio="@ + device),
        "--output"@ != "--muxer"@,
        "--output"@ != "--codec"@,
        "--output"@ != "--framerate"@,
        "--output"@ != "--pixel-format"@,
        "--output"@ != "--codec-param"@,
        "--output"@ != "--audio-codec"@,
        "--output"@ != "-f"@,
        "--muxer"@ != "--codec"@,
        "--muxer"@ != "--framerate"@,
        "--muxer"@ != "--pixel-format"@,
        "--muxer"@ != "--codec-param"@,
        "--muxer"@ != "--audio-codec"@,
        "--muxer"@ != "-f"@,
        "--codec"@ != "--framerate"@,
        "--codec"@ != "--pixel-format"@,
        "--codec"@ != "--codec-param"@,
        "--codec"@ != "--audio-codec"@,
        "--codec"@ != "-f"@,
        "--framerate"@ != "--pixel-format"@,
        "--framerate"@ != "--codec-param"@,
        "--framerate"@ != "--audio-codec"@,
        "--framerate"@ != "-f"@,
        "--pixel-format"@ != "--codec-param"@,
        "--pixel-format"@ != "--audio-codec"@,
        "--pixel-format"@ != "-f"@,
        "--codec-param"@ != "--audio-codec"@,
        "--codec-param"@ != "-f"@,
        "--audio-codec"@ != "-f"@,
{
    reveal_strlit("--output");
    reveal_strlit("--muxer");
    reveal_strlit("--codec");
    reveal_strlit("--framerate");
    reveal_strlit("--pixel-format");
    reveal_strlit("--codec-param");
    reveal_strlit("--audio-codec");
    reveal_strlit("-f");
    reveal_strlit("--no-damage");
    reveal_strlit("--audio");
    reveal_strlit("--audio=");
    let audio = "--audio="@ + device;
    assert(audio.len() >= 8 && audio[2] == 'a' && audio[7] == '=');
    assert("--output"@.len() == 8 && "--output"@[2] == 'o');
    assert("--muxer"@.len() == 7 && "--muxer"@[2] == 'm');
    assert("--codec"@.len() == 7 && "--codec"@[2] == 'c');
    assert("--framerate"@.len() == 11 && "--framerate"@[2] == 'f');
    assert("--pixel-format"@.len() == 14 && "--pixel-format"@[2] == 'p');
    assert("--codec-param"@.len() == 13 && "--codec-param"@[2] == 'c');
    assert("--audio-codec"@.len() == 13 && "--audio-codec"@[2] == 'a' && "--audio-codec"@[7]
        == '-');
    assert("-f"@.len() == 2);
    assert("--no-damage"@.len() == 11 && "--no-damage"@[2] == 'n');
    assert("--audio"@.len() == 7 && "--audio"@[2] == 'a');
}

/// How the recorder reads some of its options: an option and its value, then
/// the others.
proof fn lemma_option_first(
    name: Seq<char>,
    value: Seq<char>,
    rest: Seq<Seq<char>>,
    option: Seq<char>,
)
    requires
        takes_value(name),
    ensures
        option_values(seq![name, value] + rest, option) == (if name == option {
            seq![value]
        } else {
            Seq::empty()
        }) + option_values(rest, option),
        lone_words(seq![name, value] + rest) == lone_words(rest),
        is_complete(rest) ==> is_complete(seq![name, value] + rest),
{
    lemma_option(name, value, option);
    lemma_options_concat(seq![name, value], rest, option);
    assert(Seq::<Seq<char>>::empty() + lone_words(rest) =~= lone_words(rest));
    assert(lone_words(seq![name, value]) =~= Seq::<Seq<char>>::empty());
}

/// What the recorder reads of the video arguments.
proof fn lemma_video_options(c: RtspSourceConfig, option: Seq<char>)
    ensures
        is_complete(video_args(c)),
        lone_words(video_args(c)) == seq!["--no-damage"@],
        option_values(video_args(c), option) == (if option == "--muxer"@ {
            seq!["rtp_mpegts"@]
        } else if option == "--codec"@ {
            seq![c.codec@]
        } else if option == "--framerate"@ {
            seq![number::decimal(c.framerate as nat)]
        } else if option == "--pixel-format"@ {
            seq!["yuv420p"@]
        } else if option == "--codec-param"@ {
            seq![
                "preset=ultrafast"@,
                "tune=zerolatency"@,
                "b="@ + number::decimal(c.bitrate_kbps as nat) + "k"@,
            ]
        } else {
            Seq::empty()
        }),
{
    let bitrate = "b="@ + number::decimal(c.bitrate_kbps as nat) + "k"@;
    let rate = number::decimal(c.framerate as nat);
    lemma_option_names(Seq::empty());
    let r7 = seq!["--codec-param"@, bitrate];
    let r6 = seq!["--codec-param"@, "tune=zerolatency"@] + r7;
    let r5 = seq!["--codec-param"@, "preset=ultrafast"@] + r6;
    let r4 = seq!["--pixel-format"@, "yuv420p"@] + r5;
    let r3 = seq!["--framerate"@, rate] + r4;
    let r2 = seq!["--codec"@, c.codec@] + r3;
    let r1 = seq!["--muxer"@, "rtp_mpegts"@] + r2;
    assert(video_args(c) =~= seq!["--no-damage"@] + r1);
    lemma_option("--codec-param"@, bitrate, option);
    lemma_option_first("--codec-param"@, "tune=zerolatency"@, r7, option);
    lemma_option_first("--codec-param"@, "preset=ultrafast"@, r6, option);
    lemma_option_first("--pixel-format"@, "yuv420p"@, r5, option);
    lemma_option_first("--framerate"@, rate, r4, option);
    lemma_option_first("--codec"@, c.codec@, r3, option);
    lemma_option_first("--muxer"@, "rtp_mpegts"@, r2, option);
    lemma_lone_word("--no-damage"@, option);
    lemma_options_concat(seq!["--no-damage"@], r1, option);
    assert(lone_words(video_args(c)) =~= seq!["--no-damage"@]);
    let read = option_values(video_args(c), option);
    if option == "--codec-param"@ {
        assert(read =~= seq!["preset=ultrafast"@, "tune=zerolatency"@, bitrate]);
    } else if option == "--pixel-format"@ {
        assert(read =~= seq!["yuv420p"@]);
    } else if option == "--framerate"@ {
        assert(read =~= seq![rate]);
    } else if option == "--codec"@ {
        assert(read =~= seq![c.codec@]);
    } else if option == "--muxer"@ {
        assert(read =~= seq!["rtp_mpegts"@]);
    } else {
        assert(read =~= Seq::<Seq<char>>::empty());
    }
}

/// What the recorder reads of the audio arguments.
proof fn lemma_audio_options(audio: Option<Option<String>>, option: Seq<char>)
    ensures
        is_complete(audio_args(audio)),
        option_values(audio_args(audio), option) == (if audio is Some && option
            == "--audio-codec"@ {
            seq!["aac"@]
        } else {
            Seq::empty()
        }),
        lone_words(audio_args(audio)) == (match audio {
            Some(Some(device)) => seq!["--audio="@ + device@],
            Some(None) => seq!["--audio"@],
            None => Seq::empty(),
        }),
{
    if let Some(device) = audio {
        let word = match device {
            Some(device) => "--audio="@ + device@,
            None => "--audio"@,
        };
        lemma_option_names(
            match device {
                Some(device) => device@,
                None => Seq::empty(),
            },
        );
        let tail = seq!["--audio-codec"@, "aac"@];
        assert(audio_args(audio) =~= seq![word] + tail);
        lemma_lone_word(word, option);
        lemma_option("--audio-codec"@, "aac"@, option);
        lemma_options_concat(seq![word], tail, option);
        assert(lone_words(audio_args(audio)) =~= seq![word]);
        assert(option_values(audio_args(audio), option) =~= option_values(tail, option));
    } else {
        assert(option_values(audio_args(audio), option) =~= Seq::<Seq<char>>::empty());
        assert(lone_words(audio_args(audio)) =~= Seq::<Seq<char>>::empty());
    }
}

/// What the recorder reads of its arguments: all options in one go.
proof fn lemma_recorder_options(
    c: RtspSourceConfig,
    host: Seq<char>,
    port: u16,
    option: Seq<char>,
)
    ensures
        ({
            let args = recorder_args(c, host, port);
            &&& option_values(args, option) == (if option == "--output"@ && c.output is Some {
                seq![c.output->Some_0@]
            } else {
                Seq::empty()
            }) + option_values(video_args(c), option) + option_values(audio_args(c.audio), option)
                + (if option == "-f"@ {
                seq![media_url(host, port)]
            } else {
                Seq::empty()
            })
            &&& lone_words(args) == seq!["--no-damage"@] + lone_words(audio_args(c.audio))
        }),
{
    let end = seq!["-f"@, media_url(host, port)];
    let output = output_args(c.output);
    let video = video_args(c);
    let audio = audio_args(c.audio);
    lemma_option("-f"@, media_url(host, port), option);
    lemma_video_options(c, option);
    lemma_audio_options(c.audio, option);
    lemma_options_concat(audio, end, option);
    lemma_options_concat(video, audio + end, option);
    if let Some(name) = c.output {
        lemma_option("--output"@, name@, option);
    } else {
        assert(option_values(output, option) =~= Seq::<Seq<char>>::empty());
    }
    assert(lone_words(output) =~= Seq::<Seq<char>>::empty());
    lemma_options_concat(output, video + (audio + end), option);
    assert(recorder_args(c, host, port) =~= output + (video + (audio + end)));
    let args = recorder_args(c, host, port);
    assert(lone_words(end) =~= Seq::<Seq<char>>::empty());
    assert(lone_words(args) =~= seq!["--no-damage"@] + lone_words(audio));
    assert(option_values(args, option) =~= option_values(output, option) + option_values(
        video,
        option,
    ) + option_values(audio, option) + option_values(end, option));
}

/// The recorder gets each setting once, as it is configured: the output if one
/// is, the codec, the frame rate, the bit rate in kbit/s, and the address of
/// the sink. It is told to record audio if and only if that is configured, from
/// the device that is named.
pub proof fn law_recorder_gets_the_settings(c: RtspSourceConfig, host: Seq<char>, port: u16)
    ensures
        ({
            let args = recorder_args(c, host, port);
            &&& option_values(args, "--output"@) == (match c.output {
                Some(name) => seq![name@],
                None => Seq::empty(),
            })
            &&& option_values(args, "--codec"@) == seq![c.codec@]
            &&& option_values(args, "--framerate"@).len() == 1
            &&& number::number(option_values(args, "--framerate"@)[0], u32::MAX as nat) == Some(
                c.framerate as nat,
            )
            &&& option_values(args, "--codec-param"@).len() == 3
            &&& option_values(args, "--codec-param"@)[0] == "preset=ultrafast"@
            &&& option_values(args, "--codec-param"@)[1] == "tune=zerolatency"@
            &&& is_bitrate(option_values(args, "--codec-param"@)[2], c.bitrate_kbps)
            &&& option_values(args, "--muxer"@) == seq!["rtp_mpegts"@]
            &&& option_values(args, "--pixel-format"@) == seq!["yuv420p"@]
            &&& option_values(args, "--audio-codec"@) == (if c.audio is Some {
                seq!["aac"@]
            } else {
                Seq::empty()
            })
            &&& option_values(args, "-f"@).len() == 1
            &&& is_media_url(option_values(args, "-f"@)[0], host, port)
            &&& lone_words(args) == seq!["--no-damage"@] + (match c.audio {
                Some(Some(device)) => seq!["--audio="@ + device@],
                Some(None) => seq!["--audio"@],
                None => Seq::empty(),
            })
        }),
{
    lemma_option_names(Seq::empty());
    lemma_recorder_options(c, host, port, "--output"@);
    lemma_recorder_options(c, host, port, "--codec"@);
    lemma_recorder_options(c, host, port, "--framerate"@);
    lemma_recorder_options(c, host, port, "--codec-param"@);
    lemma_recorder_options(c, host, port, "--muxer"@);
    lemma_recorder_options(c, host, port, "--pixel-format"@);
    lemma_recorder_options(c, host, port, "--audio-codec"@);
    lemma_recorder_options(c, host, port, "-f"@);
    lemma_video_options(c, "--output"@);
    lemma_video_options(c, "--codec"@);
    lemma_video_options(c, "--framerate"@);
    lemma_video_options(c, "--codec-param"@);
    lemma_video_options(c, "--muxer"@);
    lemma_video_options(c, "--pixel-format"@);
    lemma_video_options(c, "--audio-codec"@);
    lemma_video_options(c, "-f"@);
    lemma_audio_options(c.audio, "--output"@);
    lemma_audio_options(c.audio, "--codec"@);
    lemma_audio_options(c.audio, "--framerate"@);
    lemma_audio_options(c.audio, "--codec-param"@);
    lemma_audio_options(c.audio, "--muxer"@);
    lemma_audio_options(c.audio, "--pixel-format"@);
    lemma_audio_options(c.audio, "--audio-codec"@);
    lemma_audio_options(c.audio, "-f"@);
    number::law_decimal_is_read_back(c.framerate as nat, u32::MAX as nat);
    number::law_decimal_is_read_back(c.bitrate_kbps as nat, u32::MAX as nat);
    number::law_decimal_is_read_back(port as nat, u16::MAX as nat);
    let digits = number::decimal(c.bitrate_kbps as nat);
    assert(is_bitrate("b="@ + digits + "k"@, c.bitrate_kbps)) by {
        assert("b="@ + digits + "k"@ == "b="@ + digits + "k"@);
    }
    let p = number::decimal(port as nat);
    assert(media_url(host, port) == "rtp://"@ + host + ":"@ + p + "?pkt_size=1316"@);
}

/// Whether a parameter of the codec sets the bit rate.
pub open spec fn is_bitrate(param: Seq<char>, kbps: u32) -> bool {
    exists|digits: Seq<char>|
        param == "b="@ + digits + "k"@ && #[trigger] number::number(digits, u32::MAX as nat)
            == Some(kbps as nat)
}

/// Whether media goes to a port of a host.
pub open spec fn is_media_url(url: Seq<char>, host: Seq<char>, port: u16) -> bool {
    exists|digits: Seq<char>|
        url == "rtp://"@ + host + ":"@ + digits + "?pkt_size=1316"@ && #[trigger] number::number(
            digits,
            u16::MAX as nat,
        ) == Some(port as nat)
}

/// Settings that differ make different arguments.
pub proof fn law_settings_are_told_apart(
    a: RtspSourceConfig,
    b: RtspSourceConfig,
    host: Seq<char>,
    port: u16,
)
    requires
        recorder_args(a, host, port) == recorder_args(b, host, port),
    ensures
        a.framerate == b.framerate,
        a.codec@ == b.codec@,
        a.output is Some <==> b.output is Some,
        a.output is Some ==> a.output->Some_0@ == b.output->Some_0@,
        a.audio is Some <==> b.audio is Some,
{
    law_recorder_gets_the_settings(a, host, port);
    law_recorder_gets_the_settings(b, host, port);
    assert(seq![a.codec@][0] == seq![b.codec@][0]);
    if a.output is Some && b.output is Some {
        assert(seq![a.output->Some_0@][0] == seq![b.output->Some_0@][0]);
    }
}

/// A limit of zero means none, and any other one means itself.
pub proof fn law_limit(a: u64, b: u64)
    ensures
        limit(a) is None <==> a == 0,
        limit(a) == limit(b) ==> a == b,
        limit(a) matches Some(seconds) ==> seconds == a,
{
}

/// The complaint about video formats tells how many fields there are.
pub proof fn law_video_formats_error(count: nat, max: nat)
    requires
        count <= max,
    ensures
        video_formats_error(count).case == ErrorCase::VideoFormats,
        video_formats_error(count).contexts.len() == 0,
        exists|digits: Seq<char>|
            video_formats_error(count).message
                == "WFD video format string must contain 13 whitespace-separated fields, got "@
                + digits && #[trigger] number::number(digits, max) == Some(count),
{
    number::law_decimal_is_read_back(count, max);
    assert(number::number(number::decimal(count), max) == Some(count));
}

} // verus!
