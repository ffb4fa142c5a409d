//! What holds of every capture: how the capture program is called, which mode and language are
//! taken, how the pool is laid out, and how the settings follow the environment.
use crate::asr::{inline_lines, reported, segments_joined, Decoded};
use crate::capture::{
    capture_args, device_name, failed_step, is_multi, language_asked, layout_for, CaptureFailure,
    CaptureModel, DecodeParams, Waiting,
};
use crate::config::{Config, EnvVars};
use crate::lines::{failure, level, transcript};
use crate::session::Phase;
use crate::text::{
    ascii_lower, is_blank, law_decimal_round_trip, lemma_trimmed_empty, trimmed,
    unsigned_value,
};
use vstd::prelude::*;
use vstd::string::*;

verus! {

/// The capture program is told the format, the device and the rate that were given: the argument
/// behind the first `-f` is the format, the one behind `-i` the device as the format wants it, and
/// the one behind `-ar` denotes the rate.
pub proof fn law_capture_is_told_its_settings(format: Seq<char>, device: Seq<char>, sr: nat)
    ensures
        ({
            let args = capture_args(format, device, sr);
            &&& args.len() == 27
            &&& forall|j: int| 0 <= j < 12 ==> #[trigger] args[j] != "-f"@
            &&& args[12] == "-f"@ && args[13] == format
            &&& args[18] == "-i"@ && args[19] == device_name(format, device)
            &&& args[22] == "-ar"@ && unsigned_value(args[23], sr) == Some(sr)
        }),
{
    let args = capture_args(format, device, sr);
    law_decimal_round_trip(sr, sr);
    reveal_strlit("-f");
    reveal_strlit("-hide_banner");
    reveal_strlit("-loglevel");
    reveal_strlit("error");
    reveal_strlit("-nostdin");
    reveal_strlit("-fflags");
    reveal_strlit("nobuffer");
    reveal_strlit("-flags");
    reveal_strlit("low_delay");
    reveal_strlit("-analyzeduration");
    reveal_strlit("0");
    reveal_strlit("-probesize");
    reveal_strlit("32");
    assert("-f"@[0] == '-' && "32"@[0] == '3');
    assert forall|j: int| 0 <= j < 12 implies #[trigger] args[j] != "-f"@ by {
        if j == 11 {
            assert(args[11] == "32"@);
        } else {
            assert(args[j].len() != 2);
        }
    }
}

/// The capture program writes one channel of sixteen bit samples to its standard output, which is
/// its last argument.
pub proof fn law_capture_writes_samples(format: Seq<char>, device: Seq<char>, sr: nat)
    ensures
        ({
            let args = capture_args(format, device, sr);
            &&& args[20] == "-ac"@ && args[21] == "1"@
            &&& args[24] == "-f"@ && args[25] == "s16le"@
            &&& args[26] == "pipe:1"@ && args.len() == 27
        }),
{
}

/// Nothing else that the capture program is told depends on the settings.
pub proof fn law_other_arguments_are_fixed(
    f1: Seq<char>,
    d1: Seq<char>,
    s1: nat,
    f2: Seq<char>,
    d2: Seq<char>,
    s2: nat,
    i: int,
)
    requires
        0 <= i < 27,
        i != 13,
        i != 19,
        i != 23,
    ensures
        capture_args(f1, d1, s1)[i] == capture_args(f2, d2, s2)[i],
{
}

/// The name of a device ends with the device that was given, and what stands before it is what
/// the format wants there, and only where it is not there yet.
pub proof fn law_device_name_is_the_device(format: Seq<char>, device: Seq<char>)
    ensures
        device.is_suffix_of(device_name(format, device)),
        format == "dshow"@ ==> "audio="@.is_prefix_of(device_name(format, device))
            && device_name(format, device).len() == device.len() + (if "audio="@.is_prefix_of(
            device,
        ) {
            0int
        } else {
            6
        }),
        format == "avfoundation"@ ==> ":"@.is_prefix_of(device_name(format, device))
            && device_name(format, device).len() == device.len() + (if ":"@.is_prefix_of(device) {
            0int
        } else {
            1
        }),
        format != "dshow"@ && format != "avfoundation"@ ==> device_name(format, device) == device,
{
    reveal_strlit("dshow");
    reveal_strlit("avfoundation");
    reveal_strlit("audio=");
    reveal_strlit(":");
    assert("dshow"@[0] != "avfoundation"@[0]);
    assert("audio="@.is_prefix_of("audio="@ + device));
    assert(":"@.is_prefix_of(":"@ + device));
    assert(device.is_suffix_of("audio="@ + device));
    assert(device.is_suffix_of(":"@ + device));
    assert(device.is_suffix_of(device));
}

/// A mode that is asked for by its name is taken, whatever the environment says; any other, or
/// none, leaves it to the environment.
pub proof fn law_mode_that_is_asked_for(mode: Option<Seq<char>>, env: Option<Seq<char>>)
    ensures
        is_multi(Some("multi"@), env),
        !is_multi(Some("single"@), env),
        mode != Some("multi"@) && mode != Some("single"@) ==> is_multi(mode, env) == is_multi(
            None,
            env,
        ),
        is_multi(None, Some("1"@)),
        !is_multi(None, None),
        env != Some("1"@) ==> !is_multi(None, env),
{
    reveal_strlit("multi");
    reveal_strlit("single");
    assert("multi"@.len() != "single"@.len());
}

/// A language that is asked for is taken, without the white space round it; one that is blank
/// asks for none, and so does `auto` in any case of ASCII, and nothing else.
pub proof fn law_language_that_is_asked_for(l: Seq<char>)
    ensures
        language_asked(None) is None,
        is_blank(l) ==> language_asked(Some(l)) is None,
        !is_blank(l) && trimmed(l).len() != 4 ==> language_asked(Some(l)) == Some(trimmed(l)),
        !is_blank(l) && ascii_lower(trimmed(l)) != "auto"@ ==> language_asked(Some(l)) == Some(
            trimmed(l),
        ),
        ascii_lower(trimmed(l)) == "auto"@ ==> language_asked(Some(l)) is None,
{
    lemma_trimmed_empty(l);
    reveal_strlit("auto");
    assert(ascii_lower(trimmed(l)).len() == trimmed(l).len());
}

/// There is a worker for every two cores, from four cores on, and every worker has its full share
/// of the cores.
pub proof fn law_layout_shares_the_cores(cores: nat)
    ensures
        cores >= 4 ==> 2 * layout_for(cores).0 <= cores < 2 * layout_for(cores).0 + 2,
        cores < 4 ==> layout_for(cores).0 == 2,
        cores >= 2 ==> cores < layout_for(cores).0 * (layout_for(cores).1 + 1),
        cores < 2 ==> layout_for(cores).1 == 1,
{
    let w = layout_for(cores).0;
    let t = layout_for(cores).1;
    if cores >= 2 {
        assert(cores / w >= 1) by (nonlinear_arith)
            requires
                cores >= w,
                w >= 2,
        ;
        vstd::arithmetic::div_mod::lemma_fundamental_div_mod(cores as int, w as int);
        vstd::arithmetic::div_mod::lemma_mod_pos_bound(cores as int, w as int);
        assert(w * (t + 1) == w * t + w) by (nonlinear_arith);
    } else {
        assert(1nat / 2nat == 0) by (nonlinear_arith);
    }
}

/// Waiting for something else leaves the rest of a capture as it is.
pub proof fn law_waiting_changes_nothing_else(m: CaptureModel, w: Waiting)
    ensures
        m.waiting(w).waits == w,
        m.waiting(w).rate == m.rate,
        m.waiting(w).chunk == m.chunk,
        m.waiting(w).pooled == m.pooled,
        m.waiting(w).next == m.next,
{
}

/// The segments of a chunk are put together in order, and one that could not be read adds
/// nothing.
pub proof fn law_segments_in_order(segs: Seq<Option<String>>, s: String)
    ensures
        segments_joined(Seq::empty()).len() == 0,
        segments_joined(segs.push(Some(s))) == segments_joined(segs) + s@,
        segments_joined(segs.push(None)) == segments_joined(segs),
{
    assert(segs.push(Some(s)).drop_last() =~= segs);
    assert(segs.push(None).drop_last() =~= segs);
    assert(segments_joined(segs) + Seq::<char>::empty() =~= segments_joined(segs));
}

/// What a worker reports of a chunk is its text without the white space round it, or what went
/// wrong, behind words that say so.
pub proof fn law_report_says_what_came(d: Decoded)
    ensures
        d matches Decoded::Segments(segs) ==> reported(d) == trimmed(segments_joined(segs@)),
        d matches Decoded::Failed(e) ==> e@.is_suffix_of(reported(d)) && reported(d).len()
            == e@.len() + 15,
{
    reveal_strlit("whisper error: ");
    if let Decoded::Failed(e) = d {
        assert(e@.is_suffix_of("whisper error: "@ + e@));
    }
}

/// Of a chunk that is recognized in line one line is broadcast: its text, unless it is blank, or
/// what went wrong.
pub proof fn law_inline_says_what_came(t0: Seq<char>, t1: Seq<char>, d: Decoded)
    ensures
        d matches Decoded::Failed(e) ==> inline_lines(t0, t1, d) == seq![
            failure("whisper full"@, e@),
        ],
        d matches Decoded::Segments(segs) ==> (if is_blank(segments_joined(segs@)) {
            inline_lines(t0, t1, d).len() == 0
        } else {
            inline_lines(t0, t1, d) == seq![
                transcript(t0, t1, trimmed(segments_joined(segs@))),
            ]
        }),
{
    if let Decoded::Segments(segs) = d {
        lemma_trimmed_empty(segments_joined(segs@));
    }
}

/// A setting that is given is taken as it is given, each from its own variable. A number counts
/// as given if it is one that fits.
pub proof fn law_given_settings_are_taken(c: Config, env: EnvVars, cpus: nat, n: nat)
    requires
        c.follows(env, cpus),
    ensures
        env.port matches Some(s) ==> unsigned_value(s@, 65_535) == Some(n) ==> c.port == n,
        env.sample_rate matches Some(s) ==> unsigned_value(s@, 0xffff_ffff) == Some(n)
            ==> c.sample_rate == n,
        env.chunk_ms matches Some(s) ==> unsigned_value(s@, 0xffff_ffff) == Some(n) ==> c.chunk_ms
            == n,
        env.whisper_threads matches Some(s) ==> unsigned_value(s@, usize::MAX as nat) == Some(n)
            ==> c.whisper_threads == n,
        env.ffmpeg matches Some(s) ==> c.ffmpeg@ == s@,
        env.ffmpeg_format matches Some(s) ==> c.ffmpeg_format@ == s@,
        env.ffmpeg_device matches Some(s) ==> c.ffmpeg_device@ == s@,
        env.whisper_model matches Some(s) ==> c.whisper_model@ == s@,
        env.translate_base matches Some(s) ==> c.translate_base@ == s@,
        env.coqui_base matches Some(s) ==> c.coqui_base@ == s@,
        env.coqui_voice matches Some(s) ==> c.coqui_voice@ == s@,
        env.coqui_speaker_wav matches Some(s) ==> c.coqui_speaker_wav@ == s@,
{
}

/// A setting that is not given has its default. A number that does not fit counts as not given.
pub proof fn law_other_settings_have_defaults(c: Config, env: EnvVars, cpus: nat)
    requires
        c.follows(env, cpus),
    ensures
        (match env.port {
            Some(s) => unsigned_value(s@, 65_535) is None,
            None => true,
        }) ==> c.port == 8080,
        (match env.sample_rate {
            Some(s) => unsigned_value(s@, 0xffff_ffff) is None,
            None => true,
        }) ==> c.sample_rate == 16_000,
        (match env.chunk_ms {
            Some(s) => unsigned_value(s@, 0xffff_ffff) is None,
            None => true,
        }) ==> c.chunk_ms == 300,
        (match env.whisper_threads {
            Some(s) => unsigned_value(s@, usize::MAX as nat) is None,
            None => true,
        }) && cpus >= 1 ==> c.whisper_threads == cpus,
        (match env.whisper_threads {
            Some(s) => unsigned_value(s@, usize::MAX as nat) is None,
            None => true,
        }) ==> c.whisper_threads >= 1,
        env.ffmpeg is None ==> c.ffmpeg@ == "ffmpeg"@,
        env.ffmpeg_format is None && env.platform is Windows ==> c.ffmpeg_format@ == "dshow"@,
        env.ffmpeg_format is None && env.platform is MacOs ==> c.ffmpeg_format@ == "avfoundation"@,
        env.ffmpeg_format is None && env.platform is Other ==> c.ffmpeg_format@ == "pulse"@,
        env.ffmpeg_device is None ==> c.ffmpeg_device@ == "default"@,
        env.whisper_model is None ==> c.whisper_model@ == "./models/ggml-base.en.bin"@,
        env.translate_base is None ==> c.translate_base@ == "http://127.0.0.1:5000"@,
        env.coqui_base is None ==> c.coqui_base@ == "http://127.0.0.1:8020"@,
        env.coqui_voice is None ==> c.coqui_voice@ == "English"@,
        env.coqui_speaker_wav is None ==> c.coqui_speaker_wav@ == "./test.wav"@,
{
}

/// A request to start changes nothing while there is a worker, and else gives one that is not
/// asked to stop; a request to stop always leaves none, and asks it to stop.
pub proof fn law_start_and_stop(p: Phase)
    ensures
        p.running ==> p.started() == p,
        !p.running ==> p.started().running && !p.started().stopping,
        !p.stopped().running && p.stopped().stopping,
{
}

/// The level that a capture tells is that of its own rate and length of a chunk.
pub proof fn law_level_of_the_capture(m: CaptureModel, t0: Seq<char>, db: Seq<char>, voice: bool)
    ensures
        m.level(t0, db, voice) == level(t0, db, voice, m.rate as nat, m.chunk as nat),
{
}

/// The recognizer only writes down what it hears: it does not translate, takes each chunk by
/// itself and as one segment, and prints nothing.
pub proof fn law_recognizer_writes_down(p: DecodeParams)
    requires
        p.plain(),
    ensures
        !p.translate,
        p.no_context && p.single_segment && p.no_timestamps,
        !p.print_special && !p.print_progress && !p.print_realtime,
        p.max_len == 120,
{
}

/// What went wrong can be told from the step that is named.
pub proof fn law_failed_steps_differ(a: CaptureFailure, b: CaptureFailure)
    ensures
        failed_step(a) == failed_step(b) ==> a == b,
{
    reveal_strlit("spawn ffmpeg");
    reveal_strlit("load whisper");
    reveal_strlit("whisper state");
    assert("spawn ffmpeg"@[0] == 's' && "load whisper"@[0] == 'l' && "whisper state"@[0] == 'w');
}

}
