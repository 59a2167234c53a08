use vstd::prelude::*;
use vstd::string::*;
use crate::text::{decimal, push_decimal, push_str, string_from_chars};

verus! {

/// An extra audio track to mix into an export, placed at `start_ms` on the timeline.
pub struct AudioSource {
    pub path: String,
    pub start_ms: u64,
    pub end_ms: u64,
}

/// Whether an export goes through the audio remux stage: only when extra tracks are given.
pub fn needs_audio_mux(sources: &[AudioSource]) -> (r: bool)
    ensures
        r == (sources@.len() > 0),
{
    sources.len() > 0
}

/// `ms` as seconds with exactly three decimals.
pub open spec fn seconds_3dp(ms: nat) -> Seq<char> {
    let f = ms % 1000;
    decimal(ms / 1000) + seq!['.'] + (if f < 10 {
        seq!['0', '0']
    } else if f < 100 {
        seq!['0']
    } else {
        Seq::empty()
    }) + decimal(f)
}

/// The audio input labels `[1:a][2:a]...[k:a]`.
pub open spec fn audio_labels(k: nat) -> Seq<char>
    decreases k,
{
    if k == 0 {
        Seq::empty()
    } else {
        audio_labels((k - 1) as nat) + "["@ + decimal(k) + ":a]"@
    }
}

/// The filter that mixes `total` audio inputs into `[aout]`, lasting as long as the
/// longest one.
pub open spec fn mix_filter(total: nat) -> Seq<char> {
    audio_labels(total) + "amix=inputs="@ + decimal(total)
        + ":duration=longest:dropout_transition=2[aout]"@
}

/// The input arguments of one extra track: shifted by its start when that is not zero.
pub open spec fn source_input_args(s: AudioSource) -> Seq<Seq<char>> {
    (if s.start_ms > 0 {
        seq!["-itsoffset"@, seconds_3dp(s.start_ms as nat)]
    } else {
        Seq::empty()
    }) + seq!["-i"@, s.path@]
}

pub open spec fn sources_input_args(ss: Seq<AudioSource>) -> Seq<Seq<char>>
    decreases ss.len(),
{
    if ss.len() == 0 {
        Seq::empty()
    } else {
        sources_input_args(ss.drop_last()) + source_input_args(ss.last())
    }
}

/// How the audio is mapped: with one audio input its stream is copied over as is;
/// with more they are mixed.
pub open spec fn audio_map_args(total: nat, sample_rate: u32) -> Seq<Seq<char>> {
    if total == 1 {
        seq![
            "-map"@, "0:v:0"@, "-map"@, "1:a:0?"@, "-c:v"@, "copy"@, "-c:a"@, "aac"@, "-ar"@,
            decimal(sample_rate as nat),
        ]
    } else {
        seq![
            "-map"@, "0:v:0"@, "-filter_complex"@, mix_filter(total), "-map"@, "[aout]"@,
            "-c:v"@, "copy"@, "-c:a"@, "aac"@, "-ar"@, decimal(sample_rate as nat),
        ]
    }
}

/// The multiplexer's arguments: the rendered video, the original file's audio and the
/// extra tracks as inputs; video copied, audio encoded to AAC at `sample_rate`.
pub open spec fn remux_args_of(
    video_only: Seq<char>,
    original: Seq<char>,
    sources: Seq<AudioSource>,
    output: Seq<char>,
    sample_rate: u32,
) -> Seq<Seq<char>> {
    seq!["-y"@, "-i"@, video_only, "-i"@, original] + sources_input_args(sources)
        + audio_map_args((1 + sources.len()) as nat, sample_rate) + seq![output]
}

pub open spec fn arg_views(v: Seq<String>) -> Seq<Seq<char>> {
    v.map_values(|s: String| s@)
}

fn push_arg(args: &mut Vec<String>, s: &str)
    ensures
        arg_views(final(args)@) == arg_views(old(args)@).push(s@),
{
    args.push(String::from_str(s));
    assert(arg_views(final(args)@) =~= arg_views(old(args)@).push(s@));
}

fn push_chars_arg(args: &mut Vec<String>, c: &Vec<char>)
    ensures
        arg_views(final(args)@) == arg_views(old(args)@).push(c@),
{
    args.push(string_from_chars(c));
    assert(arg_views(final(args)@) =~= arg_views(old(args)@).push(c@));
}

fn decimal_arg(args: &mut Vec<String>, n: u64)
    ensures
        arg_views(final(args)@) == arg_views(old(args)@).push(decimal(n as nat)),
{
    let mut c: Vec<char> = Vec::new();
    push_decimal(&mut c, n);
    assert(c@ =~= decimal(n as nat));
    push_chars_arg(args, &c);
}

/// The filter text that mixes `total` audio inputs.
pub fn mix_filter_text(total: u64) -> (r: String)
    ensures
        r@ == mix_filter(total as nat),
{
    let mut c: Vec<char> = Vec::new();
    let mut k: u64 = 0;
    while k < total
        invariant
            k <= total,
            c@ == audio_labels(k as nat),
        decreases total - k,
    {
        push_str(&mut c, "[");
        push_decimal(&mut c, k + 1);
        push_str(&mut c, ":a]");
        k = k + 1;
    }
    push_str(&mut c, "amix=inputs=");
    push_decimal(&mut c, total);
    push_str(&mut c, ":duration=longest:dropout_transition=2[aout]");
    string_from_chars(&c)
}

/// The arguments that mix the rendered video with the original audio and extra tracks.
pub fn remux_args(
    video_only: &str,
    original: &str,
    sources: &[AudioSource],
    output: &str,
    sample_rate: u32,
) -> (r: Vec<String>)
    requires
        sources@.len() < u64::MAX,
    ensures
        arg_views(r@) == remux_args_of(video_only@, original@, sources@, output@, sample_rate),
{
    let mut args: Vec<String> = Vec::new();
    push_arg(&mut args, "-y");
    push_arg(&mut args, "-i");
    push_arg(&mut args, video_only);
    push_arg(&mut args, "-i");
    push_arg(&mut args, original);
    let ghost head = arg_views(args@);
    assert(head =~= seq!["-y"@, "-i"@, video_only@, "-i"@, original@]);
    let mut i: usize = 0;
    assert(sources@.take(0) =~= Seq::<AudioSource>::empty());
    while i < sources.len()
        invariant
            i <= sources@.len(),
            arg_views(args@) == head + sources_input_args(sources@.take(i as int)),
        decreases sources.len() - i,
    {
        let src = &sources[i];
        let ghost before = arg_views(args@);
        if src.start_ms > 0 {
            push_arg(&mut args, "-itsoffset");
            let mut c: Vec<char> = Vec::new();
            push_decimal(&mut c, src.start_ms / 1000);
            c.push('.');
            let f = src.start_ms % 1000;
            if f < 10 {
                c.push('0');
                c.push('0');
            } else if f < 100 {
                c.push('0');
            }
            push_decimal(&mut c, f);
            assert(c@ =~= seconds_3dp(src.start_ms as nat));
            push_chars_arg(&mut args, &c);
        }
        push_arg(&mut args, "-i");
        push_arg(&mut args, src.path.as_str());
        assert(sources@.take(i + 1).drop_last() =~= sources@.take(i as int));
        assert(arg_views(args@) =~= before + source_input_args(sources@[i as int]));
        i = i + 1;
    }
    assert(sources@.take(i as int) =~= sources@);
    let ghost mid = arg_views(args@);
    let total: u64 = 1 + sources.len() as u64;
    if total == 1 {
        push_arg(&mut args, "-map");
        push_arg(&mut args, "0:v:0");
        push_arg(&mut args, "-map");
        push_arg(&mut args, "1:a:0?");
    } else {
        push_arg(&mut args, "-map");
        push_arg(&mut args, "0:v:0");
        push_arg(&mut args, "-filter_complex");
        let filter = mix_filter_text(total);
        push_arg(&mut args, filter.as_str());
        push_arg(&mut args, "-map");
        push_arg(&mut args, "[aout]");
    }
    push_arg(&mut args, "-c:v");
    push_arg(&mut args, "copy");
    push_arg(&mut args, "-c:a");
    push_arg(&mut args, "aac");
    push_arg(&mut args, "-ar");
    decimal_arg(&mut args, sample_rate as u64);
    assert(arg_views(args@) =~= mid + audio_map_args(total as nat, sample_rate));
    push_arg(&mut args, output);
    assert(arg_views(args@) =~= remux_args_of(video_only@, original@, sources@, output@, sample_rate));
    args
}


/// The mixing filter is chosen exactly when there is more than one audio input; a
/// single input is copied as is.
pub proof fn lemma_mix_only_for_several_inputs(total: nat, sample_rate: u32)
    requires
        total >= 1,
    ensures
        (audio_map_args(total, sample_rate)[2] == "-filter_complex"@) == (total > 1),
        (audio_map_args(total, sample_rate)[3] == "1:a:0?"@) == (total == 1),
{
    reveal_strlit("-filter_complex");
    reveal_strlit("-map");
    reveal_strlit("1:a:0?");
    if total > 1 {
        assert(mix_filter(total).len() >= "amix=inputs="@.len());
        reveal_strlit("amix=inputs=");
        assert(mix_filter(total) != "1:a:0?"@) by {
            let m = mix_filter(total);
            if m == "1:a:0?"@ {
                assert(m.len() == 6);
            }
        }
    } else {
        assert("-map"@ != "-filter_complex"@) by {
            assert("-map"@.len() != "-filter_complex"@.len());
        }
    }
}

} // verus!
