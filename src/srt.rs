use vstd::prelude::*;
use crate::text::{
    chars_of, lemma_parse_unsigned_bound, pieces, ranges_within, string_from_chars, lemma_pow10_pos, message, pow10, parse_unsigned, parse_unsigned_range, split, split_ranges, trim, trim_range,
};

verus! {

/// One timed subtitle entry.
#[derive(Debug, Clone, PartialEq)]
pub struct SubtitleCue {
    pub index: usize,
    pub start_ms: u64,
    pub end_ms: u64,
    pub text: String,
}

/// What a cue holds, with its text as characters.
pub struct CueView {
    pub index: usize,
    pub start_ms: u64,
    pub end_ms: u64,
    pub text: Seq<char>,
}

impl View for SubtitleCue {
    type V = CueView;

    open spec fn view(&self) -> CueView {
        CueView { index: self.index, start_ms: self.start_ms, end_ms: self.end_ms, text: self.text@ }
    }
}

/// The fraction of a second written with `len` digits, in milliseconds: shorter
/// fractions are padded, longer ones cut.
pub open spec fn scale_millis(ms: nat, len: nat) -> nat {
    if len == 1 {
        ms * 100
    } else if len == 2 {
        ms * 10
    } else if len == 3 {
        ms
    } else {
        ms / pow10((len - 3) as nat)
    }
}

/// `s` with every `,` replaced by `.`.
pub open spec fn commas_to_dots(s: Seq<char>) -> Seq<char> {
    s.map_values(|c: char| if c == ',' { '.' } else { c })
}

/// The milliseconds part of a timestamp, from the pieces of `SS.mmm`.
pub open spec fn millis_part(sec_parts: Seq<Seq<char>>) -> Result<nat, Seq<char>> {
    if sec_parts.len() > 1 {
        match parse_unsigned(sec_parts[1], u64::MAX as nat) {
            None => Err("Invalid milliseconds: "@ + sec_parts[1]),
            Some(ms) => Ok(scale_millis(ms, sec_parts[1].len())),
        }
    } else {
        Ok(0)
    }
}

/// An SRT timestamp `HH:MM:SS,mmm` in milliseconds, or the message that rejects it.
pub open spec fn timestamp_value(raw: Seq<char>) -> Result<u64, Seq<char>> {
    let t = commas_to_dots(trim(raw));
    let parts = split(t, seq![':']);
    if parts.len() != 3 {
        Err("Invalid timestamp format: "@ + t)
    } else {
        match parse_unsigned(parts[0], u64::MAX as nat) {
            None => Err("Invalid hours: "@ + parts[0]),
            Some(h) => match parse_unsigned(parts[1], u64::MAX as nat) {
                None => Err("Invalid minutes: "@ + parts[1]),
                Some(m) => {
                    let sp = split(parts[2], seq!['.']);
                    match parse_unsigned(sp[0], u64::MAX as nat) {
                        None => Err("Invalid seconds: "@ + sp[0]),
                        Some(sec) => match millis_part(sp) {
                            Err(e) => Err(e),
                            Ok(ms) => {
                                let total = h * 3_600_000 + m * 60_000 + sec * 1_000 + ms;
                                if total <= u64::MAX {
                                    Ok(total as u64)
                                } else {
                                    Err("Timestamp out of range: "@ + t)
                                }
                            },
                        },
                    }
                },
            },
        }
    }
}

fn div_pow10(x: u64, k: usize) -> (r: u64)
    ensures
        r as nat == x as nat / pow10(k as nat),
{
    let mut r = x;
    let mut i: usize = 0;
    assert(pow10(0) == 1);
    assert(x as nat / 1 == x as nat);
    while i < k
        invariant
            i <= k,
            r as nat == x as nat / pow10(i as nat),
        decreases k - i,
    {
        proof {
            lemma_pow10_pos(i as nat);
            vstd::arithmetic::div_mod::lemma_div_denominator(x as int, pow10(i as nat) as int, 10);
            assert(pow10((i + 1) as nat) == pow10(i as nat) * 10);
        }
        r = r / 10;
        i = i + 1;
    }
    r
}

fn commas_to_dots_range(v: &Vec<char>, lo: usize, hi: usize) -> (r: Vec<char>)
    requires
        lo <= hi <= v@.len(),
    ensures
        r@ == commas_to_dots(v@.subrange(lo as int, hi as int)),
{
    let mut out: Vec<char> = Vec::new();
    let mut i = lo;
    while i < hi
        invariant
            lo <= i <= hi <= v@.len(),
            out@ =~= commas_to_dots(v@.subrange(lo as int, i as int)),
        decreases hi - i,
    {
        let c = v[i];
        if c == ',' {
            out.push('.');
        } else {
            out.push(c);
        }
        i = i + 1;
    }
    out
}

/// Parses the SRT timestamp in `v[lo..hi]`.
pub fn parse_timestamp_range(v: &Vec<char>, lo: usize, hi: usize) -> (r: Result<u64, String>)
    requires
        lo <= hi <= v@.len(),
    ensures
        match r {
            Ok(n) => timestamp_value(v@.subrange(lo as int, hi as int)) == Ok::<u64, Seq<char>>(n),
            Err(e) => timestamp_value(v@.subrange(lo as int, hi as int)) == Err::<u64, Seq<char>>(
                e@,
            ),
        },
{
    let (a, b) = trim_range(v, lo, hi);
    let t = commas_to_dots_range(v, a, b);
    let tn = t.len();
    let colon = vec![':'];
    assert(colon@ =~= seq![':']);
    let parts = split_ranges(&t, 0, tn, &colon);
    assert(t@.subrange(0, tn as int) =~= t@);
    if parts.len() != 3 {
        return Err(message("Invalid timestamp format: ", &t, 0, tn));
    }
    let ghost ps = split(t@, seq![':']);
    assert(ps[0] == t@.subrange(parts@[0].0 as int, parts@[0].1 as int));
    assert(ps[1] == t@.subrange(parts@[1].0 as int, parts@[1].1 as int));
    assert(ps[2] == t@.subrange(parts@[2].0 as int, parts@[2].1 as int));
    let (h0, h1) = parts[0];
    let (m0, m1) = parts[1];
    let (s0, s1) = parts[2];
    let hours = match parse_unsigned_range(&t, h0, h1, u64::MAX) {
        Some(h) => h,
        None => {
            return Err(message("Invalid hours: ", &t, h0, h1));
        },
    };
    let minutes = match parse_unsigned_range(&t, m0, m1, u64::MAX) {
        Some(m) => m,
        None => {
            return Err(message("Invalid minutes: ", &t, m0, m1));
        },
    };
    let dot = vec!['.'];
    assert(dot@ =~= seq!['.']);
    let sec_parts = split_ranges(&t, s0, s1, &dot);
    let ghost sp = split(ps[2], seq!['.']);
    assert(sp[0] == t@.subrange(sec_parts@[0].0 as int, sec_parts@[0].1 as int));
    let (x0, x1) = sec_parts[0];
    let seconds = match parse_unsigned_range(&t, x0, x1, u64::MAX) {
        Some(s) => s,
        None => {
            return Err(message("Invalid seconds: ", &t, x0, x1));
        },
    };
    let mut millis: u64 = 0;
    if sec_parts.len() > 1 {
        assert(sp[1] == t@.subrange(sec_parts@[1].0 as int, sec_parts@[1].1 as int));
        let (y0, y1) = sec_parts[1];
        let ms = match parse_unsigned_range(&t, y0, y1, u64::MAX) {
            Some(ms) => ms,
            None => {
                return Err(message("Invalid milliseconds: ", &t, y0, y1));
            },
        };
        let len = y1 - y0;
        proof {
            lemma_parse_unsigned_bound(t@.subrange(y0 as int, y1 as int), u64::MAX as nat);
            assert(pow10(0) == 1);
            assert(pow10(1) == 10);
            assert(pow10(2) == 100);
        }
        if len == 1 {
            millis = ms * 100;
        } else if len == 2 {
            millis = ms * 10;
        } else if len == 3 {
            millis = ms;
        } else {
            millis = div_pow10(ms, len - 3);
        }
    }
    if hours > (u64::MAX - millis) / 3_600_000 {
        return Err(message("Timestamp out of range: ", &t, 0, tn));
    }
    let mut total: u64 = hours * 3_600_000 + millis;
    if minutes > (u64::MAX - total) / 60_000 {
        return Err(message("Timestamp out of range: ", &t, 0, tn));
    }
    total = total + minutes * 60_000;
    if seconds > (u64::MAX - total) / 1_000 {
        return Err(message("Timestamp out of range: ", &t, 0, tn));
    }
    total = total + seconds * 1_000;
    Ok(total)
}

/// Parses an SRT timestamp (`HH:MM:SS,mmm`) to milliseconds.
pub fn parse_timestamp(ts: &str) -> (r: Result<u64, String>)
    ensures
        match r {
            Ok(n) => timestamp_value(ts@) == Ok::<u64, Seq<char>>(n),
            Err(e) => timestamp_value(ts@) == Err::<u64, Seq<char>>(e@),
        },
{
    let v = chars_of(ts);
    assert(v@.subrange(0, v@.len() as int) =~= ts@);
    parse_timestamp_range(&v, 0, v.len())
}


/// `s` with each `\r\n` and each lone `\r` turned into `\n`.
pub open spec fn normalize_newlines(s: Seq<char>) -> Seq<char>
    decreases s.len(),
{
    if s.len() == 0 {
        s
    } else if s[0] == '\r' && s.len() >= 2 && s[1] == '\n' {
        seq!['\n'] + normalize_newlines(s.skip(2))
    } else if s[0] == '\r' {
        seq!['\n'] + normalize_newlines(s.drop_first())
    } else {
        seq![s[0]] + normalize_newlines(s.drop_first())
    }
}

/// The lines joined with `\n` between them.
pub open spec fn join_lines(ls: Seq<Seq<char>>) -> Seq<char>
    decreases ls.len(),
{
    if ls.len() == 0 {
        Seq::empty()
    } else if ls.len() == 1 {
        ls[0]
    } else {
        join_lines(ls.drop_last()) + seq!['\n'] + ls.last()
    }
}

/// What one blank-line separated block of an SRT file yields.
pub enum BlockOutcome {
    Skip,
    Cue(CueView),
    Fail(Seq<char>),
}

/// A block: an index line, a `start --> end` line and one or more lines of text.
/// Blocks that are blank or have fewer than three lines are skipped.
pub open spec fn block_outcome(block: Seq<char>) -> BlockOutcome {
    let t = trim(block);
    let lines = split(t, seq!['\n']);
    if t.len() == 0 || lines.len() < 3 {
        BlockOutcome::Skip
    } else {
        match parse_unsigned(trim(lines[0]), usize::MAX as nat) {
            None => BlockOutcome::Fail("Invalid subtitle index: "@ + lines[0]),
            Some(index) => {
                let timing = trim(lines[1]);
                let arrows = split(timing, seq!['-', '-', '>']);
                if arrows.len() != 2 {
                    BlockOutcome::Fail("Invalid timing line: "@ + timing)
                } else {
                    match timestamp_value(arrows[0]) {
                        Err(e) => BlockOutcome::Fail(e),
                        Ok(start_ms) => match timestamp_value(arrows[1]) {
                            Err(e) => BlockOutcome::Fail(e),
                            Ok(end_ms) => BlockOutcome::Cue(
                                CueView {
                                    index: index as usize,
                                    start_ms,
                                    end_ms,
                                    text: join_lines(lines.skip(2)),
                                },
                            ),
                        },
                    }
                }
            },
        }
    }
}

/// The cues of a run of blocks, or the message of the first block that fails.
pub open spec fn blocks_cues(blocks: Seq<Seq<char>>) -> Result<Seq<CueView>, Seq<char>>
    decreases blocks.len(),
{
    if blocks.len() == 0 {
        Ok(Seq::empty())
    } else {
        match block_outcome(blocks[0]) {
            BlockOutcome::Skip => blocks_cues(blocks.drop_first()),
            BlockOutcome::Fail(e) => Err(e),
            BlockOutcome::Cue(c) => prepend_cues(seq![c], blocks_cues(blocks.drop_first())),
        }
    }
}

pub open spec fn prepend_cues(c: Seq<CueView>, r: Result<Seq<CueView>, Seq<char>>) -> Result<
    Seq<CueView>,
    Seq<char>,
> {
    match r {
        Ok(x) => Ok(c + x),
        Err(e) => Err(e),
    }
}

/// The cues of an SRT document, in order of appearance, or the message of the
/// first malformed block.
pub open spec fn srt_cues(content: Seq<char>) -> Result<Seq<CueView>, Seq<char>> {
    blocks_cues(split(normalize_newlines(content), seq!['\n', '\n']))
}

pub open spec fn cue_views(v: Seq<SubtitleCue>) -> Seq<CueView> {
    v.map_values(|c: SubtitleCue| c@)
}

fn normalize_newlines_vec(v: &Vec<char>) -> (r: Vec<char>)
    ensures
        r@ == normalize_newlines(v@),
{
    let mut out: Vec<char> = Vec::new();
    let mut i: usize = 0;
    let n = v.len();
    assert(v@.skip(0) =~= v@);
    while i < n
        invariant
            i <= n == v@.len(),
            out@ + normalize_newlines(v@.skip(i as int)) == normalize_newlines(v@),
        decreases n - i,
    {
        let ghost rest = v@.skip(i as int);
        let ghost o = out@;
        if v[i] == '\r' && i + 1 < n && v[i + 1] == '\n' {
            out.push('\n');
            assert(rest.skip(2) =~= v@.skip(i + 2));
            assert(o + (seq!['\n'] + normalize_newlines(rest.skip(2))) =~= out@ + normalize_newlines(v@.skip(i + 2)));
            i = i + 2;
        } else {
            if v[i] == '\r' {
                out.push('\n');
            } else {
                out.push(v[i]);
            }
            assert(rest.drop_first() =~= v@.skip(i + 1));
            assert(o + (seq![out@.last()] + normalize_newlines(rest.drop_first())) =~= out@ + normalize_newlines(v@.skip(i + 1)));
            i = i + 1;
        }
    }
    assert(v@.skip(n as int) =~= Seq::<char>::empty());
    assert(out@ + Seq::<char>::empty() =~= out@);
    out
}

/// The outcome of the block `v[lo..hi]`.
fn parse_block(v: &Vec<char>, lo: usize, hi: usize) -> (r: Result<Option<SubtitleCue>, String>)
    requires
        lo <= hi <= v@.len(),
    ensures
        match block_outcome(v@.subrange(lo as int, hi as int)) {
            BlockOutcome::Skip => r == Ok::<Option<SubtitleCue>, String>(None),
            BlockOutcome::Cue(c) => r matches Ok(Some(cue)) && cue@ == c,
            BlockOutcome::Fail(e) => r matches Err(m) && m@ == e,
        },
{
    let (a, b) = trim_range(v, lo, hi);
    let nl = vec!['\n'];
    assert(nl@ =~= seq!['\n']);
    let lines = split_ranges(v, a, b, &nl);
    let ghost ls = split(v@.subrange(a as int, b as int), seq!['\n']);
    if a == b || lines.len() < 3 {
        return Ok(None);
    }
    assert(ls[0] == v@.subrange(lines@[0].0 as int, lines@[0].1 as int));
    assert(ls[1] == v@.subrange(lines@[1].0 as int, lines@[1].1 as int));
    let (l0, l1) = lines[0];
    let (i0, i1) = trim_range(v, l0, l1);
    let index = match parse_unsigned_range(v, i0, i1, usize::MAX as u64) {
        Some(n) => n as usize,
        None => {
            return Err(message("Invalid subtitle index: ", v, l0, l1));
        },
    };
    let (k0, k1) = lines[1];
    let (t0, t1) = trim_range(v, k0, k1);
    let arrow = vec!['-', '-', '>'];
    assert(arrow@ =~= seq!['-', '-', '>']);
    let arrows = split_ranges(v, t0, t1, &arrow);
    if arrows.len() != 2 {
        return Err(message("Invalid timing line: ", v, t0, t1));
    }
    let ghost ar = split(v@.subrange(t0 as int, t1 as int), seq!['-', '-', '>']);
    assert(ar[0] == v@.subrange(arrows@[0].0 as int, arrows@[0].1 as int));
    assert(ar[1] == v@.subrange(arrows@[1].0 as int, arrows@[1].1 as int));
    let start_ms = parse_timestamp_range(v, arrows[0].0, arrows[0].1)?;
    let end_ms = parse_timestamp_range(v, arrows[1].0, arrows[1].1)?;
    let mut text: Vec<char> = Vec::new();
    let mut k: usize = 2;
    let nlines = lines.len();
    assert(ls.skip(2).subrange(0, 0) =~= Seq::<Seq<char>>::empty());
    while k < nlines
        invariant
            2 <= k <= nlines == lines@.len() == ls.len(),
            lines@.len() >= 3,
            pieces(v@, lines@) == ls,
            ranges_within(lines@, a as int, b as int),
            b <= v@.len(),
            text@ == join_lines(ls.skip(2).subrange(0, k - 2)),
        decreases nlines - k,
    {
        let ghost prev = ls.skip(2).subrange(0, k - 2);
        let ghost next = ls.skip(2).subrange(0, k + 1 - 2);
        assert(next.drop_last() =~= prev);
        assert(next.last() == v@.subrange(lines@[k as int].0 as int, lines@[k as int].1 as int));
        if k > 2 {
            text.push('\n');
        }
        let (p0, p1) = lines[k];
        let mut j = p0;
        let ghost base = text@;
        while j < p1
            invariant
                p0 <= j <= p1 <= v@.len(),
                text@ == base + v@.subrange(p0 as int, j as int),
            decreases p1 - j,
        {
            text.push(v[j]);
            assert(base + v@.subrange(p0 as int, j + 1) =~= (base + v@.subrange(p0 as int, j as int)).push(v@[j as int]));
            j = j + 1;
        }
        if k == 2 {
            assert(text@ =~= join_lines(next));
        } else {
            assert(text@ =~= join_lines(next));
        }
        k = k + 1;
    }
    assert(ls.skip(2).subrange(0, nlines - 2) =~= ls.skip(2));
    let text = string_from_chars(&text);
    Ok(Some(SubtitleCue { index, start_ms, end_ms, text }))
}

/// Parses SRT content into its cues, in order of appearance.
pub fn parse_srt(content: &str) -> (r: Result<Vec<SubtitleCue>, String>)
    ensures
        match srt_cues(content@) {
            Ok(cs) => r matches Ok(v) && cue_views(v@) == cs,
            Err(e) => r matches Err(m) && m@ == e,
        },
{
    let raw = chars_of(content);
    let v = normalize_newlines_vec(&raw);
    let sep = vec!['\n', '\n'];
    assert(sep@ =~= seq!['\n', '\n']);
    let n = v.len();
    let blocks = split_ranges(&v, 0, n, &sep);
    assert(v@.subrange(0, n as int) =~= v@);
    let ghost bs = split(v@, seq!['\n', '\n']);
    let mut cues: Vec<SubtitleCue> = Vec::new();
    let mut k: usize = 0;
    assert(bs.skip(0) =~= bs);
    assert(cue_views(cues@) + Seq::<CueView>::empty() =~= Seq::<CueView>::empty());
    while k < blocks.len()
        invariant
            k <= blocks@.len() == bs.len(),
            pieces(v@, blocks@) == bs,
            ranges_within(blocks@, 0, n as int),
            n == v@.len(),
            bs == split(normalize_newlines(content@), seq!['\n', '\n']),
            prepend_cues(cue_views(cues@), blocks_cues(bs.skip(k as int))) == srt_cues(content@),
        decreases blocks.len() - k,
    {
        let ghost rest = bs.skip(k as int);
        assert(rest[0] == v@.subrange(blocks@[k as int].0 as int, blocks@[k as int].1 as int));
        assert(rest.drop_first() =~= bs.skip(k + 1));
        let ghost before = cue_views(cues@);
        match parse_block(&v, blocks[k].0, blocks[k].1) {
            Ok(Some(c)) => {
                cues.push(c);
                assert(cue_views(cues@) =~= before + seq![c@]);
                assert(forall|x: Seq<CueView>| #![auto] before + (seq![c@] + x) =~= (before + seq![c@]) + x);
            },
            Ok(None) => {},
            Err(e) => {
                return Err(e);
            },
        }
        k = k + 1;
    }
    assert(bs.skip(k as int) =~= Seq::<Seq<char>>::empty());
    assert(cue_views(cues@) + Seq::<CueView>::empty() =~= cue_views(cues@));
    Ok(cues)
}

} // verus!
