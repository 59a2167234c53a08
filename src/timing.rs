use vstd::prelude::*;
use crate::srt::{CueView, SubtitleCue};
use crate::text::{
    chars_of, is_ws, pieces, split, split_from, split_ranges, starts_with, string_of_range, trim,
    trim_end, trim_range, trim_start,
};

verus! {

/// A cue is shown from its start, inclusive, to its end, exclusive.
pub open spec fn cue_active(c: CueView, t: u64) -> bool {
    c.start_ms <= t && t < c.end_ms
}

/// Whether `cue` is shown at `t`.
pub fn is_active(cue: &SubtitleCue, t: u64) -> (r: bool)
    ensures
        r == cue_active(cue@, t),
{
    cue.start_ms <= t && t < cue.end_ms
}

/// Positions of the cues shown at `t`, in list order.
pub open spec fn active_positions(cues: Seq<CueView>, t: u64) -> Seq<usize>
    decreases cues.len(),
{
    if cues.len() == 0 {
        Seq::empty()
    } else {
        let prev = active_positions(cues.drop_last(), t);
        if cue_active(cues.last(), t) {
            prev.push((cues.len() - 1) as usize)
        } else {
            prev
        }
    }
}

/// The positions in `cues` of those shown at `t`, in list order.
pub fn active_cues(cues: &[SubtitleCue], t: u64) -> (r: Vec<usize>)
    ensures
        r@ == active_positions(cues@.map_values(|c: SubtitleCue| c@), t),
{
    let ghost views = cues@.map_values(|c: SubtitleCue| c@);
    let mut out: Vec<usize> = Vec::new();
    let mut i: usize = 0;
    assert(views.take(0) =~= Seq::<CueView>::empty());
    while i < cues.len()
        invariant
            i <= cues@.len(),
            views == cues@.map_values(|c: SubtitleCue| c@),
            out@ == active_positions(views.take(i as int), t),
        decreases cues.len() - i,
    {
        assert(views.take(i + 1).drop_last() =~= views.take(i as int));
        assert(views.take(i + 1).last() == cues@[i as int]@);
        if is_active(&cues[i], t) {
            out.push(i);
        }
        i = i + 1;
    }
    assert(views.take(i as int) =~= views);
    out
}

/// Progress through an animation as the fraction `elapsed / duration`, with
/// `elapsed <= duration` and `duration > 0`.
#[derive(Clone, Copy, Debug, PartialEq, Eq, Structural)]
pub struct Progress {
    pub elapsed: u64,
    pub duration: u64,
}

/// When the character at `index` starts: each one waits `delay` after the one before.
pub open spec fn char_start(cue_start: u64, index: usize, delay: u64) -> int {
    cue_start + index * delay
}

/// Linear progress at `now` of an animation of `duration` that starts at `start`:
/// clamped to `[0, 1]`; with no duration, a step from 0 to 1 at `start`.
pub open spec fn linear_progress(now: u64, start: int, duration: u64) -> Progress {
    if duration > 0 {
        let elapsed = if now <= start {
            0
        } else if now - start >= duration {
            duration as int
        } else {
            now - start
        };
        Progress { elapsed: elapsed as u64, duration }
    } else {
        Progress { elapsed: if now >= start { 1 } else { 0 }, duration: 1 }
    }
}

/// The linear progress of the character at `index` of a cue starting at `cue_start`.
pub fn char_progress(index: usize, now: u64, cue_start: u64, duration: u64, delay: u64) -> (r:
    Progress)
    requires
        char_start(cue_start, index, delay) <= u64::MAX,
    ensures
        r == linear_progress(now, char_start(cue_start, index, delay), duration),
        r.elapsed <= r.duration,
        r.duration > 0,
{
    assert(index as int * delay as int <= u64::MAX) by (nonlinear_arith)
        requires
            cue_start + index * delay <= u64::MAX,
    ;
    let start = cue_start + index as u64 * delay;
    if duration > 0 {
        let elapsed = if now <= start {
            0
        } else if now - start >= duration {
            duration
        } else {
            now - start
        };
        Progress { elapsed, duration }
    } else {
        Progress { elapsed: if now >= start { 1 } else { 0 }, duration: 1 }
    }
}

/// A character has not started before its own start time, and has finished once its
/// whole duration has passed since then.
pub proof fn lemma_char_progress_ends(index: usize, now: u64, cue_start: u64, duration: u64, delay: u64)
    ensures
        now < char_start(cue_start, index, delay) ==> linear_progress(
            now,
            char_start(cue_start, index, delay),
            duration,
        ).elapsed == 0,
        now >= char_start(cue_start, index, delay) + duration ==> ({
            let p = linear_progress(now, char_start(cue_start, index, delay), duration);
            p.elapsed == p.duration
        }),
{
}

/// The named easing curves.
#[derive(Clone, Copy, Debug, PartialEq, Eq, Structural)]
pub enum EasingKind {
    Linear,
    Ease,
    EaseIn,
    EaseOut,
    EaseInOut,
    /// Any other text: a `cubic-bezier(...)` form, or else linear.
    Other,
}

pub open spec fn easing_kind_of(name: Seq<char>) -> EasingKind {
    let t = trim(name);
    if t == "linear"@ {
        EasingKind::Linear
    } else if t == "ease"@ {
        EasingKind::Ease
    } else if t == "ease-in"@ {
        EasingKind::EaseIn
    } else if t == "ease-out"@ {
        EasingKind::EaseOut
    } else if t == "ease-in-out"@ {
        EasingKind::EaseInOut
    } else {
        EasingKind::Other
    }
}

fn range_equals(v: &Vec<char>, lo: usize, hi: usize, word: &str) -> (r: bool)
    requires
        lo <= hi <= v@.len(),
    ensures
        r == (v@.subrange(lo as int, hi as int) == word@),
{
    let w = chars_of(word);
    if w.len() != hi - lo {
        return false;
    }
    let mut k: usize = 0;
    while k < w.len()
        invariant
            w@ == word@,
            w@.len() == hi - lo,
            lo <= hi <= v@.len(),
            k <= w@.len(),
            forall|j: int| 0 <= j < k ==> v@[lo + j] == w@[j],
        decreases w.len() - k,
    {
        if v[lo + k] != w[k] {
            assert(v@.subrange(lo as int, hi as int)[k as int] != w@[k as int]);
            return false;
        }
        k = k + 1;
    }
    assert(v@.subrange(lo as int, hi as int) =~= w@);
    true
}

/// Which named curve the easing text names, ignoring surrounding whitespace.
pub fn easing_kind(name: &str) -> (r: EasingKind)
    ensures
        r == easing_kind_of(name@),
{
    let v = chars_of(name);
    let (a, b) = trim_range(&v, 0, v.len());
    assert(v@.subrange(0, v@.len() as int) =~= v@);
    if range_equals(&v, a, b, "linear") {
        EasingKind::Linear
    } else if range_equals(&v, a, b, "ease") {
        EasingKind::Ease
    } else if range_equals(&v, a, b, "ease-in") {
        EasingKind::EaseIn
    } else if range_equals(&v, a, b, "ease-out") {
        EasingKind::EaseOut
    } else if range_equals(&v, a, b, "ease-in-out") {
        EasingKind::EaseInOut
    } else {
        EasingKind::Other
    }
}

/// The argument texts of `cubic-bezier(a, b, ...)`: the trimmed text must start with
/// `cubic-bezier(` and end with `)`; what lies between is split at commas and each
/// piece trimmed.
pub open spec fn bezier_args_of(easing: Seq<char>) -> Option<Seq<Seq<char>>> {
    let t = trim(easing);
    let p = "cubic-bezier("@;
    if t.len() >= p.len() + 1 && t.take(p.len() as int) == p && t.last() == ')' {
        let inner = t.subrange(p.len() as int, t.len() - 1);
        Some(split(inner, seq![',']).map_values(|s: Seq<char>| trim(s)))
    } else {
        None
    }
}

/// The argument texts of a `cubic-bezier(...)` easing, or `None` for any other text.
pub fn cubic_bezier_args(easing: &str) -> (r: Option<Vec<String>>)
    ensures
        match bezier_args_of(easing@) {
            Some(args) => r matches Some(v) && v@.map_values(|s: String| s@) == args,
            None => r is None,
        },
{
    let v = chars_of(easing);
    let (a, b) = trim_range(&v, 0, v.len());
    assert(v@.subrange(0, v@.len() as int) =~= v@);
    let ghost t = v@.subrange(a as int, b as int);
    let prefix = chars_of("cubic-bezier(");
    let pl = prefix.len();
    if b - a <= pl || v[b - 1] != ')' {
        assert(t.len() < pl + 1 || t.last() != ')');
        return None;
    }
    if !range_equals(&v, a, a + pl, "cubic-bezier(") {
        assert(t.take(pl as int) =~= v@.subrange(a as int, a + pl));
        return None;
    }
    assert(t.take(pl as int) =~= v@.subrange(a as int, a + pl));
    let comma = vec![','];
    assert(comma@ =~= seq![',']);
    let parts = split_ranges(&v, a + pl, b - 1, &comma);
    assert(t.subrange(pl as int, t.len() - 1) =~= v@.subrange(a + pl, b - 1));
    let ghost ps = split(v@.subrange(a + pl, b - 1), seq![',']);
    let mut out: Vec<String> = Vec::new();
    let mut k: usize = 0;
    while k < parts.len()
        invariant
            k <= parts@.len() == ps.len(),
            pieces(v@, parts@) == ps,
            crate::text::ranges_within(parts@, a + pl, b - 1),
            b <= v@.len(),
            out@.map_values(|s: String| s@) == ps.take(k as int).map_values(|s: Seq<char>| trim(s)),
        decreases parts.len() - k,
    {
        assert(ps[k as int] == v@.subrange(parts@[k as int].0 as int, parts@[k as int].1 as int));
        let (x, y) = trim_range(&v, parts[k].0, parts[k].1);
        let s = string_of_range(&v, x, y);
        let ghost before = out@;
        out.push(s);
        assert(out@.map_values(|s: String| s@) =~= before.map_values(|s: String| s@).push(
            trim(ps[k as int]),
        ));
        assert(ps.take(k + 1).map_values(|s: Seq<char>| trim(s)) =~= ps.take(k as int).map_values(
            |s: Seq<char>| trim(s),
        ).push(trim(ps[k as int])));
        k = k + 1;
    }
    assert(ps.take(k as int) =~= ps);
    Some(out)
}


/// `x` neither starts nor ends with whitespace.
pub open spec fn no_edge_ws(x: Seq<char>) -> bool {
    x.len() == 0 || (!is_ws(x[0]) && !is_ws(x.last()))
}

/// `x` holds no comma.
pub open spec fn no_comma(x: Seq<char>) -> bool {
    forall|i: int| 0 <= i < x.len() ==> #[trigger] x[i] != ','
}

proof fn lemma_split_piece(x: Seq<char>, rest: Seq<char>, cur: Seq<char>)
    requires
        no_comma(x),
    ensures
        split_from(x + seq![','] + rest, seq![','], cur) == seq![cur + x] + split_from(
            rest,
            seq![','],
            Seq::empty(),
        ),
    decreases x.len(),
{
    let s = x + seq![','] + rest;
    if x.len() == 0 {
        assert(s =~= seq![','] + rest);
        assert(s.take(1) =~= seq![',']);
        assert(starts_with(s, seq![',']));
        assert(s.skip(1) =~= rest);
        assert(cur + x =~= cur);
    } else {
        assert(s[0] == x[0]);
        assert(!starts_with(s, seq![','])) by {
            if starts_with(s, seq![',']) {
                assert(s.take(1)[0] == ',');
            }
        }
        assert(s.drop_first() =~= x.drop_first() + seq![','] + rest);
        assert(no_comma(x.drop_first())) by {
            assert forall|i: int| 0 <= i < x.drop_first().len() implies #[trigger] x.drop_first()[i]
                != ',' by {
                assert(x.drop_first()[i] == x[i + 1]);
            }
        }
        lemma_split_piece(x.drop_first(), rest, cur.push(x[0]));
        assert(cur.push(x[0]) + x.drop_first() =~= cur + x);
    }
}

proof fn lemma_split_last_piece(x: Seq<char>, cur: Seq<char>)
    requires
        no_comma(x),
    ensures
        split_from(x, seq![','], cur) == seq![cur + x],
    decreases x.len(),
{
    if x.len() == 0 {
        assert(cur + x =~= cur);
    } else {
        assert(!starts_with(x, seq![','])) by {
            if starts_with(x, seq![',']) {
                assert(x.take(1)[0] == ',');
            }
        }
        assert(no_comma(x.drop_first())) by {
            assert forall|i: int| 0 <= i < x.drop_first().len() implies #[trigger] x.drop_first()[i]
                != ',' by {
                assert(x.drop_first()[i] == x[i + 1]);
            }
        }
        lemma_split_last_piece(x.drop_first(), cur.push(x[0]));
        assert(cur.push(x[0]) + x.drop_first() =~= cur + x);
    }
}

proof fn lemma_trim_clean(x: Seq<char>)
    requires
        no_edge_ws(x),
    ensures
        trim(x) == x,
        trim(seq![' '] + x) == x,
{
    assert(trim_start(x) == x);
    assert(trim_end(x) == x);
    let y = seq![' '] + x;
    assert(is_ws(y[0]));
    assert(y.drop_first() =~= x);
    assert(trim_start(y) == trim_start(x));
}

/// The text of `cubic-bezier(a, b, c, d)` gives back `a`, `b`, `c` and `d` for any four
/// pieces without commas or surrounding whitespace.
pub proof fn lemma_bezier_args_round_trip(a: Seq<char>, b: Seq<char>, c: Seq<char>, d: Seq<char>)
    requires
        no_comma(a) && no_comma(b) && no_comma(c) && no_comma(d),
        no_edge_ws(a) && no_edge_ws(b) && no_edge_ws(c) && no_edge_ws(d),
    ensures
        bezier_args_of(
            "cubic-bezier("@ + a + seq![',', ' '] + b + seq![',', ' '] + c + seq![',', ' '] + d
                + seq![')'],
        ) == Some(seq![a, b, c, d]),
{
    reveal_strlit("cubic-bezier(");
    let p = "cubic-bezier("@;
    let sb = seq![' '] + b;
    let sc = seq![' '] + c;
    let sd = seq![' '] + d;
    let inner = a + seq![','] + (sb + seq![','] + (sc + seq![','] + sd));
    let s = "cubic-bezier("@ + a + seq![',', ' '] + b + seq![',', ' '] + c + seq![',', ' '] + d
        + seq![')'];
    assert(s =~= p + inner + seq![')']);
    assert(s[0] == 'c');
    assert(!is_ws(s[0]));
    assert(trim_start(s) == s);
    assert(s.last() == ')');
    assert(trim_end(s) == s);
    assert(trim(s) == s);
    assert(s.take(p.len() as int) =~= p);
    assert(s.subrange(p.len() as int, s.len() - 1) =~= inner);
    assert(no_comma(sb) && no_comma(sc) && no_comma(sd)) by {
        assert forall|i: int| 0 <= i < sb.len() implies #[trigger] sb[i] != ',' by {
            if i > 0 {
                assert(sb[i] == b[i - 1]);
            }
        }
        assert forall|i: int| 0 <= i < sc.len() implies #[trigger] sc[i] != ',' by {
            if i > 0 {
                assert(sc[i] == c[i - 1]);
            }
        }
        assert forall|i: int| 0 <= i < sd.len() implies #[trigger] sd[i] != ',' by {
            if i > 0 {
                assert(sd[i] == d[i - 1]);
            }
        }
    }
    let e = Seq::<char>::empty();
    lemma_split_piece(a, sb + seq![','] + (sc + seq![','] + sd), e);
    lemma_split_piece(sb, sc + seq![','] + sd, e);
    lemma_split_piece(sc, sd, e);
    lemma_split_last_piece(sd, e);
    assert(e + a =~= a);
    assert(e + sb =~= sb);
    assert(e + sc =~= sc);
    assert(e + sd =~= sd);
    let parts = split(inner, seq![',']);
    assert(parts =~= seq![a, sb, sc, sd]);
    lemma_trim_clean(a);
    lemma_trim_clean(b);
    lemma_trim_clean(c);
    lemma_trim_clean(d);
    assert(parts.map_values(|x: Seq<char>| trim(x)) =~= seq![a, b, c, d]);
}

} // verus!
