use vstd::prelude::*;

verus! {

/// Distance between two times.
pub open spec fn dist(a: u64, b: u64) -> nat {
    if a >= b {
        (a - b) as nat
    } else {
        (b - a) as nat
    }
}

fn exec_dist(a: u64, b: u64) -> (r: u64)
    ensures
        r as nat == dist(a, b),
{
    if a >= b {
        a - b
    } else {
        b - a
    }
}

/// `i` is the first of the beats nearest to `t`.
pub open spec fn is_first_nearest(beats: Seq<u64>, t: u64, i: int) -> bool {
    &&& 0 <= i < beats.len()
    &&& forall|j: int| 0 <= j < beats.len() ==> dist(beats[i], t) <= dist(#[trigger] beats[j], t)
    &&& forall|j: int| 0 <= j < i ==> dist(beats[i], t) < dist(#[trigger] beats[j], t)
}

/// The position of the beat nearest to `time_ms`, the first one on a tie; `None` when
/// there are no beats.
pub fn find_nearest_beat(beat_times: &[u64], time_ms: u64) -> (r: Option<usize>)
    ensures
        match r {
            Some(i) => is_first_nearest(beat_times@, time_ms, i as int),
            None => beat_times@.len() == 0,
        },
{
    if beat_times.len() == 0 {
        return None;
    }
    let mut best: usize = 0;
    let mut best_d = exec_dist(beat_times[0], time_ms);
    let mut i: usize = 1;
    while i < beat_times.len()
        invariant
            1 <= i <= beat_times@.len(),
            best < i,
            best_d as nat == dist(beat_times@[best as int], time_ms),
            forall|j: int| 0 <= j < i ==> best_d <= dist(#[trigger] beat_times@[j], time_ms),
            forall|j: int| 0 <= j < best ==> best_d < dist(#[trigger] beat_times@[j], time_ms),
        decreases beat_times.len() - i,
    {
        let d = exec_dist(beat_times[i], time_ms);
        if d < best_d {
            best = i;
            best_d = d;
        }
        i = i + 1;
    }
    Some(best)
}

/// `time_ms` moved onto the nearest beat when that lies within `threshold_ms`.
pub open spec fn snapped(beats: Seq<u64>, t: u64, threshold: u64) -> u64 {
    if exists|i: int| is_first_nearest(beats, t, i) && dist(beats[i], t) <= threshold {
        beats[choose|i: int| is_first_nearest(beats, t, i)]
    } else {
        t
    }
}

proof fn lemma_first_nearest_unique(beats: Seq<u64>, t: u64, i: int, k: int)
    requires
        is_first_nearest(beats, t, i),
        is_first_nearest(beats, t, k),
    ensures
        i == k,
{
    if i < k {
        assert(dist(beats[k], t) < dist(beats[i], t));
    } else if k < i {
        assert(dist(beats[i], t) < dist(beats[k], t));
    }
}

/// Snaps a time to the nearest beat if it lies within `threshold_ms` of it.
pub fn snap_to_beat(beat_times: &[u64], time_ms: u64, threshold_ms: u64) -> (r: u64)
    ensures
        r == snapped(beat_times@, time_ms, threshold_ms),
{
    match find_nearest_beat(beat_times, time_ms) {
        Some(i) => {
            proof {
                let c = choose|c: int| is_first_nearest(beat_times@, time_ms, c);
                lemma_first_nearest_unique(beat_times@, time_ms, i as int, c);
            }
            if exec_dist(beat_times[i], time_ms) <= threshold_ms {
                beat_times[i]
            } else {
                proof {
                    assert forall|k: int| is_first_nearest(beat_times@, time_ms, k) implies dist(
                        beat_times@[k],
                        time_ms,
                    ) > threshold_ms by {
                        lemma_first_nearest_unique(beat_times@, time_ms, i as int, k);
                    }
                }
                time_ms
            }
        },
        None => time_ms,
    }
}

/// Positions of the beats within `[start, end]`, in order.
pub open spec fn positions_in_range(beats: Seq<u64>, start: u64, end: u64) -> Seq<usize>
    decreases beats.len(),
{
    if beats.len() == 0 {
        Seq::empty()
    } else {
        let prev = positions_in_range(beats.drop_last(), start, end);
        if start <= beats.last() && beats.last() <= end {
            prev.push((beats.len() - 1) as usize)
        } else {
            prev
        }
    }
}

/// The positions of the beats from `start_ms` to `end_ms`, both included.
pub fn beats_in_range(beat_times: &[u64], start_ms: u64, end_ms: u64) -> (r: Vec<usize>)
    ensures
        r@ == positions_in_range(beat_times@, start_ms, end_ms),
{
    let mut out: Vec<usize> = Vec::new();
    let mut i: usize = 0;
    assert(beat_times@.take(0) =~= Seq::<u64>::empty());
    while i < beat_times.len()
        invariant
            i <= beat_times@.len(),
            out@ == positions_in_range(beat_times@.take(i as int), start_ms, end_ms),
        decreases beat_times.len() - i,
    {
        assert(beat_times@.take(i + 1).drop_last() =~= beat_times@.take(i as int));
        let b = beat_times[i];
        if start_ms <= b && b <= end_ms {
            out.push(i);
        }
        i = i + 1;
    }
    assert(beat_times@.take(i as int) =~= beat_times@);
    out
}

} // verus!
