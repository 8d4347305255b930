//! Where the speech is in a recording, worked out from which 30 ms frames are
//! loud. Deciding whether one frame is loud is floating-point maths on the
//! samples and happens before these functions are called; everything from
//! the flags onwards is here: the long pauses, the part of a recording worth
//! keeping, and which samples survive when the pauses are shortened.

use vstd::prelude::*;

verus! {

/// Samples in one frame: 30 ms at 16 kHz.
pub const FRAME: usize = 480;

/// Frames of silence kept either side of the speech when the ends are cut,
/// about half a second, so no word loses its start.
pub const EDGE_KEEP_FRAMES: usize = 16;

/// How much of a shortened pause is left behind, about 0.3 s, split evenly
/// across the join.
pub const KEEP_PAUSE_FRAMES: usize = 10;

/// Samples blended across a join so that it does not click.
pub const JOIN_FADE: usize = 80;

/// What the settings say pause-shortening should do.
#[derive(Clone, Copy, Debug)]
pub struct PauseRules {
    /// A pause has to last at least this long before any of it is removed.
    pub cutoff_ms: u32,
    /// Leave this long after the first spoken word alone, or `None` to allow
    /// cutting anywhere.
    pub protect_opening_ms: Option<u32>,
}

/// The index of the first loud frame, or the number of frames when none is.
pub open spec fn first_loud(loud: Seq<bool>) -> int
    decreases loud.len(),
{
    if loud.len() == 0 {
        0
    } else if loud[0] {
        0
    } else {
        1 + first_loud(loud.drop_first())
    }
}

/// The index of the last loud frame, or -1 when none is.
pub open spec fn last_loud(loud: Seq<bool>) -> int
    decreases loud.len(),
{
    if loud.len() == 0 {
        -1
    } else if loud.last() {
        loud.len() - 1
    } else {
        last_loud(loud.drop_last())
    }
}

/// A pause has to be at least this many frames long: the cutoff, but never
/// shorter than what is kept of a pause plus one frame.
pub open spec fn min_pause_frames(rules: PauseRules) -> int {
    let by_cutoff = rules.cutoff_ms as int / 30;
    if by_cutoff > KEEP_PAUSE_FRAMES + 1 { by_cutoff } else { KEEP_PAUSE_FRAMES + 1 }
}

/// Frames `start..end` are all quiet, with speech right before and right after.
pub open spec fn is_quiet_run(loud: Seq<bool>, start: int, end: int) -> bool {
    &&& 1 <= start < end < loud.len()
    &&& loud[start - 1]
    &&& loud[end]
    &&& forall|k: int| start <= k < end ==> !loud[k]
}

/// Frames `start..end` are a pause that pause-shortening may shorten: quiet,
/// between two spoken frames, long enough, and not inside the protected
/// opening, which is counted from the first spoken frame.
pub open spec fn is_long_pause(loud: Seq<bool>, rules: PauseRules, start: int, end: int) -> bool {
    &&& is_quiet_run(loud, start, end)
    &&& end - start >= min_pause_frames(rules)
    &&& match rules.protect_opening_ms {
        Some(ms) => start >= first_loud(loud) + ms as int / 30,
        None => true,
    }
}

/// `pauses` is exactly the set of long pauses, in order.
pub open spec fn are_the_long_pauses(
    loud: Seq<bool>,
    rules: PauseRules,
    pauses: Seq<(usize, usize)>,
) -> bool {
    &&& forall|j: int|
        0 <= j < pauses.len() ==> #[trigger] is_long_pause(loud, rules, pauses[j].0 as int, pauses[j].1 as int)
    &&& forall|j: int, k: int| 0 <= j < k < pauses.len() ==> #[trigger] pauses[j].1 < #[trigger] pauses[k].0
    &&& forall|s: int, e: int|
        #[trigger] is_long_pause(loud, rules, s, e) ==> exists|j: int|
            0 <= j < pauses.len() && pauses[j] == (s as usize, e as usize)
}

proof fn lemma_first_loud(loud: Seq<bool>)
    ensures
        0 <= first_loud(loud) <= loud.len(),
        first_loud(loud) < loud.len() ==> loud[first_loud(loud)],
        forall|k: int| 0 <= k < first_loud(loud) ==> !loud[k],
    decreases loud.len(),
{
    if loud.len() > 0 && !loud[0] {
        let rest = loud.drop_first();
        lemma_first_loud(rest);
        assert forall|k: int| 0 <= k < first_loud(loud) implies !loud[k] by {
            if k > 0 {
                assert(loud[k] == rest[k - 1]);
            }
        }
    }
}

proof fn lemma_last_loud(loud: Seq<bool>)
    ensures
        -1 <= last_loud(loud) < loud.len(),
        last_loud(loud) >= 0 ==> loud[last_loud(loud)],
        forall|k: int| last_loud(loud) < k < loud.len() ==> !loud[k],
    decreases loud.len(),
{
    if loud.len() > 0 && !loud.last() {
        let init = loud.drop_last();
        lemma_last_loud(init);
        assert forall|k: int| last_loud(loud) < k < loud.len() implies !loud[k] by {
            if k < loud.len() - 1 {
                assert(loud[k] == init[k]);
            }
        }
    }
}

/// The long pauses of a recording, as (first quiet frame, first loud frame
/// after it), given which of its frames are loud. Only stretches with speech
/// on both sides count, so the quiet head and tail are never among them.
pub fn long_pauses(loud: &Vec<bool>, rules: PauseRules) -> (pauses: Vec<(usize, usize)>)
    ensures
        are_the_long_pauses(loud@, rules, pauses@),
{
    let n = loud.len();
    let by_cutoff: usize = (rules.cutoff_ms / 30) as usize;
    let min_pause: usize = if by_cutoff > KEEP_PAUSE_FRAMES + 1 { by_cutoff } else { KEEP_PAUSE_FRAMES + 1 };
    let mut pauses: Vec<(usize, usize)> = Vec::new();
    let mut run_start: Option<usize> = None;
    let mut seen_loud = false;
    let mut first: usize = 0;
    proof {
        lemma_first_loud(loud@);
    }
    let ghost f = first_loud(loud@);
    let mut i: usize = 0;
    while i < n
        invariant
            n == loud@.len(),
            f == first_loud(loud@),
            0 <= f <= n,
            f < n ==> loud@[f],
            forall|k: int| 0 <= k < f ==> !loud@[k],
            min_pause == min_pause_frames(rules),
            i <= n,
            seen_loud <==> f < i,
            seen_loud ==> first == f,
            match run_start {
                Some(s) => {
                    &&& f < s < i
                    &&& loud@[s - 1]
                    &&& forall|k: int| s <= k < i ==> !loud@[k]
                    &&& forall|j: int| 0 <= j < pauses@.len() ==> (#[trigger] pauses@[j]).1 < s
                },
                None => seen_loud ==> loud@[i - 1],
            },
            forall|j: int|
                0 <= j < pauses@.len() ==> is_long_pause(loud@, rules, (#[trigger] pauses@[j]).0 as int, pauses@[j].1 as int)
                    && pauses@[j].1 < i,
            forall|j: int, k: int| 0 <= j < k < pauses@.len() ==> #[trigger] pauses@[j].1 < #[trigger] pauses@[k].0,
            forall|s: int, e: int|
                #[trigger] is_long_pause(loud@, rules, s, e) && e < i ==> exists|j: int|
                    0 <= j < pauses@.len() && pauses@[j] == (s as usize, e as usize),
        decreases n - i,
    {
        if loud[i] {
            if !seen_loud {
                seen_loud = true;
                first = i;
                assert forall|s: int, e: int| #[trigger] is_long_pause(loud@, rules, s, e) && e < i + 1 implies exists|j: int|
                    0 <= j < pauses@.len() && pauses@[j] == (s as usize, e as usize) by {
                    assert(loud@[s - 1]);
                }
            } else {
                match run_start {
                    Some(s) => {
                        let opening_ok = match rules.protect_opening_ms {
                            Some(ms) => s - first >= (ms / 30) as usize,
                            None => true,
                        };
                        let ghost old_pauses = pauses@;
                        assert(is_quiet_run(loud@, s as int, i as int));
                        assert(first == f);
                        assert((i - s >= min_pause) <==> (i - s >= min_pause_frames(rules)));
                        assert(opening_ok <==> match rules.protect_opening_ms {
                            Some(ms) => s >= f + ms as int / 30,
                            None => true,
                        });
                        assert((i - s >= min_pause && opening_ok) <==> is_long_pause(loud@, rules, s as int, i as int));
                        if i - s >= min_pause && opening_ok {
                            pauses.push((s, i));
                        }
                        assert forall|s2: int, e: int| #[trigger] is_long_pause(loud@, rules, s2, e) && e < i + 1 implies exists|j: int|
                            0 <= j < pauses@.len() && pauses@[j] == (s2 as usize, e as usize) by {
                            if e < i {
                                let j = choose|j: int| 0 <= j < old_pauses.len() && old_pauses[j] == (s2 as usize, e as usize);
                                assert(pauses@[j] == old_pauses[j]);
                            } else {
                                if s2 < s {
                                    assert(!loud@[s - 1]);
                                } else if s2 > s {
                                    assert(!loud@[s2 - 1]);
                                }
                                assert(s2 == s);
                                assert(pauses@.len() == old_pauses.len() + 1);
                                assert(pauses@[old_pauses.len() as int] == (s2 as usize, e as usize));
                            }
                        }
                    },
                    None => {
                        assert forall|s: int, e: int| #[trigger] is_long_pause(loud@, rules, s, e) && e < i + 1 implies exists|j: int|
                            0 <= j < pauses@.len() && pauses@[j] == (s as usize, e as usize) by {
                            if e == i {
                                assert(!loud@[i - 1]);
                            }
                        }
                    },
                }
            }
            run_start = None;
        } else {
            if seen_loud && run_start.is_none() {
                run_start = Some(i);
            }
            assert forall|s: int, e: int| #[trigger] is_long_pause(loud@, rules, s, e) && e < i + 1 implies exists|j: int|
                0 <= j < pauses@.len() && pauses@[j] == (s as usize, e as usize) by {
                if e == i {
                    assert(loud@[e]);
                }
            }
        }
        i = i + 1;
    }
    pauses
}


/// How many frames `sample_count` samples make, the last one possibly short.
pub open spec fn frame_count(sample_count: int) -> int {
    (sample_count + FRAME - 1) / FRAME as int
}

/// The samples worth keeping once the quiet head and tail are cut: from
/// `EDGE_KEEP_FRAMES` frames before the first loud frame to that many frames
/// after the last one, as far as the recording reaches.
pub open spec fn speech_span_of(loud: Seq<bool>, sample_count: int) -> (int, int) {
    let first = first_loud(loud);
    let last = last_loud(loud);
    let start_frame = if first >= EDGE_KEEP_FRAMES { first - EDGE_KEEP_FRAMES } else { 0 };
    let end = (last + EDGE_KEEP_FRAMES + 1) * FRAME;
    (start_frame * FRAME, if end < sample_count { end } else { sample_count })
}

proof fn lemma_first_last(loud: Seq<bool>)
    ensures
        first_loud(loud) < loud.len() <==> last_loud(loud) >= 0,
        first_loud(loud) < loud.len() ==> first_loud(loud) <= last_loud(loud),
{
    lemma_first_loud(loud);
    lemma_last_loud(loud);
    if first_loud(loud) < loud.len() {
        assert(loud[first_loud(loud)]);
    }
    if last_loud(loud) >= 0 {
        assert(loud[last_loud(loud)]);
    }
}

/// The part of a recording left once its quiet head and tail are cut, as a
/// range of samples, given which of its frames are loud; `None` when no
/// frame is, and the recording is left alone. A pause between two spoken
/// frames is never cut: only the two ends are.
pub fn speech_span(loud: &Vec<bool>, sample_count: usize) -> (span: Option<(usize, usize)>)
    requires
        loud@.len() == frame_count(sample_count as int),
    ensures
        span is None <==> first_loud(loud@) == loud@.len(),
        span matches Some((start, end)) ==> {
            &&& (start as int, end as int) == speech_span_of(loud@, sample_count as int)
            &&& start < end <= sample_count
        },
{
    proof {
        lemma_first_loud(loud@);
        lemma_last_loud(loud@);
        lemma_first_last(loud@);
    }
    let n = loud.len();
    let mut first: usize = 0;
    while first < n && !loud[first]
        invariant
            first <= n,
            n == loud@.len(),
            forall|k: int| 0 <= k < first ==> !loud@[k],
        decreases n - first,
    {
        first = first + 1;
    }
    if first == n {
        assert(first_loud(loud@) == n) by {
            if first_loud(loud@) < n {
                assert(loud@[first_loud(loud@)]);
            }
        }
        return None;
    }
    assert(first == first_loud(loud@)) by {
        if first_loud(loud@) < first {
            assert(loud@[first_loud(loud@)]);
        }
    }
    let mut last: usize = n - 1;
    while !loud[last]
        invariant
            first <= last < n,
            n == loud@.len(),
            loud@[first as int],
            forall|k: int| last < k < n ==> !loud@[k],
        decreases last,
    {
        last = last - 1;
    }
    assert(last == last_loud(loud@)) by {
        if last_loud(loud@) > last {
            assert(loud@[last_loud(loud@)]);
        }
    }
    let start_frame = if first >= EDGE_KEEP_FRAMES { first - EDGE_KEEP_FRAMES } else { 0 };
    let start = start_frame * FRAME;
    let end = if last + EDGE_KEEP_FRAMES + 1 <= sample_count / FRAME {
        (last + EDGE_KEEP_FRAMES + 1) * FRAME
    } else {
        sample_count
    };
    assert(start < end) by (nonlinear_arith)
        requires
            start == start_frame * 480,
            start_frame <= first,
            first <= last,
            last < n,
            n == (sample_count + 479) / 480,
            end == sample_count || end == (last + 17) * 480,
            last + 17 <= sample_count / 480 ==> end == (last + 17) * 480,
            last + 17 > sample_count / 480 ==> end == sample_count;
    Some((start, end))
}

/// Keeping `speech_span` of a recording keeps every sample of every frame
/// from the first spoken one to the last, the pauses between them included.
pub proof fn speech_span_keeps_all_speech(loud: Seq<bool>, sample_count: int)
    requires
        loud.len() == frame_count(sample_count),
        0 <= sample_count,
        first_loud(loud) < loud.len(),
    ensures
        ({
            let (start, end) = speech_span_of(loud, sample_count);
            &&& start <= first_loud(loud) * FRAME
            &&& (last_loud(loud) + 1) * FRAME <= end || end == sample_count
        }),
{
    lemma_first_last(loud);
    lemma_first_loud(loud);
    let first = first_loud(loud);
    let start_frame = if first >= EDGE_KEEP_FRAMES { first - EDGE_KEEP_FRAMES } else { 0 };
    assert(start_frame * 480 <= first * 480) by (nonlinear_arith)
        requires
            0 <= start_frame <= first;
    let last = last_loud(loud);
    assert((last + 1) * 480 <= (last + 17) * 480) by (nonlinear_arith);
}

/// `pauses` can be shortened in a recording of `sample_count` samples: each
/// one is longer than what is kept of it, ends at a frame that exists, and
/// they come in order without overlapping.
pub open spec fn pauses_fit(pauses: Seq<(usize, usize)>, sample_count: int) -> bool {
    &&& forall|j: int|
        0 <= j < pauses.len() ==> (#[trigger] pauses[j]).0 + KEEP_PAUSE_FRAMES + 1 <= pauses[j].1
            && pauses[j].1 * FRAME < sample_count
    &&& forall|j: int, k: int| 0 <= j < k < pauses.len() ==> #[trigger] pauses[j].1 <= #[trigger] pauses[k].0
}

/// Where the part of pause `p` that is kept at its start ends.
pub open spec fn cut_from(p: (usize, usize)) -> int {
    (p.0 + KEEP_PAUSE_FRAMES / 2) * FRAME
}

/// Where the samples after pause `p` start again: the part kept at its end
/// begins `JOIN_FADE` samples earlier and is blended into the join.
pub open spec fn resume_at(p: (usize, usize)) -> int {
    (p.1 - KEEP_PAUSE_FRAMES / 2) * FRAME + JOIN_FADE
}

/// Range `j` of the samples that survive pause-shortening.
pub open spec fn kept_range(pauses: Seq<(usize, usize)>, sample_count: int, j: int) -> (int, int) {
    (
        if j == 0 { 0 } else { resume_at(pauses[j - 1]) },
        if j == pauses.len() { sample_count } else { cut_from(pauses[j]) },
    )
}

/// How many samples shortening `pauses` removes.
pub open spec fn cut_length(pauses: Seq<(usize, usize)>) -> int
    decreases pauses.len(),
{
    if pauses.len() == 0 {
        0
    } else {
        cut_length(pauses.drop_last()) + resume_at(pauses.last()) - cut_from(pauses.last())
    }
}

/// How many samples a list of ranges covers.
pub open spec fn ranges_length(ranges: Seq<(usize, usize)>) -> int
    decreases ranges.len(),
{
    if ranges.len() == 0 {
        0
    } else {
        ranges_length(ranges.drop_last()) + ranges.last().1 - ranges.last().0
    }
}

/// The ranges of samples that survive when `pauses` are shortened, in order:
/// everything up to half of the kept gap into the first pause, then from the
/// other half of that gap to half the kept gap into the next pause, and so on
/// to the end. Where two ranges meet, the first `JOIN_FADE` samples before
/// the start of the later one are blended into the end of the earlier one.
pub fn pause_cuts(pauses: &Vec<(usize, usize)>, sample_count: usize) -> (kept: Vec<(usize, usize)>)
    requires
        pauses_fit(pauses@, sample_count as int),
    ensures
        kept@.len() == pauses@.len() + 1,
        forall|j: int|
            0 <= j < kept@.len() ==> (#[trigger] kept@[j].0 as int, kept@[j].1 as int)
                == kept_range(pauses@, sample_count as int, j),
        forall|j: int| 0 <= j < kept@.len() ==> (#[trigger] kept@[j]).0 <= kept@[j].1 <= sample_count,
        forall|j: int| 0 < j < kept@.len() ==> (#[trigger] kept@[j]).0 >= JOIN_FADE,
        forall|j: int| 0 <= j < kept@.len() - 1 ==> (#[trigger] kept@[j]).1 - kept@[j].0 >= JOIN_FADE,
        forall|j: int, k: int| 0 <= j < k < kept@.len() ==> #[trigger] kept@[j].1 <= #[trigger] kept@[k].0,
        ranges_length(kept@) == sample_count - cut_length(pauses@),
        0 <= cut_length(pauses@) <= sample_count,
{
    proof {
        lemma_cut_length_nonneg(pauses@, sample_count as int);
    }
    let m = pauses.len();
    let mut kept: Vec<(usize, usize)> = Vec::new();
    let mut from: usize = 0;
    let mut j: usize = 0;
    while j < m
        invariant
            m == pauses@.len(),
            pauses_fit(pauses@, sample_count as int),
            j <= m,
            kept@.len() == j,
            from as int == kept_range(pauses@, sample_count as int, j as int).0,
            from <= sample_count,
            j > 0 ==> from >= JOIN_FADE,
            j < m ==> from + JOIN_FADE <= cut_from(pauses@[j as int]),
            forall|i: int|
                0 <= i < j ==> (#[trigger] kept@[i].0 as int, kept@[i].1 as int)
                    == kept_range(pauses@, sample_count as int, i),
            forall|i: int| 0 <= i < j ==> (#[trigger] kept@[i]).0 <= kept@[i].1 <= sample_count,
            forall|i: int| 0 < i < j ==> (#[trigger] kept@[i]).0 >= JOIN_FADE,
            forall|i: int| 0 <= i < j ==> (#[trigger] kept@[i]).1 - kept@[i].0 >= JOIN_FADE,
            forall|i: int, k: int| 0 <= i < k < j ==> #[trigger] kept@[i].1 <= #[trigger] kept@[k].0,
            forall|i: int| 0 <= i < j ==> (#[trigger] kept@[i]).1 <= from,
            ranges_length(kept@) == from - cut_length(pauses@.take(j as int)),
        decreases m - j,
    {
        let (start, end) = pauses[j];
        assert(pauses@[j as int] == (start, end));
        assert(end * 480 < sample_count);
        let to = (start + KEEP_PAUSE_FRAMES / 2) * FRAME;
        assert(from + 80 <= to);
        let next = (end - KEEP_PAUSE_FRAMES / 2) * FRAME + JOIN_FADE;
        assert(to <= next && next <= end * 480) by (nonlinear_arith)
            requires
                to == (start + 5) * 480,
                next == (end - 5) * 480 + 80,
                start + 11 <= end;
        let ghost old_kept = kept@;
        kept.push((from, to));
        proof {
            assert(kept@.drop_last() =~= old_kept);
            assert(pauses@.take(j + 1).drop_last() =~= pauses@.take(j as int));
            if j + 1 < m {
                let nx = pauses@[j + 1];
                assert(end <= nx.0);
                assert(next + 80 <= (nx.0 + 5) * 480) by (nonlinear_arith)
                    requires
                        next <= end * 480,
                        end <= nx.0;
            }
        }
        from = next;
        j = j + 1;
    }
    let ghost old_kept = kept@;
    kept.push((from, sample_count));
    proof {
        assert(kept@.drop_last() =~= old_kept);
        assert(pauses@.take(m as int) =~= pauses@);
        lemma_take_monotone(kept@, 0, kept@.len() as int);
        assert(kept@.take(0) =~= Seq::<(usize, usize)>::empty());
        assert(kept@.take(kept@.len() as int) =~= kept@);
    }
    kept
}


/// The long pauses of a recording can always be shortened: they fit the
/// recording the flags were measured on.
pub proof fn long_pauses_fit(loud: Seq<bool>, rules: PauseRules, pauses: Seq<(usize, usize)>, sample_count: int)
    requires
        are_the_long_pauses(loud, rules, pauses),
        loud.len() == frame_count(sample_count),
        0 <= sample_count,
    ensures
        pauses_fit(pauses, sample_count),
{
    assert forall|j: int| 0 <= j < pauses.len() implies (#[trigger] pauses[j]).0 + KEEP_PAUSE_FRAMES + 1 <= pauses[j].1
        && pauses[j].1 * FRAME < sample_count by {
        assert(is_long_pause(loud, rules, pauses[j].0 as int, pauses[j].1 as int));
        let e = pauses[j].1 as int;
        assert(e * 480 < sample_count) by (nonlinear_arith)
            requires
                0 <= e,
                e < (sample_count + 479) / 480,
                0 <= sample_count;
    }
    assert forall|j: int, k: int| 0 <= j < k < pauses.len() implies #[trigger] pauses[j].1 <= #[trigger] pauses[k].0 by {
    }
}

/// Shortening a long pause removes only samples of its own quiet frames, so
/// every sample of every spoken frame survives.
pub proof fn only_quiet_samples_are_cut(loud: Seq<bool>, rules: PauseRules, pause: (usize, usize), x: int)
    requires
        is_long_pause(loud, rules, pause.0 as int, pause.1 as int),
        cut_from(pause) <= x < resume_at(pause),
    ensures
        pause.0 <= x / (FRAME as int) < pause.1,
        !loud[x / (FRAME as int)],
{
    let start = pause.0 as int;
    let end = pause.1 as int;
    assert(start <= x / 480 < end) by (nonlinear_arith)
        requires
            (start + 5) * 480 <= x < (end - 5) * 480 + 80,
            start + 11 <= end;
}

/// Whatever its length, a shortened pause leaves the same quiet gap behind:
/// `KEEP_PAUSE_FRAMES` frames, less the `JOIN_FADE` samples blended together
/// at the join (0.295 s at 16 kHz).
pub proof fn shortened_pause_leaves_the_same_gap(p: (usize, usize))
    requires
        p.0 + KEEP_PAUSE_FRAMES + 1 <= p.1,
    ensures
        (p.1 - p.0) * FRAME - (resume_at(p) - cut_from(p)) == KEEP_PAUSE_FRAMES * FRAME - JOIN_FADE,
        cut_from(p) <= resume_at(p),
{
}

/// With no long pause in it a recording survives shortening whole: one range
/// covering every sample, and nothing cut.
pub proof fn no_long_pause_leaves_recording_whole(pauses: Seq<(usize, usize)>, sample_count: int)
    requires
        pauses.len() == 0,
    ensures
        kept_range(pauses, sample_count, 0) == (0int, sample_count),
        cut_length(pauses) == 0,
{
}

/// The newest samples are kept for the live drawing maths; this many of them.
pub const RECENT_KEEP: usize = 4096;

/// The last `keep` values of `s`, or all of them when there are fewer.
pub open spec fn newest<T>(s: Seq<T>, keep: int) -> Seq<T> {
    if s.len() > keep { s.subrange(s.len() - keep, s.len() as int) } else { s }
}

/// Adds a chunk to the store of recent samples and drops the oldest, so that
/// the store holds the newest `RECENT_KEEP` samples and never grows past that.
pub fn keep_recent<T: Copy>(recent: &mut Vec<T>, chunk: &[T])
    ensures
        final(recent)@ == newest(old(recent)@ + chunk@, RECENT_KEEP as int),
{
    let ghost all = old(recent)@ + chunk@;
    let start_len = recent.len();
    let mut i: usize = 0;
    while i < chunk.len()
        invariant
            i <= chunk@.len(),
            start_len == old(recent)@.len(),
            all == old(recent)@ + chunk@,
            recent@ =~= old(recent)@ + chunk@.take(i as int),
        decreases chunk@.len() - i,
    {
        recent.push(chunk[i]);
        i = i + 1;
    }
    assert(chunk@.take(chunk@.len() as int) =~= chunk@);
    let len = recent.len();
    if len > RECENT_KEEP {
        let drop = len - RECENT_KEEP;
        let mut kept: Vec<T> = Vec::with_capacity(RECENT_KEEP);
        let mut k: usize = drop;
        while k < len
            invariant
                drop <= k <= len,
                len == recent@.len(),
                kept@ =~= recent@.subrange(drop as int, k as int),
            decreases len - k,
        {
            kept.push(recent[k]);
            k = k + 1;
        }
        *recent = kept;
    }
}


/// The samples of the ranges, one range after another.
pub open spec fn spliced<T>(samples: Seq<T>, ranges: Seq<(usize, usize)>) -> Seq<T>
    decreases ranges.len(),
{
    if ranges.len() == 0 {
        Seq::empty()
    } else {
        spliced(samples, ranges.drop_last()) + samples.subrange(ranges.last().0 as int, ranges.last().1 as int)
    }
}

/// Every range lies within the samples.
pub open spec fn ranges_within(ranges: Seq<(usize, usize)>, sample_count: int) -> bool {
    forall|j: int| 0 <= j < ranges.len() ==> (#[trigger] ranges[j]).0 <= ranges[j].1 <= sample_count
}

proof fn lemma_spliced_len<T>(samples: Seq<T>, ranges: Seq<(usize, usize)>)
    requires
        ranges_within(ranges, samples.len() as int),
    ensures
        spliced(samples, ranges).len() == ranges_length(ranges),
    decreases ranges.len(),
{
    if ranges.len() > 0 {
        lemma_spliced_len(samples, ranges.drop_last());
    }
}

/// The samples of `kept`, one range after another: a recording with its
/// long pauses taken out, before the joins are blended.
pub fn splice_ranges<T: Copy>(samples: &[T], kept: &Vec<(usize, usize)>) -> (out: Vec<T>)
    requires
        ranges_within(kept@, samples@.len() as int),
    ensures
        out@ == spliced(samples@, kept@),
        out@.len() == ranges_length(kept@),
{
    let mut out: Vec<T> = Vec::new();
    let mut j: usize = 0;
    while j < kept.len()
        invariant
            j <= kept@.len(),
            ranges_within(kept@, samples@.len() as int),
            out@ == spliced(samples@, kept@.take(j as int)),
        decreases kept@.len() - j,
    {
        let (a, b) = kept[j];
        assert(kept@[j as int] == (a, b));
        let ghost before = out@;
        let mut i: usize = a;
        while i < b
            invariant
                a <= i <= b,
                b <= samples@.len(),
                out@ == before + samples@.subrange(a as int, i as int),
            decreases b - i,
        {
            out.push(samples[i]);
            proof {
                assert(samples@.subrange(a as int, i + 1) =~= samples@.subrange(a as int, i as int).push(samples@[i as int]));
            }
            i = i + 1;
        }
        proof {
            assert(kept@.take(j + 1).drop_last() =~= kept@.take(j as int));
            assert(kept@.take(j + 1).last() == kept@[j as int]);
        }
        j = j + 1;
    }
    proof {
        assert(kept@.take(kept@.len() as int) =~= kept@);
        lemma_spliced_len(samples@, kept@);
    }
    out
}

/// Where range `j` (from 1) begins in the spliced samples, and where the
/// `JOIN_FADE` samples blended into the end of the range before it start in
/// the unedited recording.
pub open spec fn join_point(kept: Seq<(usize, usize)>, j: int) -> (int, int) {
    (ranges_length(kept.take(j)), kept[j].0 - JOIN_FADE)
}

proof fn lemma_take_step(ranges: Seq<(usize, usize)>, j: int)
    requires
        0 <= j < ranges.len(),
    ensures
        ranges_length(ranges.take(j + 1)) == ranges_length(ranges.take(j)) + ranges[j].1 - ranges[j].0,
{
    assert(ranges.take(j + 1).drop_last() =~= ranges.take(j));
    assert(ranges.take(j + 1).last() == ranges[j]);
}

proof fn lemma_take_monotone(ranges: Seq<(usize, usize)>, j: int, k: int)
    requires
        0 <= j <= k <= ranges.len(),
        forall|i: int| 0 <= i < ranges.len() ==> (#[trigger] ranges[i]).0 <= ranges[i].1,
    ensures
        ranges_length(ranges.take(j)) <= ranges_length(ranges.take(k)),
    decreases k - j,
{
    if j < k {
        lemma_take_monotone(ranges, j, k - 1);
        lemma_take_step(ranges, k - 1);
    }
}

proof fn lemma_cut_length_nonneg(pauses: Seq<(usize, usize)>, sample_count: int)
    requires
        pauses_fit(pauses, sample_count),
    ensures
        cut_length(pauses) >= 0,
    decreases pauses.len(),
{
    if pauses.len() > 0 {
        let init = pauses.drop_last();
        assert forall|j: int| 0 <= j < init.len() implies (#[trigger] init[j]).0 + KEEP_PAUSE_FRAMES + 1 <= init[j].1
            && init[j].1 * FRAME < sample_count by {
            assert(init[j] == pauses[j]);
        }
        assert forall|j: int, k: int| 0 <= j < k < init.len() implies #[trigger] init[j].1 <= #[trigger] init[k].0 by {
            assert(init[j] == pauses[j]);
            assert(init[k] == pauses[k]);
        }
        lemma_cut_length_nonneg(init, sample_count);
        let last = pauses.last();
        assert(pauses[pauses.len() - 1] == last);
        assert(cut_from(last) <= resume_at(last)) by (nonlinear_arith)
            requires
                last.0 + 11 <= last.1,
                cut_from(last) == (last.0 + 5) * 480,
                resume_at(last) == (last.1 - 5) * 480 + 80;
    }
}

proof fn lemma_spliced_step<T>(samples: Seq<T>, ranges: Seq<(usize, usize)>, j: int)
    requires
        0 <= j < ranges.len(),
    ensures
        spliced(samples, ranges.take(j + 1)) == spliced(samples, ranges.take(j)) + samples.subrange(
            ranges[j].0 as int,
            ranges[j].1 as int,
        ),
{
    assert(ranges.take(j + 1).drop_last() =~= ranges.take(j));
    assert(ranges.take(j + 1).last() == ranges[j]);
}

proof fn lemma_spliced_prefix<T>(samples: Seq<T>, ranges: Seq<(usize, usize)>, m: int)
    requires
        0 <= m <= ranges.len(),
        ranges_within(ranges, samples.len() as int),
    ensures
        spliced(samples, ranges.take(m)).len() <= spliced(samples, ranges).len(),
        forall|i: int|
            0 <= i < spliced(samples, ranges.take(m)).len() ==> #[trigger] spliced(samples, ranges)[i] == spliced(
                samples,
                ranges.take(m),
            )[i],
    decreases ranges.len() - m,
{
    if m == ranges.len() {
        assert(ranges.take(m) =~= ranges);
    } else {
        lemma_spliced_prefix(samples, ranges, m + 1);
        lemma_spliced_step(samples, ranges, m);
        let shorter = spliced(samples, ranges.take(m));
        let longer = spliced(samples, ranges.take(m + 1));
        assert forall|i: int| 0 <= i < shorter.len() implies #[trigger] spliced(samples, ranges)[i] == shorter[i] by {
            assert(longer[i] == shorter[i]);
        }
    }
}

/// Each join sits exactly where its range begins in the spliced samples:
/// the samples from a join's position on are those of range `j`, and the
/// samples blended into the end of the range before it are the `JOIN_FADE`
/// samples that came right before range `j` in the recording. Consecutive
/// joins lie the length of the range between them apart.
pub proof fn joins_sit_where_their_ranges_begin<T>(samples: Seq<T>, kept: Seq<(usize, usize)>, j: int, t: int)
    requires
        ranges_within(kept, samples.len() as int),
        1 <= j < kept.len(),
        0 <= t < kept[j].1 - kept[j].0,
    ensures
        join_point(kept, 1).0 == kept[0].1 - kept[0].0,
        j + 1 < kept.len() ==> join_point(kept, j + 1).0 == join_point(kept, j).0 + (kept[j].1 - kept[j].0),
        join_point(kept, j).1 + JOIN_FADE == kept[j].0,
        spliced(samples, kept)[join_point(kept, j).0 + t] == samples[kept[j].0 + t],
{
    assert(kept.take(0) =~= Seq::<(usize, usize)>::empty());
    lemma_take_step(kept, 0);
    lemma_take_step(kept, j);
    assert(ranges_within(kept, samples.len() as int) ==> kept[j].0 <= kept[j].1 <= samples.len());
    lemma_spliced_step(samples, kept, j);
    let before = kept.take(j);
    let upto = kept.take(j + 1);
    assert(ranges_within(before, samples.len() as int)) by {
        assert forall|i: int| 0 <= i < before.len() implies (#[trigger] before[i]).0 <= before[i].1 <= samples.len() by {
            assert(before[i] == kept[i]);
        }
    }
    assert(ranges_within(upto, samples.len() as int)) by {
        assert forall|i: int| 0 <= i < upto.len() implies (#[trigger] upto[i]).0 <= upto[i].1 <= samples.len() by {
            assert(upto[i] == kept[i]);
        }
    }
    lemma_spliced_len(samples, before);
    lemma_spliced_len(samples, upto);
    lemma_spliced_prefix(samples, kept, j + 1);
    let p = join_point(kept, j).0;
    let sub = samples.subrange(kept[j].0 as int, kept[j].1 as int);
    assert(spliced(samples, upto)[p + t] == sub[t]);
    assert(spliced(samples, kept)[p + t] == spliced(samples, upto)[p + t]);
}

/// The joins of spliced ranges, as (where the later range begins in the
/// spliced samples, where the samples blended across the join start in the
/// unedited recording), one per range after the first. Blending the `JOIN_FADE`
/// samples before each join with those source samples stays within both.
pub fn join_points(kept: &Vec<(usize, usize)>, sample_count: usize) -> (joins: Vec<(usize, usize)>)
    requires
        kept@.len() >= 1,
        ranges_within(kept@, sample_count as int),
        ranges_length(kept@) <= sample_count,
        forall|j: int| 0 < j < kept@.len() ==> (#[trigger] kept@[j]).0 >= JOIN_FADE,
        kept@[0].1 - kept@[0].0 >= JOIN_FADE,
    ensures
        joins@.len() == kept@.len() - 1,
        forall|j: int|
            0 <= j < joins@.len() ==> (#[trigger] joins@[j].0 as int, joins@[j].1 as int) == join_point(kept@, j + 1),
        forall|j: int|
            0 <= j < joins@.len() ==> JOIN_FADE <= (#[trigger] joins@[j]).0 <= ranges_length(kept@)
                && joins@[j].1 + JOIN_FADE <= sample_count,
{
    let mut joins: Vec<(usize, usize)> = Vec::new();
    proof {
        assert(kept@.take(0) =~= Seq::<(usize, usize)>::empty());
        lemma_take_step(kept@, 0);
        assert(kept@.take(kept@.len() as int) =~= kept@);
    }
    let first = kept[0];
    let mut position: usize = first.1 - first.0;
    let mut j: usize = 1;
    while j < kept.len()
        invariant
            1 <= j <= kept@.len(),
            ranges_within(kept@, sample_count as int),
            forall|i: int| 0 < i < kept@.len() ==> (#[trigger] kept@[i]).0 >= JOIN_FADE,
            ranges_length(kept@.take(1)) >= JOIN_FADE,
            ranges_length(kept@.take(kept@.len() as int)) == ranges_length(kept@),
            ranges_length(kept@) <= sample_count,
            position == ranges_length(kept@.take(j as int)),
            joins@.len() == j - 1,
            forall|i: int|
                0 <= i < joins@.len() ==> (#[trigger] joins@[i].0 as int, joins@[i].1 as int) == join_point(kept@, i + 1),
            forall|i: int|
                0 <= i < joins@.len() ==> JOIN_FADE <= (#[trigger] joins@[i]).0 <= ranges_length(kept@)
                    && joins@[i].1 + JOIN_FADE <= sample_count,
        decreases kept@.len() - j,
    {
        let (a, b) = kept[j];
        proof {
            assert(kept@[j as int] == (a, b));
            lemma_take_monotone(kept@, 1, j as int);
            lemma_take_monotone(kept@, j + 1, kept@.len() as int);
            lemma_take_step(kept@, j as int);
        }
        joins.push((position, a - JOIN_FADE));
        position = position + (b - a);
        j = j + 1;
    }
    joins
}

} // verus!
